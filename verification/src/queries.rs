//! Turning stored message records into messages, usage events and sessions.

use vstd::prelude::*;

use crate::clock::{instant_of, millis_in_range, to_instant};
use crate::records::{
    clone_opt, opt_view, DataSourceKind, JsonMessageRecord, MessageRecord, SessionRow,
    TokenUsage, UsageEvent,
};
use crate::text::{chars_of, is_white_space, lemma_trim_idempotent, string_from_chars, trim, trim_chars};

verus! {

/// Text with surrounding white space removed; absent when nothing is left.
pub open spec fn normalized(o: Option<Seq<char>>) -> Option<Seq<char>> {
    match o {
        Some(s) => if trim(s).len() == 0 {
            None
        } else {
            Some(trim(s))
        },
        None => None,
    }
}

/// A normalized text is never blank, neither starts nor ends with white
/// space, and normalizing it again gives it back unchanged.
pub proof fn lemma_normalized_idempotent(o: Option<Seq<char>>)
    ensures
        normalized(o) matches Some(t) ==> t.len() > 0 && !is_white_space(t[0])
            && !is_white_space(t.last()),
        normalized(normalized(o)) == normalized(o),
{
    if let Some(s) = o {
        lemma_trim_idempotent(s);
    }
}

/// Trims an optional text and drops it when it is empty.
pub fn normalize_optional_text(value: Option<String>) -> (r: Option<String>)
    ensures
        opt_view(r) == normalized(opt_view(value)),
{
    match value {
        Some(v) => {
            let cs = chars_of(v.as_str());
            let t = trim_chars(cs.as_slice());
            if t.len() == 0 {
                None
            } else {
                Some(string_from_chars(t.as_slice()))
            }
        },
        None => None,
    }
}

/// Whether two character sequences are equal.
pub fn chars_equal(a: &[char], b: &[char]) -> (r: bool)
    ensures
        r == (a@ == b@),
{
    if a.len() != b.len() {
        return false;
    }
    let mut i: usize = 0;
    while i < a.len()
        invariant
            i <= a@.len(),
            a@.len() == b@.len(),
            forall|k: int| 0 <= k < i ==> a@[k] == b@[k],
        decreases a@.len() - i,
    {
        if a[i] != b[i] {
            return false;
        }
        i += 1;
    }
    assert(a@ =~= b@);
    true
}

/// The role of messages that carry token usage.
pub open spec fn assistant_role() -> Seq<char> {
    seq!['a', 's', 's', 'i', 's', 't', 'a', 'n', 't']
}

fn is_assistant(role: &Option<String>) -> (r: bool)
    ensures
        r == (opt_view(*role) == Some(assistant_role())),
{
    match role {
        Some(s) => {
            let lit: Vec<char> = vec!['a', 's', 's', 'i', 's', 't', 'a', 'n', 't'];
            assert(lit@ =~= assistant_role());
            let cs = chars_of(s.as_str());
            chars_equal(cs.as_slice(), lit.as_slice())
        },
        None => false,
    }
}

/// `a` when present, else `b`.
pub open spec fn first_some(a: Option<Seq<char>>, b: Option<Seq<char>>) -> Option<Seq<char>> {
    match a {
        Some(x) => Some(x),
        None => b,
    }
}

/// The normalized role of a record.
pub open spec fn record_role(r: JsonMessageRecord) -> Option<Seq<char>> {
    normalized(opt_view(r.role))
}

/// The normalized provider of a record, taken from the nested model when the
/// record itself names none.
pub open spec fn record_provider(r: JsonMessageRecord) -> Option<Seq<char>> {
    first_some(
        normalized(opt_view(r.provider_id)),
        match r.model {
            Some(m) => normalized(opt_view(m.provider_id)),
            None => None,
        },
    )
}

/// The normalized model of a record, taken from the nested model when the
/// record itself names none.
pub open spec fn record_model(r: JsonMessageRecord) -> Option<Seq<char>> {
    first_some(
        normalized(opt_view(r.model_id)),
        match r.model {
            Some(m) => normalized(opt_view(m.model_id)),
            None => None,
        },
    )
}

/// When the record was created, where representable.
pub open spec fn record_created(r: JsonMessageRecord) -> Option<i64> {
    match r.time {
        Some(t) => instant_of(t.created),
        None => None,
    }
}

/// When the record was completed, where representable.
pub open spec fn record_completed(r: JsonMessageRecord) -> Option<i64> {
    match r.time {
        Some(t) => instant_of(t.completed),
        None => None,
    }
}

/// The token counts of a record, missing counts taken as zero.
pub open spec fn record_tokens(r: JsonMessageRecord) -> TokenUsage {
    TokenUsage {
        input: match r.tokens {
            Some(t) => match t.input {
                Some(v) => v,
                None => 0,
            },
            None => 0,
        },
        output: match r.tokens {
            Some(t) => match t.output {
                Some(v) => v,
                None => 0,
            },
            None => 0,
        },
        cache_read: match r.tokens {
            Some(t) => match t.cache {
                Some(c) => match c.read {
                    Some(v) => v,
                    None => 0,
                },
                None => 0,
            },
            None => 0,
        },
        cache_write: match r.tokens {
            Some(t) => match t.cache {
                Some(c) => match c.write {
                    Some(v) => v,
                    None => 0,
                },
                None => 0,
            },
            None => 0,
        },
    }
}

/// The project directory of a record: its working directory, else its project
/// root, else the session's worktree.
pub open spec fn record_project_path(r: JsonMessageRecord, s: SessionRow) -> Option<Seq<char>> {
    first_some(
        match r.path {
            Some(p) => first_some(opt_view(p.cwd), opt_view(p.root)),
            None => None,
        },
        opt_view(s.project_worktree),
    )
}

/// Whether the record is an assistant response.
pub open spec fn is_assistant_record(r: JsonMessageRecord) -> bool {
    record_role(r) == Some(assistant_role())
}

/// `m` is the message made from record `r` of session `s`.
pub open spec fn message_describes(
    m: MessageRecord,
    r: JsonMessageRecord,
    s: SessionRow,
    source: DataSourceKind,
) -> bool {
    &&& m.session_id@ == s.id@
    &&& opt_view(m.role) == record_role(r)
    &&& opt_view(m.provider_id) == record_provider(r)
    &&& opt_view(m.model_id) == record_model(r)
    &&& m.created_at == record_created(r)
    &&& m.source == source
}

/// `e` is the usage event made from assistant record `r` of session `s`.
pub open spec fn event_describes(
    e: UsageEvent,
    r: JsonMessageRecord,
    s: SessionRow,
    source: DataSourceKind,
) -> bool {
    &&& e.session_id@ == s.id@
    &&& opt_view(e.parent_session_id) == opt_view(s.parent_id)
    &&& opt_view(e.session_title) == opt_view(s.title)
    &&& e.session_started_at == s.time_created
    &&& e.session_archived_at == s.time_archived
    &&& opt_view(e.project_name) == opt_view(s.project_name)
    &&& opt_view(e.project_path) == record_project_path(r, s)
    &&& opt_view(e.provider_id) == record_provider(r)
    &&& record_model(r) == Some(e.model_id@)
    &&& opt_view(e.agent) == opt_view(r.agent)
    &&& opt_view(e.finish_reason) == opt_view(r.finish)
    &&& e.tokens == record_tokens(r)
    &&& e.created_at == record_created(r)
    &&& e.completed_at == record_completed(r)
    &&& e.stored_cost_bits == r.cost_bits
    &&& e.source == source
}

/// A count as recorded, zero when absent.
pub open spec fn count_of(v: Option<u64>) -> u64 {
    match v {
        Some(n) => n,
        None => 0,
    }
}

/// A usage event carries the record's own token counts: its input and
/// output counts are the record's `tokens.input` and `tokens.output`, its
/// cache-read and cache-write counts the record's `tokens.cache.read` and
/// `tokens.cache.write`, each zero when absent.
pub proof fn lemma_event_tokens_from_record(
    e: UsageEvent,
    r: JsonMessageRecord,
    s: SessionRow,
    source: DataSourceKind,
)
    requires
        event_describes(e, r, s, source),
    ensures
        match r.tokens {
            None => e.tokens.input == 0 && e.tokens.output == 0 && e.tokens.cache_read == 0
                && e.tokens.cache_write == 0,
            Some(t) => {
                &&& e.tokens.input == count_of(t.input)
                &&& e.tokens.output == count_of(t.output)
                &&& match t.cache {
                    None => e.tokens.cache_read == 0 && e.tokens.cache_write == 0,
                    Some(c) => e.tokens.cache_read == count_of(c.read) && e.tokens.cache_write
                        == count_of(c.write),
                }
            },
        },
{
}

/// A usage event names the record's model and provider and carries its
/// times, its directory, and its session's details: the model is the
/// record's own `modelID` (trimmed) when not blank, else that of its nested
/// model; the provider likewise, absent when neither names one; the creation
/// and completion times are the record's `time.created` and `time.completed`
/// where representable; the project path is the working directory, else the
/// project root, else the session's worktree; and the session's id, parent,
/// title, start, archive time and project name are copied.
pub proof fn lemma_event_fields_from_record(
    e: UsageEvent,
    r: JsonMessageRecord,
    s: SessionRow,
    source: DataSourceKind,
)
    requires
        event_describes(e, r, s, source),
    ensures
        match r.model_id {
            Some(m) if trim(m@).len() > 0 => e.model_id@ == trim(m@),
            _ => match r.model {
                Some(n) => match n.model_id {
                    Some(x) => e.model_id@ == trim(x@),
                    None => false,
                },
                None => false,
            },
        },
        match r.provider_id {
            Some(p) if trim(p@).len() > 0 => opt_view(e.provider_id) == Some(trim(p@)),
            _ => match r.model {
                Some(n) => match n.provider_id {
                    Some(x) if trim(x@).len() > 0 => opt_view(e.provider_id) == Some(trim(x@)),
                    _ => e.provider_id is None,
                },
                None => e.provider_id is None,
            },
        },
        match r.time {
            None => e.created_at is None && e.completed_at is None,
            Some(t) => {
                &&& match t.created {
                    Some(ms) => e.created_at == if millis_in_range(ms) {
                        Some(ms)
                    } else {
                        None
                    },
                    None => e.created_at is None,
                }
                &&& match t.completed {
                    Some(ms) => e.completed_at == if millis_in_range(ms) {
                        Some(ms)
                    } else {
                        None
                    },
                    None => e.completed_at is None,
                }
            },
        },
        match r.path {
            Some(p) => match p.cwd {
                Some(c) => opt_view(e.project_path) == Some(c@),
                None => match p.root {
                    Some(root) => opt_view(e.project_path) == Some(root@),
                    None => opt_view(e.project_path) == opt_view(s.project_worktree),
                },
            },
            None => opt_view(e.project_path) == opt_view(s.project_worktree),
        },
        e.session_id@ == s.id@,
        opt_view(e.parent_session_id) == opt_view(s.parent_id),
        opt_view(e.session_title) == opt_view(s.title),
        e.session_started_at == s.time_created,
        e.session_archived_at == s.time_archived,
        opt_view(e.project_name) == opt_view(s.project_name),
        opt_view(e.agent) == opt_view(r.agent),
        opt_view(e.finish_reason) == opt_view(r.finish),
        e.stored_cost_bits == r.cost_bits,
        e.source == source,
{
}

/// A message carries its record's role, model, provider and creation time
/// and its session's id: the role is the record's `role` trimmed (absent when
/// blank), the model and provider the record's own trimmed ids when not
/// blank, else those of its nested model, and the creation time the record's
/// `time.created` where representable.
pub proof fn lemma_message_fields_from_record(
    m: MessageRecord,
    r: JsonMessageRecord,
    s: SessionRow,
    source: DataSourceKind,
)
    requires
        message_describes(m, r, s, source),
    ensures
        m.session_id@ == s.id@,
        m.source == source,
        match r.role {
            Some(x) if trim(x@).len() > 0 => opt_view(m.role) == Some(trim(x@)),
            _ => m.role is None,
        },
        match r.model_id {
            Some(x) if trim(x@).len() > 0 => opt_view(m.model_id) == Some(trim(x@)),
            _ => match r.model {
                Some(n) => match n.model_id {
                    Some(y) if trim(y@).len() > 0 => opt_view(m.model_id) == Some(trim(y@)),
                    _ => m.model_id is None,
                },
                None => m.model_id is None,
            },
        },
        match r.provider_id {
            Some(x) if trim(x@).len() > 0 => opt_view(m.provider_id) == Some(trim(x@)),
            _ => match r.model {
                Some(n) => match n.provider_id {
                    Some(y) if trim(y@).len() > 0 => opt_view(m.provider_id) == Some(trim(y@)),
                    _ => m.provider_id is None,
                },
                None => m.provider_id is None,
            },
        },
        match r.time {
            Some(t) => match t.created {
                Some(ms) => m.created_at == if millis_in_range(ms) {
                    Some(ms)
                } else {
                    None
                },
                None => m.created_at is None,
            },
            None => m.created_at is None,
        },
{
}

/// A message together with the usage event it yields, if any.
pub struct ParsedMessage {
    pub record: MessageRecord,
    pub event: Option<UsageEvent>,
}

fn count_or_zero(v: Option<u64>) -> (r: u64)
    ensures
        r == match v {
            Some(x) => x,
            None => 0,
        },
{
    match v {
        Some(x) => x,
        None => 0,
    }
}

/// Reads one stored record of session `session`. Every record becomes a
/// message; an assistant record without a model is dropped altogether; an
/// assistant record also becomes a usage event when it used any tokens.
pub fn parse_json_record(
    record: JsonMessageRecord,
    session: &SessionRow,
    source: DataSourceKind,
) -> (r: Option<ParsedMessage>)
    ensures
        r is None <==> (is_assistant_record(record) && record_model(record) is None),
        r matches Some(p) ==> message_describes(p.record, record, *session, source),
        r matches Some(p) ==> (p.event is Some <==> (is_assistant_record(record)
            && record_tokens(record).spec_total() > 0)),
        r matches Some(p) ==> (p.event matches Some(e) ==> event_describes(
            e,
            record,
            *session,
            source,
        )),
{
    let role = normalize_optional_text(clone_opt(&record.role));
    let provider_id = match normalize_optional_text(clone_opt(&record.provider_id)) {
        Some(p) => Some(p),
        None => match &record.model {
            Some(m) => normalize_optional_text(clone_opt(&m.provider_id)),
            None => None,
        },
    };
    let model_id = match normalize_optional_text(clone_opt(&record.model_id)) {
        Some(p) => Some(p),
        None => match &record.model {
            Some(m) => normalize_optional_text(clone_opt(&m.model_id)),
            None => None,
        },
    };
    let created_at = match &record.time {
        Some(t) => to_instant(t.created),
        None => None,
    };
    let message = MessageRecord {
        session_id: session.id.clone(),
        role: clone_opt(&role),
        provider_id: clone_opt(&provider_id),
        model_id: clone_opt(&model_id),
        created_at,
        source,
    };
    if !is_assistant(&role) {
        return Some(ParsedMessage { record: message, event: None });
    }
    let model_id = match model_id {
        Some(m) => m,
        None => return None,
    };
    let tokens = match &record.tokens {
        Some(t) => TokenUsage {
            input: count_or_zero(t.input),
            output: count_or_zero(t.output),
            cache_read: match &t.cache {
                Some(c) => count_or_zero(c.read),
                None => 0,
            },
            cache_write: match &t.cache {
                Some(c) => count_or_zero(c.write),
                None => 0,
            },
        },
        None => TokenUsage { input: 0, output: 0, cache_read: 0, cache_write: 0 },
    };
    let completed_at = match &record.time {
        Some(t) => to_instant(t.completed),
        None => None,
    };
    let project_path = match &record.path {
        Some(p) => match &p.cwd {
            Some(c) => Some(c.clone()),
            None => clone_opt(&p.root),
        },
        None => None,
    };
    let project_path = match project_path {
        Some(p) => Some(p),
        None => clone_opt(&session.project_worktree),
    };
    let event = UsageEvent {
        session_id: session.id.clone(),
        parent_session_id: clone_opt(&session.parent_id),
        session_title: clone_opt(&session.title),
        session_started_at: session.time_created,
        session_archived_at: session.time_archived,
        project_name: clone_opt(&session.project_name),
        project_path,
        provider_id,
        model_id,
        agent: record.agent,
        finish_reason: record.finish,
        tokens,
        created_at,
        completed_at,
        stored_cost_bits: record.cost_bits,
        source,
    };
    let total = event.tokens.total();
    Some(ParsedMessage { record: message, event: if total > 0 { Some(event) } else { None } })
}

} // verus!

//! Loading stored message records, from a SQLite database or from exported
//! JSON, into messages, time-ordered usage events and session summaries.

use vstd::prelude::*;

use crate::assemble::{finalize_app_data, in_time_order, sessions_of};
use crate::clock::{instant_of, to_instant};
use crate::queries::{
    event_describes, is_assistant_record, message_describes, parse_json_record, record_model,
    record_tokens, chars_equal,
};
use crate::records::{
    clone_opt, opt_view, AppData, DataSourceKind, ImportStats, JsonMessageRecord, MessageRecord,
    SessionRecord, SessionRow, UsageEvent,
};
use crate::text::chars_of;

verus! {

/// Whether a record becomes a message: all do but assistant records that
/// name no model.
pub open spec fn keeps(r: JsonMessageRecord) -> bool {
    !(is_assistant_record(r) && record_model(r) is None)
}

/// Whether a record becomes a usage event.
pub open spec fn yields_event(r: JsonMessageRecord) -> bool {
    keeps(r) && is_assistant_record(r) && record_tokens(r).spec_total() > 0
}

/// `idx` lists, in increasing order, exactly the positions below `n` that
/// satisfy `pred`.
pub open spec fn selects(idx: Seq<int>, n: int, pred: spec_fn(int) -> bool) -> bool {
    &&& forall|k: int| 0 <= k < idx.len() ==> 0 <= #[trigger] idx[k] < n && pred(idx[k])
    &&& forall|k: int, l: int| #![trigger idx[k], idx[l]] 0 <= k < l < idx.len() ==> idx[k] < idx[l]
    &&& forall|i: int| 0 <= i < n && #[trigger] pred(i) ==> idx.contains(i)
}

proof fn lemma_selects_step(idx: Seq<int>, n: int, pred: spec_fn(int) -> bool)
    requires
        selects(idx, n, pred),
        n >= 0,
    ensures
        pred(n) ==> selects(idx.push(n), n + 1, pred),
        !pred(n) ==> selects(idx, n + 1, pred),
{
    if pred(n) {
        let new = idx.push(n);
        assert forall|i: int| 0 <= i < n + 1 && #[trigger] pred(i) implies new.contains(i) by {
            if i == n {
                assert(new[idx.len() as int] == n);
            } else {
                assert(idx.contains(i));
                let k = choose|k: int| 0 <= k < idx.len() && idx[k] == i;
                assert(new[k] == i);
            }
        }
        assert forall|k: int, l: int| #![trigger new[k], new[l]] 0 <= k < l < new.len() implies new[k]
            < new[l] by {
            if l == idx.len() {
                assert(0 <= idx[k] < n);
            } else {
                assert(idx[k] < idx[l]);
            }
        }
    }
}

/// The prefix that marks a session id taken from a working directory.
pub open spec fn session_prefix() -> Seq<char> {
    seq!['s', 'e', 's', '_']
}

/// `s` starts with `ses_`.
pub open spec fn has_session_prefix(s: Seq<char>) -> bool {
    s.len() >= 4 && s.take(4) == session_prefix()
}

fn starts_with_session_prefix(s: &String) -> (r: bool)
    ensures
        r == has_session_prefix(s@),
{
    let cs = chars_of(s.as_str());
    if cs.len() < 4 {
        return false;
    }
    let lit: Vec<char> = vec!['s', 'e', 's', '_'];
    let mut head: Vec<char> = Vec::new();
    let mut i: usize = 0;
    while i < 4
        invariant
            i <= 4,
            cs@.len() >= 4,
            head@ == cs@.take(i as int),
        decreases 4 - i,
    {
        head.push(cs[i]);
        i += 1;
        assert(head@ =~= cs@.take(i as int));
    }
    assert(lit@ =~= session_prefix());
    chars_equal(head.as_slice(), lit.as_slice())
}

/// The session id of an exported record: the directory name of its working
/// directory when that is a session id, else the id of the export.
pub open spec fn export_session_id(name: Option<String>, fallback: Seq<char>) -> Seq<char> {
    match name {
        Some(n) => if has_session_prefix(n@) {
            n@
        } else {
            fallback
        },
        None => fallback,
    }
}

/// `row` is the session row made up for an exported record in session `id`.
pub open spec fn export_row(row: SessionRow, id: Seq<char>) -> bool {
    &&& row.id@ == id
    &&& row.parent_id is None
    &&& row.project_name is None
    &&& row.project_worktree is None
    &&& row.title is None
    &&& row.time_created is None
    &&& row.time_updated is None
    &&& row.time_archived is None
}

/// Number of values that are not records.
pub open spec fn unreadable_count(values: Seq<Option<JsonMessageRecord>>) -> nat
    decreases values.len(),
{
    if values.len() == 0 {
        0
    } else {
        unreadable_count(values.drop_last()) + if values.last() is None {
            1nat
        } else {
            0nat
        }
    }
}

/// Position `i` of an export holds a record that becomes a message.
pub open spec fn export_message_at(values: Seq<Option<JsonMessageRecord>>, i: int) -> bool {
    values[i] matches Some(r) && keeps(r)
}

/// Position `i` of an export holds a record that becomes a usage event.
pub open spec fn export_event_at(values: Seq<Option<JsonMessageRecord>>, i: int) -> bool {
    values[i] matches Some(r) && yields_event(r)
}

/// What loading an export yields before the events are put in order:
/// `msgs` and `evs` come from the records at positions `mi` and `ei`.
pub open spec fn export_parts(
    values: Seq<Option<JsonMessageRecord>>,
    names: Seq<Option<String>>,
    fallback: Seq<char>,
    msgs: Seq<MessageRecord>,
    evs: Seq<UsageEvent>,
    mi: Seq<int>,
    ei: Seq<int>,
    n: int,
) -> bool {
    &&& selects(mi, n, |i: int| export_message_at(values, i))
    &&& selects(ei, n, |i: int| export_event_at(values, i))
    &&& msgs.len() == mi.len()
    &&& evs.len() == ei.len()
    &&& forall|k: int| 0 <= k < msgs.len() ==> #[trigger] export_message_ok(values, names, fallback, msgs, mi, k)
    &&& forall|k: int| 0 <= k < evs.len() ==> #[trigger] export_event_ok(values, names, fallback, evs, ei, k)
}

/// Message `k` is the one made from the record it was loaded from.
pub open spec fn export_message_ok(
    values: Seq<Option<JsonMessageRecord>>,
    names: Seq<Option<String>>,
    fallback: Seq<char>,
    msgs: Seq<MessageRecord>,
    mi: Seq<int>,
    k: int,
) -> bool {
    exists|row: SessionRow|
        export_row(row, export_session_id(names[mi[k]], fallback)) && #[trigger] message_describes(
            msgs[k],
            values[mi[k]]->0,
            row,
            DataSourceKind::Json,
        )
}

/// Event `k` is the one made from the record it was loaded from.
pub open spec fn export_event_ok(
    values: Seq<Option<JsonMessageRecord>>,
    names: Seq<Option<String>>,
    fallback: Seq<char>,
    evs: Seq<UsageEvent>,
    ei: Seq<int>,
    k: int,
) -> bool {
    exists|row: SessionRow|
        export_row(row, export_session_id(names[ei[k]], fallback)) && #[trigger] event_describes(
            evs[k],
            values[ei[k]]->0,
            row,
            DataSourceKind::Json,
        )
}

fn absorb(
    record: JsonMessageRecord,
    row: &SessionRow,
    source: DataSourceKind,
    messages: &mut Vec<MessageRecord>,
    events: &mut Vec<UsageEvent>,
) -> (r: (bool, bool))
    ensures
        r.0 == keeps(record),
        r.1 == yields_event(record),
        r.0 ==> final(messages)@.len() == old(messages)@.len() + 1 && final(messages)@.drop_last()
            == old(messages)@ && message_describes(final(messages)@.last(), record, *row, source),
        !r.0 ==> final(messages)@ == old(messages)@,
        r.1 ==> final(events)@.len() == old(events)@.len() + 1 && final(events)@.drop_last()
            == old(events)@ && event_describes(final(events)@.last(), record, *row, source),
        !r.1 ==> final(events)@ == old(events)@,
{
    let ghost rec = record;
    match parse_json_record(record, row, source) {
        Some(parsed) => {
            let got_event = match parsed.event {
                Some(e) => {
                    events.push(e);
                    assert(events@.drop_last() =~= old(events)@);
                    true
                },
                None => false,
            };
            messages.push(parsed.record);
            assert(messages@.drop_last() =~= old(messages)@);
            (true, got_event)
        },
        None => (false, false),
    }
}


/// The items of `v` in reverse order.
pub fn reversed<T>(v: Vec<T>) -> (r: Vec<T>)
    ensures
        r@.len() == v@.len(),
        forall|k: int| 0 <= k < r@.len() ==> #[trigger] r@[k] == v@[v@.len() - 1 - k],
{
    let ghost orig = v@;
    let mut v = v;
    let mut r: Vec<T> = Vec::new();
    while v.len() > 0
        invariant
            v@.len() + r@.len() == orig.len(),
            v@ == orig.take(v@.len() as int),
            forall|k: int| 0 <= k < r@.len() ==> #[trigger] r@[k] == orig[orig.len() - 1 - k],
        decreases v@.len(),
    {
        let x = v.pop().unwrap();
        r.push(x);
        assert(v@ =~= orig.take(v@.len() as int));
    }
    r
}

/// What loading an export yields: its records as messages, its usage events
/// in time order with a summary per session, and the number of values that
/// were not records.
pub open spec fn export_result(
    values: Seq<Option<JsonMessageRecord>>,
    names: Seq<Option<String>>,
    fallback: Seq<char>,
    r: AppData,
) -> bool {
    &&& exists|evs: Seq<UsageEvent>, mi: Seq<int>, ei: Seq<int>|
        #![trigger export_parts(values, names, fallback, r.messages@, evs, mi, ei, values.len() as int)]
        {
            &&& export_parts(values, names, fallback, r.messages@, evs, mi, ei, values.len() as int)
            &&& in_time_order(evs, r.events@)
            &&& sessions_of(evs, r.sessions@)
        }
    &&& r.session_records@.len() == 0
    &&& r.import_stats.skipped_sqlite_messages == 0
    &&& r.import_stats.skipped_json_records == unreadable_count(values)
    &&& r.source == DataSourceKind::Json
}

/// Loads exported values: `names[i]` is the directory name of the working
/// directory (else project root) of value `i`, and `fallback` the session id
/// used for records whose directory is not named like a session.
pub fn assemble_export(
    values: Vec<Option<JsonMessageRecord>>,
    names: Vec<Option<String>>,
    fallback: String,
) -> (r: AppData)
    requires
        names@.len() == values@.len(),
    ensures
        export_result(values@, names@, fallback@, r),
{
    let ghost vals = values@;
    let n = values.len();
    let mut rev = reversed(values);
    let mut messages: Vec<MessageRecord> = Vec::new();
    let mut events: Vec<UsageEvent> = Vec::new();
    let ghost mut mi: Seq<int> = seq![];
    let ghost mut ei: Seq<int> = seq![];
    let mut skipped: usize = 0;
    let mut i: usize = 0;
    while i < n
        invariant
            i <= n,
            n == vals.len(),
            names@.len() == n,
            rev@.len() == n - i,
            forall|k: int| 0 <= k < rev@.len() ==> #[trigger] rev@[k] == vals[n - 1 - k],
            export_parts(vals, names@, fallback@, messages@, events@, mi, ei, i as int),
            skipped == unreadable_count(vals.take(i as int)),
            skipped <= i,
        decreases n - i,
    {
        let v = rev.pop().unwrap();
        assert(v == vals[i as int]);
        assert(vals.take(i + 1).drop_last() =~= vals.take(i as int));
        let ghost old_m = messages@;
        let ghost old_e = events@;
        match v {
            None => {
                skipped += 1;
                proof {
                    assert(!export_message_at(vals, i as int));
                    assert(!export_event_at(vals, i as int));
                    lemma_selects_step(mi, i as int, |j: int| export_message_at(vals, j));
                    lemma_selects_step(ei, i as int, |j: int| export_event_at(vals, j));
                    assert(selects(mi, i + 1, |j: int| export_message_at(vals, j)));
                    assert(selects(ei, i + 1, |j: int| export_event_at(vals, j)));
                }
            },
            Some(record) => {
                let id = match &names[i] {
                    Some(name) => if starts_with_session_prefix(name) {
                        name.clone()
                    } else {
                        fallback.clone()
                    },
                    None => fallback.clone(),
                };
                let row = SessionRow {
                    id,
                    parent_id: None,
                    project_name: None,
                    project_worktree: None,
                    title: None,
                    time_created: None,
                    time_updated: None,
                    time_archived: None,
                };
                assert(export_row(row, export_session_id(names@[i as int], fallback@)));
                let (kept, counted) = absorb(
                    record,
                    &row,
                    DataSourceKind::Json,
                    &mut messages,
                    &mut events,
                );
                proof {
                    lemma_selects_step(mi, i as int, |j: int| export_message_at(vals, j));
                    lemma_selects_step(ei, i as int, |j: int| export_event_at(vals, j));
                    let nmi = if kept { mi.push(i as int) } else { mi };
                    let nei = if counted { ei.push(i as int) } else { ei };
                    assert forall|k: int| 0 <= k < messages@.len() implies #[trigger] export_message_ok(
                        vals,
                        names@,
                        fallback@,
                        messages@,
                        nmi,
                        k,
                    ) by {
                        if k < old_m.len() {
                            assert(export_message_ok(vals, names@, fallback@, old_m, mi, k));
                            assert(messages@[k] == old_m[k]);
                            assert(nmi[k] == mi[k]);
                        } else {
                            assert(message_describes(
                                messages@[k],
                                vals[nmi[k]]->0,
                                row,
                                DataSourceKind::Json,
                            ));
                        }
                    }
                    assert forall|k: int| 0 <= k < events@.len() implies #[trigger] export_event_ok(
                        vals,
                        names@,
                        fallback@,
                        events@,
                        nei,
                        k,
                    ) by {
                        if k < old_e.len() {
                            assert(export_event_ok(vals, names@, fallback@, old_e, ei, k));
                            assert(events@[k] == old_e[k]);
                            assert(nei[k] == ei[k]);
                        } else {
                            assert(event_describes(
                                events@[k],
                                vals[nei[k]]->0,
                                row,
                                DataSourceKind::Json,
                            ));
                        }
                    }
                    assert(kept == export_message_at(vals, i as int));
                    assert(counted == export_event_at(vals, i as int));
                    assert(selects(nmi, i + 1, |j: int| export_message_at(vals, j)));
                    assert(selects(nei, i + 1, |j: int| export_event_at(vals, j)));
                    mi = nmi;
                    ei = nei;
                }
            },
        }
        assert(messages@.len() == mi.len());
        assert(events@.len() == ei.len());
        assert(selects(mi, i + 1, |j: int| export_message_at(vals, j)));
        i += 1;
    }
    assert(vals.take(n as int) =~= vals);
    let stats = ImportStats { skipped_sqlite_messages: 0, skipped_json_records: skipped };
    let r = finalize_app_data(events, messages, Vec::new(), stats, DataSourceKind::Json);
    assert(export_parts(vals, names@, fallback@, r.messages@, events@, mi, ei, n as int));
    r
}


/// The part of a path after its last `/`.
pub open spec fn last_segment(s: Seq<char>) -> Seq<char>
    decreases s.len(),
{
    if s.len() == 0 {
        s
    } else if s.last() == '/' {
        seq![]
    } else {
        last_segment(s.drop_last()).push(s.last())
    }
}

/// A file name that every platform reads as a normal path component: not
/// empty, not `.` or `..`, and without `:`.
pub open spec fn normal_name(seg: Seq<char>) -> bool {
    &&& seg.len() > 0
    &&& seg != seq!['.']
    &&& seg != seq!['.', '.']
    &&& forall|i: int| 0 <= i < seg.len() ==> #[trigger] seg[i] != ':'
}

/// A path that every platform splits at `/` alike: no `\`, not starting with
/// two slashes, and ending in a normal file name.
pub open spec fn splittable_path(s: Seq<char>) -> bool {
    &&& forall|i: int| 0 <= i < s.len() ==> #[trigger] s[i] != '\\'
    &&& !(s.len() >= 2 && s[0] == '/' && s[1] == '/')
    &&& normal_name(last_segment(s))
}

/// The position of the last `.` of `s`, or -1.
pub open spec fn last_dot(s: Seq<char>) -> int
    decreases s.len(),
{
    if s.len() == 0 {
        -1
    } else if s.last() == '.' {
        s.len() - 1
    } else {
        last_dot(s.drop_last())
    }
}

/// The stem of a file name: the part before its last `.`, or the whole name
/// when it has no `.` after its first character.
pub open spec fn stem_of(name: Seq<char>) -> Seq<char> {
    if last_dot(name) > 0 {
        name.take(last_dot(name))
    } else {
        name
    }
}

/// The extension of a file name: the part after its last `.`, none when it
/// has no `.` after its first character.
pub open spec fn extension_of(name: Seq<char>) -> Option<Seq<char>> {
    if last_dot(name) > 0 {
        Some(name.skip(last_dot(name) + 1))
    } else {
        None
    }
}

/// Calls `Path::file_name` and keeps the name when it is valid UTF-8. Path
/// syntax differs between platforms; what is stated holds on all of them:
/// an empty path has no name, and a path that every platform splits at `/`
/// alike has its last segment as its name.
#[verifier::external_body]
fn path_file_name(path: &str) -> (r: Option<String>)
    ensures
        path@.len() == 0 ==> r is None,
        splittable_path(path@) ==> opt_view(r) == Some(last_segment(path@)),
{
    std::path::Path::new(path).file_name().and_then(|n| n.to_str()).map(|n| n.to_owned())
}

/// Calls `Path::file_stem` and keeps the stem when it is valid UTF-8. What
/// is stated holds on every platform: an empty path has no stem, and a path
/// that every platform splits at `/` alike has the stem of its last segment.
#[verifier::external_body]
fn path_file_stem(path: &str) -> (r: Option<String>)
    ensures
        path@.len() == 0 ==> r is None,
        splittable_path(path@) ==> opt_view(r) == Some(stem_of(last_segment(path@))),
{
    std::path::Path::new(path).file_stem().and_then(|n| n.to_str()).map(|n| n.to_owned())
}

/// The session id of an export read from `path` when no record names its
/// own: the file stem of `path`, else `json`.
pub open spec fn stem_fallback(path: Seq<char>, fallback: Seq<char>) -> bool {
    &&& path.len() == 0 ==> fallback == "json"@
    &&& splittable_path(path) ==> fallback == stem_of(last_segment(path))
}

/// `name` is the directory name found for an exported value: none without a
/// directory, and the last segment of a directory path that every platform
/// splits at `/` alike.
pub open spec fn directory_named(v: Option<JsonMessageRecord>, name: Option<String>) -> bool {
    match value_directory(v) {
        Some(d) => splittable_path(d@) ==> opt_view(name) == Some(last_segment(d@)),
        None => name is None,
    }
}

/// The working directory of an exported value, else its project root.
pub open spec fn value_directory(v: Option<JsonMessageRecord>) -> Option<String> {
    match v {
        Some(r) => match r.path {
            Some(p) => match p.cwd {
                Some(c) => Some(c),
                None => p.root,
            },
            None => None,
        },
        None => None,
    }
}

fn directory_name(v: &Option<JsonMessageRecord>) -> (r: Option<String>)
    ensures
        directory_named(*v, r),
{
    match v {
        Some(rec) => match &rec.path {
            Some(p) => match &p.cwd {
                Some(c) => path_file_name(c.as_str()),
                None => match &p.root {
                    Some(root) => path_file_name(root.as_str()),
                    None => None,
                },
            },
            None => None,
        },
        None => None,
    }
}

/// Loads the values of an export read from `source_path`. A record's session
/// is the name of its working directory (else project root) when that starts
/// with `ses_`, else the file stem of `source_path`, else `json`. Which names
/// the platform's path functions give is stated for paths that every
/// platform splits at `/` alike.
pub fn load_from_json_values(values: Vec<Option<JsonMessageRecord>>, source_path: &str) -> (r:
    AppData)
    ensures
        exists|names: Seq<Option<String>>, fallback: Seq<char>|
            #![trigger export_result(values@, names, fallback, r)]
            {
                &&& names.len() == values@.len()
                &&& forall|i: int|
                    0 <= i < names.len() ==> #[trigger] directory_named(values@[i], names[i])
                &&& stem_fallback(source_path@, fallback)
                &&& export_result(values@, names, fallback, r)
            },
{
    let fallback = match path_file_stem(source_path) {
        Some(stem) => stem,
        None => "json".to_owned(),
    };
    assert(stem_fallback(source_path@, fallback@));
    let n = values.len();
    let mut names: Vec<Option<String>> = Vec::new();
    let mut i: usize = 0;
    while i < n
        invariant
            i <= n,
            n == values@.len(),
            names@.len() == i,
            forall|k: int| 0 <= k < i ==> #[trigger] directory_named(values@[k], names@[k]),
        decreases n - i,
    {
        names.push(directory_name(&values[i]));
        i += 1;
    }
    let ghost vals = values@;
    let ghost nm = names@;
    let ghost fb = fallback@;
    let r = assemble_export(values, names, fallback);
    assert(export_result(vals, nm, fb, r));
    r
}

/// A session as stored in the database; times are milliseconds since the
/// Unix epoch.
#[derive(Debug)]
pub struct StoredSessionRow {
    pub id: String,
    pub parent_id: Option<String>,
    pub project_name: Option<String>,
    pub project_worktree: Option<String>,
    pub title: Option<String>,
    pub time_created: Option<i64>,
    pub time_updated: Option<i64>,
    pub time_archived: Option<i64>,
}

/// A stored message: its session id, and its data when that was text that
/// reads as a message record.
#[derive(Debug)]
pub struct StoredMessageRow {
    pub session_id: String,
    pub record: Option<JsonMessageRecord>,
}

/// `row` is `raw` with its times read as instants.
pub open spec fn converts(raw: StoredSessionRow, row: SessionRow) -> bool {
    &&& row.id@ == raw.id@
    &&& opt_view(row.parent_id) == opt_view(raw.parent_id)
    &&& opt_view(row.project_name) == opt_view(raw.project_name)
    &&& opt_view(row.project_worktree) == opt_view(raw.project_worktree)
    &&& opt_view(row.title) == opt_view(raw.title)
    &&& row.time_created == instant_of(raw.time_created)
    &&& row.time_updated == instant_of(raw.time_updated)
    &&& row.time_archived == instant_of(raw.time_archived)
}

/// The position of the last session with id `id`, or -1.
pub open spec fn last_match(rows: Seq<StoredSessionRow>, id: Seq<char>) -> int
    decreases rows.len(),
{
    if rows.len() == 0 {
        -1
    } else if rows.last().id@ == id {
        rows.len() - 1
    } else {
        last_match(rows.drop_last(), id)
    }
}

/// Stored message `i` is skipped: its session is unknown or its data is not
/// a message record.
pub open spec fn stored_skipped(rows: Seq<StoredSessionRow>, msgs: Seq<StoredMessageRow>, i: int) -> bool {
    last_match(rows, msgs[i].session_id@) < 0 || msgs[i].record is None
}

/// Number of skipped stored messages among the first `n`.
pub open spec fn skipped_count(rows: Seq<StoredSessionRow>, msgs: Seq<StoredMessageRow>, n: int) -> nat
    decreases n,
{
    if n <= 0 {
        0
    } else {
        skipped_count(rows, msgs, n - 1) + if stored_skipped(rows, msgs, n - 1) {
            1nat
        } else {
            0nat
        }
    }
}

/// Stored message `i` becomes a message.
pub open spec fn stored_message_at(rows: Seq<StoredSessionRow>, msgs: Seq<StoredMessageRow>, i: int) -> bool {
    !stored_skipped(rows, msgs, i) && keeps(msgs[i].record->0)
}

/// Stored message `i` becomes a usage event.
pub open spec fn stored_event_at(rows: Seq<StoredSessionRow>, msgs: Seq<StoredMessageRow>, i: int) -> bool {
    !stored_skipped(rows, msgs, i) && yields_event(msgs[i].record->0)
}

/// Message `k` is the one made from stored message `mi[k]` and its session.
pub open spec fn stored_message_ok(
    rows: Seq<StoredSessionRow>,
    msgs: Seq<StoredMessageRow>,
    out: Seq<MessageRecord>,
    mi: Seq<int>,
    k: int,
) -> bool {
    exists|row: SessionRow|
        converts(rows[last_match(rows, msgs[mi[k]].session_id@)], row) && #[trigger]
        message_describes(out[k], msgs[mi[k]].record->0, row, DataSourceKind::Sqlite)
}

/// Event `k` is the one made from stored message `ei[k]` and its session.
pub open spec fn stored_event_ok(
    rows: Seq<StoredSessionRow>,
    msgs: Seq<StoredMessageRow>,
    evs: Seq<UsageEvent>,
    ei: Seq<int>,
    k: int,
) -> bool {
    exists|row: SessionRow|
        converts(rows[last_match(rows, msgs[ei[k]].session_id@)], row) && #[trigger]
        event_describes(evs[k], msgs[ei[k]].record->0, row, DataSourceKind::Sqlite)
}

/// Session `i` has both a creation and an update instant.
pub open spec fn has_both_times(rows: Seq<StoredSessionRow>, i: int) -> bool {
    instant_of(rows[i].time_created) is Some && instant_of(rows[i].time_updated) is Some
}

/// Record `k` is made from session `si[k]`.
pub open spec fn session_record_ok(
    rows: Seq<StoredSessionRow>,
    recs: Seq<SessionRecord>,
    si: Seq<int>,
    k: int,
) -> bool {
    &&& recs[k].session_id@ == rows[si[k]].id@
    &&& Some(recs[k].created_at) == instant_of(rows[si[k]].time_created)
    &&& Some(recs[k].updated_at) == instant_of(rows[si[k]].time_updated)
}

/// What loading stored sessions and messages yields before the events are
/// put in order.
pub open spec fn stored_parts(
    rows: Seq<StoredSessionRow>,
    msgs: Seq<StoredMessageRow>,
    out: Seq<MessageRecord>,
    evs: Seq<UsageEvent>,
    mi: Seq<int>,
    ei: Seq<int>,
    n: int,
) -> bool {
    &&& selects(mi, n, |i: int| stored_message_at(rows, msgs, i))
    &&& selects(ei, n, |i: int| stored_event_at(rows, msgs, i))
    &&& out.len() == mi.len()
    &&& evs.len() == ei.len()
    &&& forall|k: int| 0 <= k < out.len() ==> #[trigger] stored_message_ok(rows, msgs, out, mi, k)
    &&& forall|k: int| 0 <= k < evs.len() ==> #[trigger] stored_event_ok(rows, msgs, evs, ei, k)
}


/// `recs` holds a record for each session with both times, in order; `si`
/// says which.
pub open spec fn session_record_parts(
    rows: Seq<StoredSessionRow>,
    recs: Seq<SessionRecord>,
    si: Seq<int>,
) -> bool {
    &&& selects(si, rows.len() as int, |i: int| has_both_times(rows, i))
    &&& recs.len() == si.len()
    &&& forall|k: int| 0 <= k < si.len() ==> #[trigger] session_record_ok(rows, recs, si, k)
}

/// What loading stored sessions and messages yields: the messages, the usage
/// events in time order with a summary per session, a record per session that
/// has both times, and the number of stored messages skipped.
pub open spec fn stored_result(
    rows: Seq<StoredSessionRow>,
    msgs: Seq<StoredMessageRow>,
    r: AppData,
) -> bool {
    &&& exists|evs: Seq<UsageEvent>, mi: Seq<int>, ei: Seq<int>|
        #![trigger stored_parts(rows, msgs, r.messages@, evs, mi, ei, msgs.len() as int)]
        {
            &&& stored_parts(rows, msgs, r.messages@, evs, mi, ei, msgs.len() as int)
            &&& in_time_order(evs, r.events@)
            &&& sessions_of(evs, r.sessions@)
        }
    &&& exists|si: Seq<int>| #[trigger] session_record_parts(rows, r.session_records@, si)
    &&& r.import_stats.skipped_sqlite_messages == skipped_count(rows, msgs, msgs.len() as int)
    &&& r.import_stats.skipped_json_records == 0
    &&& r.source == DataSourceKind::Sqlite
}

fn convert_row(raw: &StoredSessionRow) -> (row: SessionRow)
    ensures
        converts(*raw, row),
{
    SessionRow {
        id: raw.id.clone(),
        parent_id: clone_opt(&raw.parent_id),
        project_name: clone_opt(&raw.project_name),
        project_worktree: clone_opt(&raw.project_worktree),
        title: clone_opt(&raw.title),
        time_created: to_instant(raw.time_created),
        time_updated: to_instant(raw.time_updated),
        time_archived: to_instant(raw.time_archived),
    }
}

fn find_session(rows: &Vec<StoredSessionRow>, ids: &Vec<Vec<char>>, target: &[char]) -> (r:
    Option<usize>)
    requires
        ids@.len() == rows@.len(),
        forall|j: int| 0 <= j < rows@.len() ==> #[trigger] ids@[j]@ == rows@[j].id@,
    ensures
        match r {
            Some(j) => j == last_match(rows@, target@) && j < rows@.len(),
            None => last_match(rows@, target@) < 0,
        },
{
    let mut j: usize = rows.len();
    assert(rows@.take(j as int) =~= rows@);
    while j > 0
        invariant
            j <= rows@.len(),
            ids@.len() == rows@.len(),
            forall|x: int| 0 <= x < rows@.len() ==> #[trigger] ids@[x]@ == rows@[x].id@,
            last_match(rows@, target@) == last_match(rows@.take(j as int), target@),
        decreases j,
    {
        j -= 1;
        assert(rows@.take(j + 1).drop_last() =~= rows@.take(j as int));
        assert(rows@.take(j + 1).last() == rows@[j as int]);
        assert(ids@[j as int]@ == rows@[j as int].id@);
        if chars_equal(ids[j].as_slice(), target) {
            return Some(j);
        }
    }
    None
}

proof fn lemma_last_match_bound(rows: Seq<StoredSessionRow>, id: Seq<char>)
    ensures
        -1 <= last_match(rows, id) < rows.len(),
        last_match(rows, id) >= 0 ==> rows[last_match(rows, id)].id@ == id,
    decreases rows.len(),
{
    if rows.len() > 0 && rows.last().id@ != id {
        lemma_last_match_bound(rows.drop_last(), id);
    }
}

/// Loads stored sessions (newest first, as queried) and stored messages
/// (by session, then creation time). A message whose session is unknown, or
/// whose data is not a message record, is counted as skipped.
pub fn load_from_sqlite(sessions: Vec<StoredSessionRow>, messages: Vec<StoredMessageRow>) -> (r:
    AppData)
    ensures
        stored_result(sessions@, messages@, r),
{
    let ghost rows = sessions@;
    let ghost msgs = messages@;
    let nrows = sessions.len();
    let mut conv: Vec<SessionRow> = Vec::new();
    let mut ids: Vec<Vec<char>> = Vec::new();
    let mut j: usize = 0;
    while j < nrows
        invariant
            j <= nrows,
            nrows == rows.len(),
            sessions@ == rows,
            conv@.len() == j,
            ids@.len() == j,
            forall|x: int| 0 <= x < j ==> converts(rows[x], #[trigger] conv@[x]),
            forall|x: int| 0 <= x < j ==> #[trigger] ids@[x]@ == rows[x].id@,
        decreases nrows - j,
    {
        conv.push(convert_row(&sessions[j]));
        ids.push(chars_of(sessions[j].id.as_str()));
        j += 1;
    }
    let n = messages.len();
    let mut rev = reversed(messages);
    let mut out: Vec<MessageRecord> = Vec::new();
    let mut events: Vec<UsageEvent> = Vec::new();
    let ghost mut mi: Seq<int> = seq![];
    let ghost mut ei: Seq<int> = seq![];
    let mut skipped: usize = 0;
    let mut i: usize = 0;
    while i < n
        invariant
            i <= n,
            n == msgs.len(),
            nrows == rows.len(),
            sessions@ == rows,
            conv@.len() == nrows,
            ids@.len() == nrows,
            forall|x: int| 0 <= x < nrows ==> converts(rows[x], #[trigger] conv@[x]),
            forall|x: int| 0 <= x < nrows ==> #[trigger] ids@[x]@ == rows[x].id@,
            rev@.len() == n - i,
            forall|k: int| 0 <= k < rev@.len() ==> #[trigger] rev@[k] == msgs[n - 1 - k],
            stored_parts(rows, msgs, out@, events@, mi, ei, i as int),
            skipped == skipped_count(rows, msgs, i as int),
            skipped <= i,
        decreases n - i,
    {
        let m = rev.pop().unwrap();
        assert(m == msgs[i as int]);
        let ghost old_m = out@;
        let ghost old_e = events@;
        let target = chars_of(m.session_id.as_str());
        let found = find_session(&sessions, &ids, target.as_slice());
        proof {
            lemma_last_match_bound(rows, msgs[i as int].session_id@);
        }
        match (found, m.record) {
            (Some(sj), Some(record)) => {
                let (kept, counted) = absorb(
                    record,
                    &conv[sj],
                    DataSourceKind::Sqlite,
                    &mut out,
                    &mut events,
                );
                proof {
                    let row = conv@[sj as int];
                    lemma_selects_step(mi, i as int, |x: int| stored_message_at(rows, msgs, x));
                    lemma_selects_step(ei, i as int, |x: int| stored_event_at(rows, msgs, x));
                    let nmi = if kept { mi.push(i as int) } else { mi };
                    let nei = if counted { ei.push(i as int) } else { ei };
                    assert(kept == stored_message_at(rows, msgs, i as int));
                    assert(counted == stored_event_at(rows, msgs, i as int));
                    assert forall|k: int| 0 <= k < out@.len() implies #[trigger] stored_message_ok(
                        rows,
                        msgs,
                        out@,
                        nmi,
                        k,
                    ) by {
                        if k < old_m.len() {
                            assert(stored_message_ok(rows, msgs, old_m, mi, k));
                            assert(out@[k] == old_m[k]);
                            assert(nmi[k] == mi[k]);
                        } else {
                            assert(converts(rows[last_match(rows, msgs[nmi[k]].session_id@)], row));
                            assert(message_describes(
                                out@[k],
                                msgs[nmi[k]].record->0,
                                row,
                                DataSourceKind::Sqlite,
                            ));
                        }
                    }
                    assert forall|k: int| 0 <= k < events@.len() implies #[trigger] stored_event_ok(
                        rows,
                        msgs,
                        events@,
                        nei,
                        k,
                    ) by {
                        if k < old_e.len() {
                            assert(stored_event_ok(rows, msgs, old_e, ei, k));
                            assert(events@[k] == old_e[k]);
                            assert(nei[k] == ei[k]);
                        } else {
                            assert(converts(rows[last_match(rows, msgs[nei[k]].session_id@)], row));
                            assert(event_describes(
                                events@[k],
                                msgs[nei[k]].record->0,
                                row,
                                DataSourceKind::Sqlite,
                            ));
                        }
                    }
                    mi = nmi;
                    ei = nei;
                }
            },
            _ => {
                skipped += 1;
                proof {
                    assert(stored_skipped(rows, msgs, i as int));
                    lemma_selects_step(mi, i as int, |x: int| stored_message_at(rows, msgs, x));
                    lemma_selects_step(ei, i as int, |x: int| stored_event_at(rows, msgs, x));
                }
            },
        }
        i += 1;
    }
    // A record for each session with both times.
    let mut recs: Vec<SessionRecord> = Vec::new();
    let ghost mut si: Seq<int> = seq![];
    let mut j: usize = 0;
    while j < nrows
        invariant
            j <= nrows,
            nrows == rows.len(),
            sessions@ == rows,
            conv@.len() == nrows,
            forall|x: int| 0 <= x < nrows ==> converts(rows[x], #[trigger] conv@[x]),
            selects(si, j as int, |x: int| has_both_times(rows, x)),
            recs@.len() == si.len(),
            forall|k: int| 0 <= k < si.len() ==> #[trigger] session_record_ok(rows, recs@, si, k),
        decreases nrows - j,
    {
        let ghost old_r = recs@;
        proof {
            lemma_selects_step(si, j as int, |x: int| has_both_times(rows, x));
        }
        assert(converts(rows[j as int], conv@[j as int]));
        match (conv[j].time_created, conv[j].time_updated) {
            (Some(c), Some(u)) => {
                recs.push(SessionRecord { session_id: sessions[j].id.clone(), created_at: c, updated_at: u });
                proof {
                    let nsi = si.push(j as int);
                    assert forall|k: int| 0 <= k < nsi.len() implies #[trigger] session_record_ok(
                        rows,
                        recs@,
                        nsi,
                        k,
                    ) by {
                        if k < si.len() {
                            assert(session_record_ok(rows, old_r, si, k));
                            assert(recs@[k] == old_r[k]);
                        }
                    }
                    si = nsi;
                }
            },
            _ => {},
        }
        j += 1;
    }
    let stats = ImportStats { skipped_sqlite_messages: skipped, skipped_json_records: 0 };
    let r = finalize_app_data(events, out, recs, stats, DataSourceKind::Sqlite);
    assert(stored_parts(rows, msgs, r.messages@, events@, mi, ei, n as int));
    assert(session_record_parts(rows, r.session_records@, si));
    r
}

} // verus!

//! Putting loaded events in time order and summarising them per session.

use vstd::prelude::*;

use crate::ordering::{
    instant_less, instant_lt, is_index_permutation, lemma_insert_ordered,
    lemma_insert_permutation, lemma_text_lt_irreflexive, lemma_text_lt_total,
    lemma_text_lt_transitive, ordered_by, text_less, text_lt, transitive,
};
use crate::queries::chars_equal;
use crate::records::{
    clone_opt, AppData, DataSourceKind, ImportStats, MessageRecord, SessionRecord,
    SessionSummary, UsageEvent,
};
use crate::text::{chars_of, string_from_chars};

verus! {

/// The views of a list of character vectors.
pub open spec fn views_of(v: Seq<Vec<char>>) -> Seq<Seq<char>> {
    v.map_values(|c: Vec<char>| c@)
}

/// Event `i` comes before event `j`: created earlier (absent times first), then
/// by session id in code-point order, then by position.
pub open spec fn event_key_before(
    times: Seq<Option<i64>>,
    ids: Seq<Seq<char>>,
    i: usize,
    j: usize,
) -> bool {
    ||| instant_lt(times[i as int], times[j as int])
    ||| times[i as int] == times[j as int] && text_lt(ids[i as int], ids[j as int])
    ||| times[i as int] == times[j as int] && ids[i as int] == ids[j as int] && i < j
}

proof fn lemma_event_key_order(
    times: Seq<Option<i64>>,
    ids: Seq<Seq<char>>,
    a: usize,
    b: usize,
    c: usize,
)
    ensures
        !event_key_before(times, ids, a, a),
        a != b ==> (event_key_before(times, ids, a, b) || event_key_before(times, ids, b, a)),
        event_key_before(times, ids, a, b) && event_key_before(times, ids, b, c)
            ==> event_key_before(times, ids, a, c),
{
    lemma_text_lt_irreflexive(ids[a as int]);
    lemma_text_lt_total(ids[a as int], ids[b as int]);
    lemma_text_lt_total(ids[b as int], ids[c as int]);
    lemma_text_lt_total(ids[a as int], ids[c as int]);
    if text_lt(ids[a as int], ids[b as int]) && text_lt(ids[b as int], ids[c as int]) {
        lemma_text_lt_transitive(ids[a as int], ids[b as int], ids[c as int]);
    }
}

fn event_key_less(times: &Vec<Option<i64>>, ids: &Vec<Vec<char>>, a: usize, b: usize) -> (r: bool)
    requires
        a < times@.len(),
        b < times@.len(),
        times@.len() == ids@.len(),
    ensures
        r == event_key_before(times@, views_of(ids@), a, b),
{
    let ta = times[a];
    let tb = times[b];
    if instant_less(ta, tb) {
        return true;
    }
    if ta != tb {
        return false;
    }
    if text_less(ids[a].as_slice(), ids[b].as_slice()) {
        return true;
    }
    chars_equal(ids[a].as_slice(), ids[b].as_slice()) && a < b
}

/// The order in which events are listed: by creation time, then session, then
/// position.
fn order_events(times: &Vec<Option<i64>>, ids: &Vec<Vec<char>>) -> (p: Vec<usize>)
    requires
        times@.len() == ids@.len(),
    ensures
        is_index_permutation(p@, times@.len()),
        ordered_by(p@, |a: usize, b: usize| event_key_before(times@, views_of(ids@), a, b)),
{
    let ghost before = |a: usize, b: usize| event_key_before(times@, views_of(ids@), a, b);
    proof {
        assert forall|a: usize, b: usize, c: usize| #[trigger]
            before(a, b) && #[trigger] before(b, c) implies before(a, c) by {
            lemma_event_key_order(times@, views_of(ids@), a, b, c);
        }
    }
    let n = times.len();
    let mut order: Vec<usize> = Vec::new();
    let mut i: usize = 0;
    while i < n
        invariant
            i <= n,
            n == times@.len(),
            times@.len() == ids@.len(),
            is_index_permutation(order@, i as nat),
            ordered_by(order@, before),
            transitive(before),
            before == (|a: usize, b: usize| event_key_before(times@, views_of(ids@), a, b)),
        decreases n - i,
    {
        let mut pos: usize = 0;
        while pos < order.len() && event_key_less(times, ids, order[pos], i)
            invariant
                pos <= order@.len(),
                i < n,
                n == times@.len(),
                times@.len() == ids@.len(),
                is_index_permutation(order@, i as nat),
                forall|k: int| 0 <= k < pos ==> before(#[trigger] order@[k], i),
                before == (|a: usize, b: usize| event_key_before(times@, views_of(ids@), a, b)),
            decreases order@.len() - pos,
        {
            pos += 1;
        }
        proof {
            if pos < order@.len() {
                lemma_event_key_order(times@, views_of(ids@), order@[pos as int], i, i);
            }
            lemma_insert_ordered(order@, pos as int, i, before);
            lemma_insert_permutation(order@, pos as int, i);
        }
        order.insert(pos, i);
        i += 1;
    }
    order
}


/// Copies an event.
pub fn clone_event(e: &UsageEvent) -> (r: UsageEvent)
    ensures
        r == *e,
{
    UsageEvent {
        session_id: e.session_id.clone(),
        parent_session_id: clone_opt(&e.parent_session_id),
        session_title: clone_opt(&e.session_title),
        session_started_at: e.session_started_at,
        session_archived_at: e.session_archived_at,
        project_name: clone_opt(&e.project_name),
        project_path: clone_opt(&e.project_path),
        provider_id: clone_opt(&e.provider_id),
        model_id: e.model_id.clone(),
        agent: clone_opt(&e.agent),
        finish_reason: clone_opt(&e.finish_reason),
        tokens: e.tokens,
        created_at: e.created_at,
        completed_at: e.completed_at,
        stored_cost_bits: e.stored_cost_bits,
        source: e.source,
    }
}

/// The creation times of events.
pub open spec fn times_of(s: Seq<UsageEvent>) -> Seq<Option<i64>> {
    s.map_values(|e: UsageEvent| e.created_at)
}

/// The session ids of events.
pub open spec fn ids_of(s: Seq<UsageEvent>) -> Seq<Seq<char>> {
    s.map_values(|e: UsageEvent| e.session_id@)
}

/// `out` holds the events of `input`, each once, ordered by creation time
/// (absent times first), then session id, then their position in `input`.
pub open spec fn in_time_order(input: Seq<UsageEvent>, out: Seq<UsageEvent>) -> bool {
    exists|p: Seq<usize>|
        #![trigger is_index_permutation(p, input.len())]
        {
            &&& is_index_permutation(p, input.len())
            &&& ordered_by(
                p,
                |a: usize, b: usize| event_key_before(times_of(input), ids_of(input), a, b),
            )
            &&& out.len() == p.len()
            &&& forall|k: int| 0 <= k < out.len() ==> #[trigger] out[k] == input[p[k] as int]
        }
}

/// Number of events of session `id`.
pub open spec fn count_in(s: Seq<UsageEvent>, id: Seq<char>) -> nat
    decreases s.len(),
{
    if s.len() == 0 {
        0
    } else {
        count_in(s.drop_last(), id) + if s.last().session_id@ == id {
            1nat
        } else {
            0nat
        }
    }
}

/// Event `j` of `s` belongs to session `id`.
pub open spec fn in_session(s: Seq<UsageEvent>, j: int, id: Seq<char>) -> bool {
    0 <= j < s.len() && s[j].session_id@ == id
}

/// `sum` describes the events of its session in `events`: their number, the
/// earliest creation time (absent first) and the latest.
pub open spec fn summarizes(events: Seq<UsageEvent>, sum: SessionSummary) -> bool {
    let id = sum.session_id@;
    &&& sum.event_count == count_in(events, id)
    &&& exists|j: int| #[trigger] in_session(events, j, id) && events[j].created_at == sum.started_at
    &&& forall|j: int| #[trigger]
        in_session(events, j, id) ==> !instant_lt(events[j].created_at, sum.started_at)
    &&& exists|j: int| #[trigger]
        in_session(events, j, id) && events[j].created_at == sum.last_event_at
    &&& forall|j: int| #[trigger]
        in_session(events, j, id) ==> !instant_lt(sum.last_event_at, events[j].created_at)
}

/// Session `a` is listed before session `b`: started later, then by session id
/// in reverse code-point order.
pub open spec fn session_before(a: SessionSummary, b: SessionSummary) -> bool {
    ||| instant_lt(b.started_at, a.started_at)
    ||| a.started_at == b.started_at && text_lt(b.session_id@, a.session_id@)
}

/// Some summary in `sessions` is for session `id`.
pub open spec fn has_session(sessions: Seq<SessionSummary>, id: Seq<char>) -> bool {
    exists|k: int| 0 <= k < sessions.len() && #[trigger] sessions[k].session_id@ == id
}

/// `sessions` has one summary for each session of `events`, most recently
/// started first.
pub open spec fn sessions_of(events: Seq<UsageEvent>, sessions: Seq<SessionSummary>) -> bool {
    &&& forall|k: int| 0 <= k < sessions.len() ==> summarizes(events, #[trigger] sessions[k])
    &&& forall|j: int| 0 <= j < events.len() ==> has_session(sessions, #[trigger] events[j].session_id@)
    &&& forall|k: int, l: int|
        #![trigger sessions[k], sessions[l]]
        0 <= k < l < sessions.len() ==> session_before(sessions[k], sessions[l])
}

fn summarize(events: &Vec<UsageEvent>, ids: &Vec<Vec<char>>, target: &Vec<char>) -> (r:
    SessionSummary)
    requires
        ids@.len() == events@.len(),
        forall|j: int| 0 <= j < ids@.len() ==> #[trigger] ids@[j]@ == events@[j].session_id@,
        exists|j: int| #[trigger] in_session(events@, j, target@),
    ensures
        summarizes(events@, r),
        r.session_id@ == target@,
{
    let n = events.len();
    let mut count: usize = 0;
    let mut first: Option<i64> = None;
    let mut last: Option<i64> = None;
    let mut found = false;
    let ghost mut wf: int = 0;
    let ghost mut wl: int = 0;
    let mut j: usize = 0;
    while j < n
        invariant
            j <= n,
            n == events@.len(),
            ids@.len() == events@.len(),
            forall|x: int| 0 <= x < ids@.len() ==> #[trigger] ids@[x]@ == events@[x].session_id@,
            count == count_in(events@.take(j as int), target@),
            count <= j,
            found <==> exists|x: int| 0 <= x < j && #[trigger] in_session(events@, x, target@),
            found ==> 0 <= wf < j && in_session(events@, wf, target@) && events@[wf].created_at
                == first,
            found ==> 0 <= wl < j && in_session(events@, wl, target@) && events@[wl].created_at
                == last,
            forall|x: int|
                0 <= x < j && #[trigger] in_session(events@, x, target@) ==> !instant_lt(
                    events@[x].created_at,
                    first,
                ) && !instant_lt(last, events@[x].created_at),
        decreases n - j,
    {
        assert(events@.take(j + 1).drop_last() =~= events@.take(j as int));
        assert(ids@[j as int]@ == events@[j as int].session_id@);
        if chars_equal(ids[j].as_slice(), target.as_slice()) {
            let t = events[j].created_at;
            if !found || instant_less(t, first) {
                first = t;
                proof {
                    wf = j as int;
                }
            }
            if !found || instant_less(last, t) {
                last = t;
                proof {
                    wl = j as int;
                }
            }
            found = true;
            count += 1;
            assert(in_session(events@, j as int, target@));
        } else {
            assert(ids@[j as int]@ == events@[j as int].session_id@);
            assert(!in_session(events@, j as int, target@));
        }
        j += 1;
    }
    assert(events@.take(n as int) =~= events@);
    SessionSummary {
        session_id: string_from_chars(target.as_slice()),
        started_at: first,
        last_event_at: last,
        event_count: count,
    }
}

/// Session `a` is listed before session `b` by their start times and ids.
pub open spec fn session_key_before(
    starts: Seq<Option<i64>>,
    ids: Seq<Seq<char>>,
    a: usize,
    b: usize,
) -> bool {
    ||| instant_lt(starts[b as int], starts[a as int])
    ||| starts[a as int] == starts[b as int] && text_lt(ids[b as int], ids[a as int])
}

proof fn lemma_session_key_order(
    starts: Seq<Option<i64>>,
    ids: Seq<Seq<char>>,
    a: usize,
    b: usize,
    c: usize,
)
    ensures
        !session_key_before(starts, ids, a, a),
        ids[a as int] != ids[b as int] ==> (session_key_before(starts, ids, a, b)
            || session_key_before(starts, ids, b, a)),
        session_key_before(starts, ids, a, b) && session_key_before(starts, ids, b, c)
            ==> session_key_before(starts, ids, a, c),
{
    lemma_text_lt_irreflexive(ids[a as int]);
    lemma_text_lt_total(ids[a as int], ids[b as int]);
    if text_lt(ids[c as int], ids[b as int]) && text_lt(ids[b as int], ids[a as int]) {
        lemma_text_lt_transitive(ids[c as int], ids[b as int], ids[a as int]);
    }
}

fn session_key_less(starts: &Vec<Option<i64>>, ids: &Vec<Vec<char>>, a: usize, b: usize) -> (r:
    bool)
    requires
        a < starts@.len(),
        b < starts@.len(),
        starts@.len() == ids@.len(),
    ensures
        r == session_key_before(starts@, views_of(ids@), a, b),
{
    let sa = starts[a];
    let sb = starts[b];
    instant_less(sb, sa) || (sa == sb && text_less(ids[b].as_slice(), ids[a].as_slice()))
}

fn order_sessions(starts: &Vec<Option<i64>>, ids: &Vec<Vec<char>>) -> (p: Vec<usize>)
    requires
        starts@.len() == ids@.len(),
        forall|a: int, b: int| 0 <= a < b < ids@.len() ==> ids@[a]@ != ids@[b]@,
    ensures
        is_index_permutation(p@, starts@.len()),
        ordered_by(p@, |a: usize, b: usize| session_key_before(starts@, views_of(ids@), a, b)),
{
    let ghost before = |a: usize, b: usize| session_key_before(starts@, views_of(ids@), a, b);
    proof {
        assert forall|a: usize, b: usize, c: usize| #[trigger]
            before(a, b) && #[trigger] before(b, c) implies before(a, c) by {
            lemma_session_key_order(starts@, views_of(ids@), a, b, c);
        }
    }
    let n = starts.len();
    let mut order: Vec<usize> = Vec::new();
    let mut i: usize = 0;
    while i < n
        invariant
            i <= n,
            n == starts@.len(),
            starts@.len() == ids@.len(),
            forall|a: int, b: int| 0 <= a < b < ids@.len() ==> ids@[a]@ != ids@[b]@,
            is_index_permutation(order@, i as nat),
            ordered_by(order@, before),
            transitive(before),
            before == (|a: usize, b: usize| session_key_before(starts@, views_of(ids@), a, b)),
        decreases n - i,
    {
        let mut pos: usize = 0;
        while pos < order.len() && session_key_less(starts, ids, order[pos], i)
            invariant
                pos <= order@.len(),
                i < n,
                n == starts@.len(),
                starts@.len() == ids@.len(),
                is_index_permutation(order@, i as nat),
                forall|k: int| 0 <= k < pos ==> before(#[trigger] order@[k], i),
                before == (|a: usize, b: usize| session_key_before(starts@, views_of(ids@), a, b)),
            decreases order@.len() - pos,
        {
            pos += 1;
        }
        proof {
            if pos < order@.len() {
                let o = order@[pos as int];
                assert(views_of(ids@)[o as int] != views_of(ids@)[i as int]);
                lemma_session_key_order(starts@, views_of(ids@), o, i, i);
            }
            lemma_insert_ordered(order@, pos as int, i, before);
            lemma_insert_permutation(order@, pos as int, i);
        }
        order.insert(pos, i);
        i += 1;
    }
    order
}


fn clone_summary(s: &SessionSummary) -> (r: SessionSummary)
    ensures
        r == *s,
{
    SessionSummary {
        session_id: s.session_id.clone(),
        started_at: s.started_at,
        last_event_at: s.last_event_at,
        event_count: s.event_count,
    }
}

fn event_keys(events: &Vec<UsageEvent>) -> (r: (Vec<Option<i64>>, Vec<Vec<char>>))
    ensures
        r.0@ == times_of(events@),
        views_of(r.1@) == ids_of(events@),
        r.1@.len() == events@.len(),
        forall|x: int| 0 <= x < events@.len() ==> #[trigger] r.1@[x]@ == events@[x].session_id@,
{
    let n = events.len();
    let mut times: Vec<Option<i64>> = Vec::new();
    let mut ids: Vec<Vec<char>> = Vec::new();
    let mut j: usize = 0;
    while j < n
        invariant
            j <= n,
            n == events@.len(),
            times@.len() == j,
            ids@.len() == j,
            forall|x: int| 0 <= x < j ==> #[trigger] times@[x] == events@[x].created_at,
            forall|x: int| 0 <= x < j ==> #[trigger] ids@[x]@ == events@[x].session_id@,
        decreases n - j,
    {
        times.push(events[j].created_at);
        ids.push(chars_of(events[j].session_id.as_str()));
        j += 1;
    }
    assert(times@ =~= times_of(events@));
    assert(views_of(ids@) =~= ids_of(events@));
    (times, ids)
}

fn events_in_order(events: &Vec<UsageEvent>, order: &Vec<usize>) -> (out: Vec<UsageEvent>)
    requires
        is_index_permutation(order@, events@.len()),
    ensures
        out@.len() == order@.len(),
        forall|x: int| 0 <= x < out@.len() ==> #[trigger] out@[x] == events@[order@[x] as int],
{
    let n = order.len();
    let mut out: Vec<UsageEvent> = Vec::new();
    let mut k: usize = 0;
    while k < n
        invariant
            k <= n,
            n == order@.len(),
            is_index_permutation(order@, events@.len()),
            out@.len() == k,
            forall|x: int| 0 <= x < k ==> #[trigger] out@[x] == events@[order@[x] as int],
        decreases n - k,
    {
        out.push(clone_event(&events[order[k]]));
        k += 1;
    }
    out
}

/// Some representative has the same session id as entry `x`.
pub open spec fn represented(ids: Seq<Vec<char>>, reps: Seq<usize>, x: int) -> bool {
    exists|a: int| 0 <= a < reps.len() && #[trigger] ids[reps[a] as int]@ == ids[x]@
}

/// Indices of one event per distinct session id.
fn session_representatives(ids: &Vec<Vec<char>>) -> (reps: Vec<usize>)
    ensures
        forall|a: int| 0 <= a < reps@.len() ==> #[trigger] reps@[a] < ids@.len(),
        forall|a: int, b: int|
            0 <= a < b < reps@.len() ==> ids@[reps@[a] as int]@ != ids@[reps@[b] as int]@,
        forall|x: int| 0 <= x < ids@.len() ==> #[trigger] represented(ids@, reps@, x),
{
    let n = ids.len();
    let mut reps: Vec<usize> = Vec::new();
    let mut j: usize = 0;
    while j < n
        invariant
            j <= n,
            ids@.len() == n,
            forall|a: int| 0 <= a < reps@.len() ==> #[trigger] reps@[a] < j,
            forall|a: int, b: int|
                0 <= a < b < reps@.len() ==> ids@[reps@[a] as int]@ != ids@[reps@[b] as int]@,
            forall|x: int| 0 <= x < j ==> #[trigger] represented(ids@, reps@, x),
        decreases n - j,
    {
        let mut a: usize = 0;
        let mut seen = false;
        while a < reps.len()
            invariant
                a <= reps@.len(),
                j < n,
                ids@.len() == n,
                forall|b: int| 0 <= b < reps@.len() ==> #[trigger] reps@[b] < j,
                seen ==> exists|b: int|
                    0 <= b < reps@.len() && #[trigger] ids@[reps@[b] as int]@ == ids@[j as int]@,
                !seen ==> forall|b: int|
                    0 <= b < a ==> #[trigger] ids@[reps@[b] as int]@ != ids@[j as int]@,
            decreases reps@.len() - a,
        {
            if chars_equal(ids[reps[a]].as_slice(), ids[j].as_slice()) {
                seen = true;
            }
            a += 1;
        }
        let ghost old_reps = reps@;
        if !seen {
            reps.push(j);
            assert(ids@[reps@[reps@.len() - 1] as int]@ == ids@[j as int]@);
        }
        assert forall|x: int| 0 <= x < j + 1 implies #[trigger] represented(ids@, reps@, x) by {
            if x == j {
                if !seen {
                    assert(ids@[reps@[reps@.len() - 1] as int]@ == ids@[j as int]@);
                }
            } else {
                assert(represented(ids@, old_reps, x));
                let a = choose|a: int|
                    0 <= a < old_reps.len() && #[trigger] ids@[old_reps[a] as int]@ == ids@[x]@;
                assert(reps@[a] == old_reps[a]);
            }
        }
        j += 1;
    }
    assert(j == n);
    reps
}

/// What is known of each summary built for a representative.
pub open spec fn summary_facts(
    events: Seq<UsageEvent>,
    ids: Seq<Vec<char>>,
    reps: Seq<usize>,
    starts: Seq<Option<i64>>,
    sids: Seq<Vec<char>>,
    sums: Seq<SessionSummary>,
    a: int,
) -> bool {
    &&& summarizes(events, sums[a])
    &&& starts[a] == sums[a].started_at
    &&& sids[a]@ == sums[a].session_id@
    &&& sids[a]@ == ids[reps[a] as int]@
}

fn build_summaries(events: &Vec<UsageEvent>, ids: &Vec<Vec<char>>, reps: &Vec<usize>) -> (r: (
    Vec<Option<i64>>,
    Vec<Vec<char>>,
    Vec<SessionSummary>,
))
    requires
        ids@.len() == events@.len(),
        forall|x: int| 0 <= x < events@.len() ==> #[trigger] ids@[x]@ == events@[x].session_id@,
        forall|a: int| 0 <= a < reps@.len() ==> #[trigger] reps@[a] < events@.len(),
    ensures
        r.0@.len() == reps@.len(),
        r.1@.len() == reps@.len(),
        r.2@.len() == reps@.len(),
        forall|a: int|
            0 <= a < reps@.len() ==> #[trigger] summary_facts(
                events@,
                ids@,
                reps@,
                r.0@,
                r.1@,
                r.2@,
                a,
            ),
{
    let nr = reps.len();
    let mut starts: Vec<Option<i64>> = Vec::new();
    let mut sids: Vec<Vec<char>> = Vec::new();
    let mut sums: Vec<SessionSummary> = Vec::new();
    let mut k: usize = 0;
    while k < nr
        invariant
            k <= nr,
            nr == reps@.len(),
            ids@.len() == events@.len(),
            forall|x: int| 0 <= x < events@.len() ==> #[trigger] ids@[x]@ == events@[x].session_id@,
            forall|a: int| 0 <= a < reps@.len() ==> #[trigger] reps@[a] < events@.len(),
            starts@.len() == k,
            sids@.len() == k,
            sums@.len() == k,
            forall|a: int|
                0 <= a < k ==> #[trigger] summary_facts(
                    events@,
                    ids@,
                    reps@,
                    starts@,
                    sids@,
                    sums@,
                    a,
                ),
        decreases nr - k,
    {
        let r = reps[k];
        let target = chars_of(events[r].session_id.as_str());
        assert(in_session(events@, r as int, target@));
        let sum = summarize(events, ids, &target);
        let ghost os = starts@;
        let ghost oi = sids@;
        let ghost ou = sums@;
        starts.push(sum.started_at);
        sids.push(target);
        sums.push(sum);
        assert forall|a: int| 0 <= a < k + 1 implies #[trigger] summary_facts(
            events@,
            ids@,
            reps@,
            starts@,
            sids@,
            sums@,
            a,
        ) by {
            if a < k {
                assert(summary_facts(events@, ids@, reps@, os, oi, ou, a));
                assert(starts@[a] == os[a]);
                assert(sids@[a] == oi[a]);
                assert(sums@[a] == ou[a]);
            }
        }
        k += 1;
    }
    (starts, sids, sums)
}

/// Puts the loaded events in time order and summarises each session, most
/// recently started first. Messages, session records and counts pass through.
pub fn finalize_app_data(
    events: Vec<UsageEvent>,
    messages: Vec<MessageRecord>,
    session_records: Vec<SessionRecord>,
    import_stats: ImportStats,
    source: DataSourceKind,
) -> (r: AppData)
    ensures
        in_time_order(events@, r.events@),
        sessions_of(events@, r.sessions@),
        r.messages@ == messages@,
        r.session_records@ == session_records@,
        r.import_stats == import_stats,
        r.source == source,
{
    let (times, ids) = event_keys(&events);
    let order = order_events(&times, &ids);
    let out = events_in_order(&events, &order);
    assert(in_time_order(events@, out@)) by {
        assert(is_index_permutation(order@, events@.len()));
    }
    let reps = session_representatives(&ids);
    let (starts, sids, sums) = build_summaries(&events, &ids, &reps);
    assert forall|a: int, b: int| 0 <= a < b < sids@.len() implies sids@[a]@ != sids@[b]@ by {
        assert(summary_facts(events@, ids@, reps@, starts@, sids@, sums@, a));
        assert(summary_facts(events@, ids@, reps@, starts@, sids@, sums@, b));
    }
    let sorder = order_sessions(&starts, &sids);
    let nr = reps.len();
    let sessions = arrange_sessions(&sums, &sorder);
    proof {
        lemma_sessions_arranged(events@, ids@, reps@, starts@, sids@, sums@, sorder@, sessions@);
    }
    AppData { events: out, messages, session_records, import_stats, sessions, source }
}

proof fn lemma_sessions_summarize(
    events: Seq<UsageEvent>,
    ids: Seq<Vec<char>>,
    reps: Seq<usize>,
    starts: Seq<Option<i64>>,
    sids: Seq<Vec<char>>,
    sums: Seq<SessionSummary>,
    sorder: Seq<usize>,
    sessions: Seq<SessionSummary>,
)
    requires
        ids.len() == events.len(),
        forall|x: int| 0 <= x < events.len() ==> #[trigger] ids[x]@ == events[x].session_id@,
        forall|x: int| 0 <= x < ids.len() ==> #[trigger] represented(ids, reps, x),
        reps.len() <= usize::MAX,
        starts.len() == reps.len(),
        sids.len() == reps.len(),
        sums.len() == reps.len(),
        forall|a: int|
            0 <= a < reps.len() ==> #[trigger] summary_facts(events, ids, reps, starts, sids, sums, a),
        is_index_permutation(sorder, starts.len()),
        ordered_by(sorder, |a: usize, b: usize| session_key_before(starts, views_of(sids), a, b)),
        sessions.len() == sorder.len(),
        forall|x: int| 0 <= x < sessions.len() ==> #[trigger] sessions[x] == sums[sorder[x] as int],
    ensures
        forall|k: int| 0 <= k < sessions.len() ==> summarizes(events, #[trigger] sessions[k]),
{
        assert forall|k: int| 0 <= k < sessions.len() implies summarizes(
            events,
            #[trigger] sessions[k],
        ) by {
            assert(summary_facts(events, ids, reps, starts, sids, sums, sorder[k] as int));
        }
}

proof fn lemma_sessions_cover(
    events: Seq<UsageEvent>,
    ids: Seq<Vec<char>>,
    reps: Seq<usize>,
    starts: Seq<Option<i64>>,
    sids: Seq<Vec<char>>,
    sums: Seq<SessionSummary>,
    sorder: Seq<usize>,
    sessions: Seq<SessionSummary>,
)
    requires
        ids.len() == events.len(),
        forall|x: int| 0 <= x < events.len() ==> #[trigger] ids[x]@ == events[x].session_id@,
        forall|x: int| 0 <= x < ids.len() ==> #[trigger] represented(ids, reps, x),
        reps.len() <= usize::MAX,
        starts.len() == reps.len(),
        sids.len() == reps.len(),
        sums.len() == reps.len(),
        forall|a: int|
            0 <= a < reps.len() ==> #[trigger] summary_facts(events, ids, reps, starts, sids, sums, a),
        is_index_permutation(sorder, starts.len()),
        ordered_by(sorder, |a: usize, b: usize| session_key_before(starts, views_of(sids), a, b)),
        sessions.len() == sorder.len(),
        forall|x: int| 0 <= x < sessions.len() ==> #[trigger] sessions[x] == sums[sorder[x] as int],
    ensures
        forall|j: int| 0 <= j < events.len() ==> has_session(sessions, #[trigger] events[j].session_id@),
{
        assert forall|x: int| 0 <= x < events.len() implies has_session(
            sessions,
            #[trigger] events[x].session_id@,
        ) by {
            assert(ids[x]@ == events[x].session_id@);
            assert(represented(ids, reps, x));
            let a = choose|a: int| 0 <= a < reps.len() && #[trigger] ids[reps[a] as int]@ == ids[x]@;
            assert(sorder.contains(a as usize));
            let k = choose|k: int| 0 <= k < sorder.len() && sorder[k] == a as usize;
            assert(sessions[k] == sums[sorder[k] as int]);
            assert(summary_facts(events, ids, reps, starts, sids, sums, a));
            assert(sessions[k] == sums[a]);
        }
}

proof fn lemma_sessions_ordered(
    events: Seq<UsageEvent>,
    ids: Seq<Vec<char>>,
    reps: Seq<usize>,
    starts: Seq<Option<i64>>,
    sids: Seq<Vec<char>>,
    sums: Seq<SessionSummary>,
    sorder: Seq<usize>,
    sessions: Seq<SessionSummary>,
)
    requires
        ids.len() == events.len(),
        forall|x: int| 0 <= x < events.len() ==> #[trigger] ids[x]@ == events[x].session_id@,
        forall|x: int| 0 <= x < ids.len() ==> #[trigger] represented(ids, reps, x),
        reps.len() <= usize::MAX,
        starts.len() == reps.len(),
        sids.len() == reps.len(),
        sums.len() == reps.len(),
        forall|a: int|
            0 <= a < reps.len() ==> #[trigger] summary_facts(events, ids, reps, starts, sids, sums, a),
        is_index_permutation(sorder, starts.len()),
        ordered_by(sorder, |a: usize, b: usize| session_key_before(starts, views_of(sids), a, b)),
        sessions.len() == sorder.len(),
        forall|x: int| 0 <= x < sessions.len() ==> #[trigger] sessions[x] == sums[sorder[x] as int],
    ensures
        forall|k: int, l: int|
            #![trigger sessions[k], sessions[l]]
            0 <= k < l < sessions.len() ==> session_before(sessions[k], sessions[l]),
{
        assert forall|k: int, l: int|
            #![trigger sessions[k], sessions[l]]
            0 <= k < l < sessions.len() implies session_before(sessions[k], sessions[l]) by {
            let a = sorder[k] as int;
            let b = sorder[l] as int;
            assert(session_key_before(starts, views_of(sids), sorder[k], sorder[l]));
            assert(summary_facts(events, ids, reps, starts, sids, sums, a));
            assert(summary_facts(events, ids, reps, starts, sids, sums, b));
            assert(views_of(sids)[a] == sids[a]@);
            assert(views_of(sids)[b] == sids[b]@);
        }
    }

proof fn lemma_sessions_arranged(
    events: Seq<UsageEvent>,
    ids: Seq<Vec<char>>,
    reps: Seq<usize>,
    starts: Seq<Option<i64>>,
    sids: Seq<Vec<char>>,
    sums: Seq<SessionSummary>,
    sorder: Seq<usize>,
    sessions: Seq<SessionSummary>,
)
    requires
        ids.len() == events.len(),
        forall|x: int| 0 <= x < events.len() ==> #[trigger] ids[x]@ == events[x].session_id@,
        forall|x: int| 0 <= x < ids.len() ==> #[trigger] represented(ids, reps, x),
        reps.len() <= usize::MAX,
        starts.len() == reps.len(),
        sids.len() == reps.len(),
        sums.len() == reps.len(),
        forall|a: int|
            0 <= a < reps.len() ==> #[trigger] summary_facts(events, ids, reps, starts, sids, sums, a),
        is_index_permutation(sorder, starts.len()),
        ordered_by(sorder, |a: usize, b: usize| session_key_before(starts, views_of(sids), a, b)),
        sessions.len() == sorder.len(),
        forall|x: int| 0 <= x < sessions.len() ==> #[trigger] sessions[x] == sums[sorder[x] as int],
    ensures
        sessions_of(events, sessions),
{
    lemma_sessions_summarize(events, ids, reps, starts, sids, sums, sorder, sessions);
    lemma_sessions_cover(events, ids, reps, starts, sids, sums, sorder, sessions);
    lemma_sessions_ordered(events, ids, reps, starts, sids, sums, sorder, sessions);
}

fn arrange_sessions(sums: &Vec<SessionSummary>, sorder: &Vec<usize>) -> (sessions: Vec<
    SessionSummary,
>)
    requires
        is_index_permutation(sorder@, sums@.len()),
    ensures
        sessions@.len() == sorder@.len(),
        forall|x: int| 0 <= x < sessions@.len() ==> #[trigger] sessions@[x] == sums@[sorder@[x] as int],
{
    let nr = sorder.len();
    let mut sessions: Vec<SessionSummary> = Vec::new();
    let mut k: usize = 0;
    while k < nr
        invariant
            k <= nr,
            nr == sorder@.len(),
            is_index_permutation(sorder@, sums@.len()),
            sessions@.len() == k,
            forall|x: int| 0 <= x < k ==> #[trigger] sessions@[x] == sums@[sorder@[x] as int],
        decreases nr - k,
    {
        sessions.push(clone_summary(&sums[sorder[k]]));
        k += 1;
    }
    sessions
}


/// Loaded events come out in creation order, absent times first, and every
/// input event comes out once: the output has the input's length and holds
/// each input event.
pub proof fn lemma_events_chronological(input: Seq<UsageEvent>, out: Seq<UsageEvent>)
    requires
        in_time_order(input, out),
        input.len() <= usize::MAX,
    ensures
        out.len() == input.len(),
        forall|k: int, l: int|
            #![trigger out[k], out[l]]
            0 <= k < l < out.len() ==> !instant_lt(out[l].created_at, out[k].created_at),
        forall|j: int| 0 <= j < input.len() ==> #[trigger] out.contains(input[j]),
{
    let p = choose|p: Seq<usize>|
        #![trigger is_index_permutation(p, input.len())]
        {
            &&& is_index_permutation(p, input.len())
            &&& ordered_by(
                p,
                |a: usize, b: usize| event_key_before(times_of(input), ids_of(input), a, b),
            )
            &&& out.len() == p.len()
            &&& forall|k: int| 0 <= k < out.len() ==> #[trigger] out[k] == input[p[k] as int]
        };
    assert forall|k: int, l: int|
        #![trigger out[k], out[l]]
        0 <= k < l < out.len() implies !instant_lt(out[l].created_at, out[k].created_at) by {
        assert(event_key_before(times_of(input), ids_of(input), p[k], p[l]));
        assert(times_of(input)[p[k] as int] == out[k].created_at);
        assert(times_of(input)[p[l] as int] == out[l].created_at);
    }
    assert forall|j: int| 0 <= j < input.len() implies #[trigger] out.contains(input[j]) by {
        assert(p.contains(j as usize));
        let k = choose|k: int| 0 <= k < p.len() && p[k] == j as usize;
        assert(out[k] == input[j]);
    }
}

proof fn lemma_count_positive(s: Seq<UsageEvent>, id: Seq<char>, j: int)
    requires
        0 <= j < s.len(),
        s[j].session_id@ == id,
    ensures
        count_in(s, id) >= 1,
    decreases s.len(),
{
    if j < s.len() - 1 {
        lemma_count_positive(s.drop_last(), id, j);
    }
}

/// Every session summary counts at least one event, and its earliest event
/// is not after its latest.
pub proof fn lemma_sessions_nonempty(events: Seq<UsageEvent>, sessions: Seq<SessionSummary>)
    requires
        sessions_of(events, sessions),
    ensures
        forall|k: int| 0 <= k < sessions.len() ==> #[trigger] sessions[k].event_count >= 1,
        forall|k: int|
            0 <= k < sessions.len() ==> !instant_lt(
                #[trigger] sessions[k].last_event_at,
                sessions[k].started_at,
            ),
{
    assert forall|k: int| 0 <= k < sessions.len() implies #[trigger] sessions[k].event_count >= 1 by {
        assert(summarizes(events, sessions[k]));
        let id = sessions[k].session_id@;
        let j = choose|j: int| #[trigger] in_session(events, j, id) && events[j].created_at == sessions[k].started_at;
        lemma_count_positive(events, id, j);
    }
    assert forall|k: int| 0 <= k < sessions.len() implies !instant_lt(
        #[trigger] sessions[k].last_event_at,
        sessions[k].started_at,
    ) by {
        assert(summarizes(events, sessions[k]));
        let id = sessions[k].session_id@;
        let j = choose|j: int| #[trigger] in_session(events, j, id) && events[j].created_at == sessions[k].started_at;
        assert(!instant_lt(sessions[k].last_event_at, events[j].created_at));
    }
}

/// No session is summarised twice: the summaries have distinct session ids.
pub proof fn lemma_sessions_distinct(events: Seq<UsageEvent>, sessions: Seq<SessionSummary>)
    requires
        sessions_of(events, sessions),
    ensures
        forall|k: int, l: int|
            #![trigger sessions[k], sessions[l]]
            0 <= k < l < sessions.len() ==> sessions[k].session_id@ != sessions[l].session_id@,
{
    assert forall|k: int, l: int|
        #![trigger sessions[k], sessions[l]]
        0 <= k < l < sessions.len() implies sessions[k].session_id@ != sessions[l].session_id@ by {
        let a = sessions[k];
        let b = sessions[l];
        if a.session_id@ == b.session_id@ {
            let id = a.session_id@;
            assert(summarizes(events, a));
            assert(summarizes(events, b));
            let ja = choose|j: int| #[trigger] in_session(events, j, id) && events[j].created_at == a.started_at;
            let jb = choose|j: int| #[trigger] in_session(events, j, id) && events[j].created_at == b.started_at;
            assert(!instant_lt(events[jb].created_at, a.started_at));
            assert(!instant_lt(events[ja].created_at, b.started_at));
            lemma_text_lt_irreflexive(id);
            assert(session_before(a, b));
        }
    }
}

} // verus!

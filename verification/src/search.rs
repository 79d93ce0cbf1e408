//! Fuzzy search over the model and provider lists: filtering and ranking,
//! the search state, highlighting of matched characters, and what the search
//! list shows.

use vstd::prelude::*;
use vstd::utf8::encode_utf8;

use crate::fuzzy::{
    char_width, display_width_of_char, display_width_of_text, fuzzy_indices, fuzzy_score,
    pattern_indices, pattern_score, text_width,
};
use crate::ordering::{
    asymmetric, is_index_permutation, lemma_ordered_unique, lemma_insert_ordered, lemma_insert_permutation, ordered_by, transitive,
};
use crate::text::{chars_of, split_words, string_from_chars, trim, trim_chars, trim_end, trim_start, words};

verus! {

/// The sum of the scores of all `terms` for `item`, or `None` when one of
/// them does not match.
pub open spec fn terms_score(terms: Seq<Seq<char>>, item: Seq<char>) -> Option<int>
    decreases terms.len(),
{
    if terms.len() == 0 {
        Some(0)
    } else {
        match (terms_score(terms.drop_last(), item), fuzzy_score(terms.last(), item)) {
            (Some(a), Some(b)) => Some(a + b),
            _ => None,
        }
    }
}

/// The search terms of a query: its white-space separated words.
pub open spec fn query_terms(query: Seq<char>) -> Seq<Seq<char>> {
    words(trim(query))
}

/// Item `a` is ranked before item `b`: higher total score, then lower index.
pub open spec fn ranked_before(terms: Seq<Seq<char>>, items: Seq<String>, a: usize, b: usize) -> bool {
    let sa = terms_score(terms, items[a as int]@)->0;
    let sb = terms_score(terms, items[b as int]@)->0;
    sa > sb || (sa == sb && a < b)
}

/// `r` lists the indices of the items that match every term of `query`, best
/// score first and, among equal scores, by index.
pub open spec fn is_filter_result(query: Seq<char>, items: Seq<String>, r: Seq<usize>) -> bool {
    let terms = query_terms(query);
    &&& forall|k: int|
        0 <= k < r.len() ==> #[trigger] r[k] < items.len() && terms_score(
            terms,
            items[r[k] as int]@,
        ) is Some
    &&& forall|i: usize|
        i < items.len() && terms_score(terms, items[i as int]@) is Some ==> #[trigger] r.contains(i)
    &&& forall|k: int, l: int|
        #![trigger r[k], r[l]]
        0 <= k < l < r.len() ==> ranked_before(terms, items, r[k], r[l])
}

/// Scores add up over terms: `item` matches the terms `a` followed by `b`
/// exactly when it matches both, with the sum of the two totals; a single
/// term scores what the matcher gives it.
pub proof fn lemma_terms_score_adds_up(a: Seq<Seq<char>>, b: Seq<Seq<char>>, item: Seq<char>)
    ensures
        terms_score(a + b, item) is Some <==> (terms_score(a, item) is Some && terms_score(b, item)
            is Some),
        terms_score(a + b, item) is Some ==> terms_score(a + b, item)->0 == terms_score(a, item)->0
            + terms_score(b, item)->0,
        forall|t: Seq<char>|
            #[trigger] terms_score(seq![t], item) == match fuzzy_score(t, item) {
                Some(v) => Some(v as int),
                None => None::<int>,
            },
    decreases b.len(),
{
    assert forall|t: Seq<char>|
        #[trigger] terms_score(seq![t], item) == match fuzzy_score(t, item) {
            Some(v) => Some(v as int),
            None => None::<int>,
        } by {
        assert(seq![t].drop_last() =~= Seq::<Seq<char>>::empty());
        assert(terms_score(seq![t].drop_last(), item) == Some(0int));
        assert(seq![t].last() == t);
    }
    if b.len() == 0 {
        assert(a + b =~= a);
    } else {
        lemma_terms_score_adds_up(a, b.drop_last(), item);
        assert((a + b).drop_last() =~= a + b.drop_last());
        assert((a + b).last() == b.last());
    }
}

/// The total score of `item` for `query`: the sum of the scores of its terms.
pub open spec fn total_score(query: Seq<char>, item: String) -> int {
    terms_score(query_terms(query), item@)->0
}

/// Results are listed best first: of any two listed results, the earlier one
/// has a total score at least that of the later one, a strictly higher score
/// always comes first, and equal scores keep the item order.
pub proof fn lemma_filter_result_best_first(query: Seq<char>, items: Seq<String>, r: Seq<usize>)
    requires
        is_filter_result(query, items, r),
    ensures
        forall|k: int, l: int|
            #![trigger r[k], r[l]]
            0 <= k < l < r.len() ==> total_score(query, items[r[k] as int]) >= total_score(
                query,
                items[r[l] as int],
            ),
        forall|k: int, l: int|
            #![trigger r[k], r[l]]
            0 <= k < l < r.len() && total_score(query, items[r[k] as int]) == total_score(
                query,
                items[r[l] as int],
            ) ==> r[k] < r[l],
        forall|k: int, l: int|
            #![trigger r[k], r[l]]
            0 <= k < r.len() && 0 <= l < r.len() && total_score(query, items[r[k] as int])
                > total_score(query, items[r[l] as int]) ==> k < l,
{
    let terms = query_terms(query);
    assert forall|k: int, l: int|
        #![trigger r[k], r[l]]
        0 <= k < r.len() && 0 <= l < r.len() && total_score(query, items[r[k] as int])
            > total_score(query, items[r[l] as int]) implies k < l by {
        if l < k {
            assert(ranked_before(terms, items, r[l], r[k]));
        } else if l == k {
        }
    }
}

/// The filter result is determined by the query and the items: two lists
/// that both meet `is_filter_result` are the same, so no index is listed
/// twice and ties keep the item order.
pub proof fn lemma_filter_result_unique(query: Seq<char>, items: Seq<String>, r1: Seq<usize>, r2: Seq<usize>)
    requires
        is_filter_result(query, items, r1),
        is_filter_result(query, items, r2),
    ensures
        r1 == r2,
{
    let terms = query_terms(query);
    let before = |a: usize, b: usize| ranked_before(terms, items, a, b);
    assert(asymmetric(before));
    assert(ordered_by(r1, before)) by {
        assert forall|k: int, l: int| #![trigger r1[k], r1[l]] 0 <= k < l < r1.len() implies before(r1[k], r1[l]) by {
            assert(ranked_before(terms, items, r1[k], r1[l]));
        }
    }
    assert(ordered_by(r2, before)) by {
        assert forall|k: int, l: int| #![trigger r2[k], r2[l]] 0 <= k < l < r2.len() implies before(r2[k], r2[l]) by {
            assert(ranked_before(terms, items, r2[k], r2[l]));
        }
    }
    assert forall|x: usize| #[trigger] r1.contains(x) <==> r2.contains(x) by {
        if r1.contains(x) {
            let k = choose|k: int| 0 <= k < r1.len() && r1[k] == x;
            assert(x < items.len() && terms_score(terms, items[x as int]@) is Some);
        }
        if r2.contains(x) {
            let k = choose|k: int| 0 <= k < r2.len() && r2[k] == x;
            assert(x < items.len() && terms_score(terms, items[x as int]@) is Some);
        }
    }
    lemma_ordered_unique(r1, r2, before);
}

/// The indices `0..n` in order.
pub open spec fn all_indices(n: nat) -> Seq<usize> {
    Seq::new(n, |i: int| i as usize)
}

fn index_range(n: usize) -> (r: Vec<usize>)
    ensures
        r@ == all_indices(n as nat),
{
    let mut r: Vec<usize> = Vec::new();
    let mut i: usize = 0;
    while i < n
        invariant
            i <= n,
            r@ == all_indices(i as nat),
        decreases n - i,
    {
        r.push(i);
        i += 1;
        assert(r@ =~= all_indices(i as nat));
    }
    r
}

proof fn lemma_score_none_prefix(terms: Seq<Seq<char>>, item: Seq<char>, k: int)
    requires
        0 <= k <= terms.len(),
        terms_score(terms.take(k), item) is None,
    ensures
        terms_score(terms, item) is None,
    decreases terms.len() - k,
{
    if k < terms.len() {
        assert(terms.take(k + 1).drop_last() =~= terms.take(k));
        lemma_score_none_prefix(terms, item, k + 1);
    } else {
        assert(terms.take(k) =~= terms);
    }
}

/// The total score of `item` for `terms`.
fn score_item(terms: &Vec<String>, item: &String) -> (r: Option<u128>)
    ensures
        match r {
            Some(x) => terms_score(terms@.map_values(|t: String| t@), item@) == Some(x as int),
            None => terms_score(terms@.map_values(|t: String| t@), item@) is None,
        },
{
    let ghost tv = terms@.map_values(|t: String| t@);
    let mut total: u128 = 0;
    let mut t: usize = 0;
    assert(tv.take(0) =~= Seq::<Seq<char>>::empty());
    while t < terms.len()
        invariant
            t <= terms@.len(),
            tv == terms@.map_values(|t: String| t@),
            terms_score(tv.take(t as int), item@) == Some(total as int),
            total <= t * 0xFFFF_FFFF,
            t <= usize::MAX,
        decreases terms@.len() - t,
    {
        assert(tv.take(t + 1).drop_last() =~= tv.take(t as int));
        assert(tv.take(t + 1).last() == terms@[t as int]@);
        match pattern_score(terms[t].as_str(), item.as_str()) {
            Some(s) => {
                total = total + s as u128;
            },
            None => {
                proof {
                    lemma_score_none_prefix(tv, item@, t + 1);
                }
                return None;
            },
        }
        t += 1;
    }
    assert(tv.take(terms@.len() as int) =~= tv);
    Some(total)
}

/// Indices of `items` that match every term of `query` (its white-space
/// separated words), best total score first and, among equal scores, by
/// index; all indices in order when the query is blank.
pub fn filter_indices(query: &str, items: &Vec<String>) -> (r: Vec<usize>)
    ensures
        is_filter_result(query@, items@, r@),
        trim(query@).len() == 0 ==> r@ == all_indices(items@.len()),
{
    let qc = chars_of(query);
    let trimmed = trim_chars(qc.as_slice());
    let n = items.len();
    if trimmed.len() == 0 {
        let r = index_range(n);
        proof {
            let terms = query_terms(query@);
            assert(terms =~= Seq::<Seq<char>>::empty());
            assert forall|i: usize|
                i < items@.len() && terms_score(terms, items@[i as int]@) is Some implies #[trigger] r@.contains(i) by {
                assert(r@[i as int] == i);
            }
        }
        return r;
    }
    let words_chars = split_words(trimmed.as_slice());
    let mut terms: Vec<String> = Vec::new();
    let mut w: usize = 0;
    while w < words_chars.len()
        invariant
            w <= words_chars@.len(),
            words_chars@.len() == words(trim(query@)).len(),
            forall|k: int| 0 <= k < words_chars@.len() ==> #[trigger] words_chars@[k]@ == words(trim(query@))[k],
            terms@.len() == w,
            forall|k: int| 0 <= k < w ==> #[trigger] terms@[k]@ == words(trim(query@))[k],
        decreases words_chars@.len() - w,
    {
        terms.push(string_from_chars(words_chars[w].as_slice()));
        w += 1;
    }
    let ghost qt = query_terms(query@);
    assert(terms@.map_values(|t: String| t@) =~= qt);
    // Matching items with their scores, by index.
    let mut idx: Vec<usize> = Vec::new();
    let mut sc: Vec<u128> = Vec::new();
    let mut i: usize = 0;
    while i < n
        invariant
            i <= n,
            n == items@.len(),
            terms@.map_values(|t: String| t@) == qt,
            idx@.len() == sc@.len(),
            forall|k: int| 0 <= k < idx@.len() ==> #[trigger] idx@[k] < i,
            forall|k: int, l: int| #![trigger idx@[k], idx@[l]] 0 <= k < l < idx@.len() ==> idx@[k] < idx@[l],
            forall|k: int|
                0 <= k < idx@.len() ==> terms_score(qt, items@[idx@[k] as int]@) == Some(
                    #[trigger] sc@[k] as int,
                ),
            forall|x: usize|
                x < i && terms_score(qt, items@[x as int]@) is Some ==> #[trigger] idx@.contains(x),
        decreases n - i,
    {
        let ghost old_idx = idx@;
        match score_item(&terms, &items[i]) {
            Some(s) => {
                idx.push(i);
                sc.push(s);
                proof {
                    assert forall|x: usize|
                        x < i + 1 && terms_score(qt, items@[x as int]@) is Some implies #[trigger] idx@.contains(x) by {
                        if x == i {
                            assert(idx@[idx@.len() - 1] == i);
                        } else {
                            assert(old_idx.contains(x));
                            let k = choose|k: int| 0 <= k < old_idx.len() && old_idx[k] == x;
                            assert(idx@[k] == x);
                        }
                    }
                }
            },
            None => {
                proof {
                    assert forall|x: usize|
                        x < i + 1 && terms_score(qt, items@[x as int]@) is Some implies #[trigger] idx@.contains(x) by {
                        if x == i {
                            assert(false);
                        }
                    }
                }
            },
        }
        i += 1;
    }
    // Order the matches: higher score first, then lower index.
    let m = idx.len();
    let ghost before = |p: usize, q: usize|
        sc@[p as int] > sc@[q as int] || (sc@[p as int] == sc@[q as int] && p < q);
    let mut order: Vec<usize> = Vec::new();
    let mut j: usize = 0;
    while j < m
        invariant
            j <= m,
            m == sc@.len(),
            is_index_permutation(order@, j as nat),
            ordered_by(order@, before),
            transitive(before),
            before == (|p: usize, q: usize|
                sc@[p as int] > sc@[q as int] || (sc@[p as int] == sc@[q as int] && p < q)),
        decreases m - j,
    {
        let mut pos: usize = 0;
        while pos < order.len() && (sc[order[pos]] > sc[j] || (sc[order[pos]] == sc[j] && order[pos]
            < j))
            invariant
                pos <= order@.len(),
                j < m,
                m == sc@.len(),
                is_index_permutation(order@, j as nat),
                forall|k: int| 0 <= k < pos ==> before(#[trigger] order@[k], j),
                before == (|p: usize, q: usize|
                    sc@[p as int] > sc@[q as int] || (sc@[p as int] == sc@[q as int] && p < q)),
            decreases order@.len() - pos,
        {
            pos += 1;
        }
        proof {
            lemma_insert_ordered(order@, pos as int, j, before);
            lemma_insert_permutation(order@, pos as int, j);
        }
        order.insert(pos, j);
        j += 1;
    }
    let mut r: Vec<usize> = Vec::new();
    let mut k: usize = 0;
    while k < m
        invariant
            k <= m,
            m == idx@.len(),
            is_index_permutation(order@, m as nat),
            r@.len() == k,
            forall|x: int| 0 <= x < k ==> #[trigger] r@[x] == idx@[order@[x] as int],
        decreases m - k,
    {
        r.push(idx[order[k]]);
        k += 1;
    }
    proof {
        assert forall|x: usize|
            x < items@.len() && terms_score(qt, items@[x as int]@) is Some implies #[trigger] r@.contains(x) by {
            assert(idx@.contains(x));
            let a = choose|a: int| 0 <= a < idx@.len() && idx@[a] == x;
            assert(order@.contains(a as usize));
            let b = choose|b: int| 0 <= b < order@.len() && order@[b] == a as usize;
            assert(r@[b] == x);
        }
        assert forall|x: int, y: int| #![trigger r@[x], r@[y]] 0 <= x < y < r@.len() implies ranked_before(
            qt,
            items@,
            r@[x],
            r@[y],
        ) by {
            let p = order@[x];
            let q = order@[y];
            assert(before(p, q));
            assert(terms_score(qt, items@[idx@[p as int] as int]@) == Some(sc@[p as int] as int));
            assert(terms_score(qt, items@[idx@[q as int] as int]@) == Some(sc@[q as int] as int));
            if p < q {
                assert(idx@[p as int] < idx@[q as int]);
            } else if p > q {
                assert(idx@[q as int] < idx@[p as int]);
            }
        }
        assert forall|x: int| 0 <= x < r@.len() implies #[trigger] r@[x] < items@.len() && terms_score(
            qt,
            items@[r@[x] as int]@,
        ) is Some by {
            let p = order@[x];
            assert(terms_score(qt, items@[idx@[p as int] as int]@) == Some(sc@[p as int] as int));
        }
    }
    r
}


/// `a - b`, or zero when `b` is larger (`usize::saturating_sub`).
pub open spec fn sat_sub(a: int, b: int) -> int {
    if a >= b {
        a - b
    } else {
        0
    }
}

/// The smaller of two integers.
pub open spec fn min_int(a: int, b: int) -> int {
    if a <= b {
        a
    } else {
        b
    }
}

/// The longest query the search box takes.
pub const MAX_QUERY_LEN: usize = 256;

/// The state of the search box over a list of ids.
#[derive(Debug)]
pub struct SearchState {
    pub query: String,
    pub ids: Vec<String>,
    pub filtered_indices: Vec<usize>,
    pub selected: usize,
    pub scroll_offset: usize,
}

/// `r` is the search that `SearchState::new` opens over `ids` with the row
/// `focused` focused: an empty query, every id listed, the focused row
/// selected (within the list) and scrolled into view.
pub open spec fn opened(r: SearchState, ids: Seq<String>, focused: usize) -> bool {
    &&& r.query@ == Seq::<char>::empty()
    &&& r.ids@ == ids
    &&& r.filtered_indices@ == all_indices(ids.len())
    &&& r.selected == min_int(focused as int, sat_sub(ids.len() as int, 1))
    &&& r.scroll_offset == sat_sub(r.selected as int, 4)
}

/// `after` is `before` with its results filtered anew by its query: with a
/// query the selection and scroll go to the top; without one every id is
/// listed, the selection is kept within the list and the scroll offset
/// within the last page and not past the selection.
pub open spec fn filter_updated(before: SearchState, after: SearchState) -> bool {
    &&& after.query@ == before.query@
    &&& after.ids@ == before.ids@
    &&& is_filter_result(before.query@, before.ids@, after.filtered_indices@)
    &&& trim(before.query@).len() > 0 ==> after.selected == 0 && after.scroll_offset == 0
    &&& trim(before.query@).len() == 0 ==> {
        &&& after.filtered_indices@ == all_indices(before.ids@.len())
        &&& after.selected == min_int(
            before.selected as int,
            sat_sub(after.filtered_indices@.len() as int, 1),
        )
        &&& after.scroll_offset == min_int(
            min_int(before.scroll_offset as int, sat_sub(after.filtered_indices@.len() as int, 5)),
            after.selected as int,
        )
    }
}

/// Refreshing a freshly opened search before anything is typed changes
/// nothing: the same ids are listed, with the same selection and scroll.
pub proof fn lemma_fresh_search_is_stable(
    opened_search: SearchState,
    refreshed: SearchState,
    ids: Seq<String>,
    focused: usize,
)
    requires
        opened(opened_search, ids, focused),
        filter_updated(opened_search, refreshed),
    ensures
        refreshed.query@ == opened_search.query@,
        refreshed.ids@ == opened_search.ids@,
        refreshed.filtered_indices@ == opened_search.filtered_indices@,
        refreshed.selected == opened_search.selected,
        refreshed.scroll_offset == opened_search.scroll_offset,
{
    assert(trim_start(Seq::<char>::empty()) == Seq::<char>::empty());
    assert(trim_end(Seq::<char>::empty()) == Seq::<char>::empty());
    assert(trim(opened_search.query@).len() == 0);
}

impl SearchState {
    /// Starts a search over `ids` with an empty query: every id listed, the
    /// focused one selected (within the list) and scrolled into view.
    pub fn new(ids: Vec<String>, focused_index: usize) -> (r: Self)
        ensures
            opened(r, ids@, focused_index),
    {
        let total = ids.len();
        let selected = if focused_index < total.saturating_sub(1) {
            focused_index
        } else {
            total.saturating_sub(1)
        };
        let scroll_offset = selected.saturating_sub(4);
        SearchState {
            query: String::new(),
            ids,
            filtered_indices: index_range(total),
            selected,
            scroll_offset,
        }
    }

    /// Filters the ids by the current query. With a query the selection and
    /// scroll go to the top; without one they are kept within the list, and
    /// the scroll offset never passes the selection.
    pub fn update_filter(&mut self)
        ensures
            filter_updated(*old(self), *final(self)),
            final(self).scroll_offset <= final(self).selected,
            final(self).filtered_indices@.len() > 0 ==> final(self).selected
                < final(self).filtered_indices@.len(),
    {
        let qc = chars_of(self.query.as_str());
        let has_query = trim_chars(qc.as_slice()).len() != 0;
        self.filtered_indices = filter_indices(self.query.as_str(), &self.ids);
        if has_query {
            self.selected = 0;
            self.scroll_offset = 0;
        } else {
            let last = self.filtered_indices.len().saturating_sub(1);
            if self.selected > last {
                self.selected = last;
            }
            let filtered_total = self.filtered_indices.len();
            let bound = filtered_total.saturating_sub(5);
            if self.scroll_offset > bound {
                self.scroll_offset = bound;
            }
            if self.scroll_offset > self.selected {
                self.scroll_offset = self.selected;
            }
        }
    }
}

/// Some term of `query` matched position `p` of `text`.
pub open spec fn position_matched(query: Seq<char>, text: Seq<char>, p: usize) -> bool {
    exists|t: int, m: int|
        0 <= t < words(query).len() && 0 <= m < fuzzy_indices(words(query)[t], text).len()
            && #[trigger] fuzzy_indices(words(query)[t], text)[m] as usize == p
}

/// Position `p` lies within `text`: below its byte length, and below its
/// character count when it is ASCII.
pub open spec fn within_text(p: int, text: &str) -> bool {
    &&& p < encode_utf8(text@).len()
    &&& vstd::string::is_ascii(text) ==> p < text@.len()
}

/// `s` is strictly increasing.
pub open spec fn strictly_increasing(s: Seq<usize>) -> bool {
    forall|k: int, l: int| #![trigger s[k], s[l]] 0 <= k < l < s.len() ==> s[k] < s[l]
}

fn insert_position(v: &mut Vec<usize>, x: usize)
    requires
        strictly_increasing(old(v)@),
    ensures
        strictly_increasing(final(v)@),
        forall|y: usize| #[trigger] final(v)@.contains(y) <==> (old(v)@.contains(y) || y == x),
{
    let mut pos: usize = 0;
    while pos < v.len() && v[pos] < x
        invariant
            pos <= v@.len(),
            v@ == old(v)@,
            strictly_increasing(v@),
            forall|k: int| 0 <= k < pos ==> #[trigger] v@[k] < x,
        decreases v@.len() - pos,
    {
        pos += 1;
    }
    if pos < v.len() && v[pos] == x {
        return;
    }
    let ghost old_v = v@;
    v.insert(pos, x);
    proof {
        assert forall|k: int, l: int| #![trigger v@[k], v@[l]] 0 <= k < l < v@.len() implies v@[k] < v@[l] by {
            if l < pos {
                assert(v@[k] == old_v[k] && v@[l] == old_v[l]);
            } else if l == pos {
                assert(v@[k] == old_v[k]);
            } else if k < pos {
                assert(v@[k] == old_v[k] && v@[l] == old_v[l - 1]);
                assert(old_v[pos as int] > x);
                if l - 1 > pos {
                    assert(old_v[pos as int] < old_v[l - 1]);
                }
            } else if k == pos {
                assert(v@[l] == old_v[l - 1]);
                if l - 1 > pos {
                    assert(old_v[pos as int] < old_v[l - 1]);
                }
            } else {
                assert(v@[k] == old_v[k - 1] && v@[l] == old_v[l - 1]);
            }
        }
        assert forall|y: usize| #[trigger] v@.contains(y) <==> (old_v.contains(y) || y == x) by {
            if v@.contains(y) {
                let k = choose|k: int| 0 <= k < v@.len() && v@[k] == y;
                if k < pos {
                    assert(old_v[k] == y);
                } else if k > pos {
                    assert(old_v[k - 1] == y);
                }
            }
            if old_v.contains(y) {
                let k = choose|k: int| 0 <= k < old_v.len() && old_v[k] == y;
                if k < pos {
                    assert(v@[k] == y);
                } else {
                    assert(v@[k + 1] == y);
                }
            }
            if y == x {
                assert(v@[pos as int] == x);
            }
        }
    }
}

/// The positions of `text` that some word of `query` matches, as
/// `nucleo-matcher` reports them (byte offsets when every grapheme of `text`
/// starts with an ASCII character, grapheme positions otherwise), in
/// increasing order, each once, and each within `text`.
pub fn fuzzy_match_positions(query: &str, text: &str) -> (r: Vec<usize>)
    ensures
        strictly_increasing(r@),
        forall|p: usize| #[trigger] r@.contains(p) <==> position_matched(query@, text@, p),
        forall|k: int| 0 <= k < r@.len() ==> within_text(#[trigger] r@[k] as int, text),
{
    let qc = chars_of(query);
    let terms = split_words(qc.as_slice());
    let ghost ws = words(query@);
    let mut positions: Vec<usize> = Vec::new();
    let mut t: usize = 0;
    while t < terms.len()
        invariant
            t <= terms@.len(),
            terms@.len() == ws.len(),
            ws == words(query@),
            forall|k: int| 0 <= k < terms@.len() ==> #[trigger] terms@[k]@ == ws[k],
            strictly_increasing(positions@),
            forall|k: int| 0 <= k < positions@.len() ==> within_text(#[trigger] positions@[k] as int, text),
            forall|p: usize| #[trigger] positions@.contains(p) <==> exists|u: int, m: int|
                0 <= u < t && 0 <= m < fuzzy_indices(ws[u], text@).len()
                    && #[trigger] fuzzy_indices(ws[u], text@)[m] as usize == p,
        decreases terms@.len() - t,
    {
        let term = string_from_chars(terms[t].as_slice());
        let found = pattern_indices(term.as_str(), text);
        let ghost before_t = positions@;
        let mut m: usize = 0;
        while m < found.len()
            invariant
                m <= found@.len(),
                t < ws.len(),
                found@ == fuzzy_indices(ws[t as int], text@),
                forall|j: int| 0 <= j < found@.len() ==> within_text(#[trigger] found@[j] as int, text),
                forall|k: int| 0 <= k < positions@.len() ==> within_text(#[trigger] positions@[k] as int, text),
                strictly_increasing(positions@),
                forall|p: usize| #[trigger] positions@.contains(p) <==> (before_t.contains(p) || exists|
                    j: int,
                | 0 <= j < m && #[trigger] found@[j] as usize == p),
            decreases found@.len() - m,
        {
            let ghost prev = positions@;
            insert_position(&mut positions, found[m] as usize);
            proof {
                assert forall|k: int| 0 <= k < positions@.len() implies within_text(#[trigger] positions@[k] as int, text) by {
                    let y = positions@[k];
                    assert(positions@.contains(y));
                    if prev.contains(y) {
                        let i = choose|i: int| 0 <= i < prev.len() && prev[i] == y;
                        assert(within_text(prev[i] as int, text));
                    } else {
                        assert(within_text(found@[m as int] as int, text));
                    }
                }
                assert forall|p: usize| #[trigger] positions@.contains(p) <==> (before_t.contains(p)
                    || exists|j: int| 0 <= j < m + 1 && #[trigger] found@[j] as usize == p) by {
                    if p == found@[m as int] as usize {
                    }
                    if exists|j: int| 0 <= j < m + 1 && #[trigger] found@[j] as usize == p {
                        let j = choose|j: int| 0 <= j < m + 1 && #[trigger] found@[j] as usize == p;
                        if j < m {
                            assert(prev.contains(p));
                        }
                    }
                    if prev.contains(p) && !before_t.contains(p) {
                        let j = choose|j: int| 0 <= j < m && #[trigger] found@[j] as usize == p;
                        assert(0 <= j < m + 1 && found@[j] as usize == p);
                    }
                }
            }
            m += 1;
        }
        proof {
            assert forall|p: usize| #[trigger] positions@.contains(p) <==> exists|u: int, m: int|
                0 <= u < t + 1 && 0 <= m < fuzzy_indices(ws[u], text@).len()
                    && #[trigger] fuzzy_indices(ws[u], text@)[m] as usize == p by {
                if positions@.contains(p) {
                    if before_t.contains(p) {
                        let (u, m) = choose|u: int, m: int|
                            0 <= u < t && 0 <= m < fuzzy_indices(ws[u], text@).len()
                                && #[trigger] fuzzy_indices(ws[u], text@)[m] as usize == p;
                        assert(0 <= u < t + 1);
                    } else {
                        let j = choose|j: int| 0 <= j < found@.len() && #[trigger] found@[j] as usize == p;
                        assert(fuzzy_indices(ws[t as int], text@)[j] as usize == p);
                    }
                }
                if exists|u: int, m: int|
                    0 <= u < t + 1 && 0 <= m < fuzzy_indices(ws[u], text@).len()
                        && #[trigger] fuzzy_indices(ws[u], text@)[m] as usize == p {
                    let (u, m) = choose|u: int, m: int|
                        0 <= u < t + 1 && 0 <= m < fuzzy_indices(ws[u], text@).len()
                            && #[trigger] fuzzy_indices(ws[u], text@)[m] as usize == p;
                    if u < t {
                        assert(before_t.contains(p));
                    } else {
                        assert(found@[m] as usize == p);
                    }
                }
            }
        }
        t += 1;
    }
    positions
}


/// The ranges `[start, end)` that runs of consecutive positions form: a
/// position equal to the end of the current range extends it, any other
/// starts a new one.
pub open spec fn merged(p: Seq<usize>) -> Seq<(usize, usize)>
    decreases p.len(),
{
    if p.len() == 0 {
        seq![]
    } else {
        let r = merged(p.drop_last());
        let x = p.last();
        if r.len() > 0 && r.last().1 == x {
            r.update(r.len() - 1, (r.last().0, (x + 1) as usize))
        } else {
            r.push((x, (x + 1) as usize))
        }
    }
}

/// Merges match positions into ranges of consecutive positions.
pub fn merge_to_ranges(positions: &[usize]) -> (r: Vec<(usize, usize)>)
    requires
        forall|k: int| 0 <= k < positions@.len() ==> #[trigger] positions@[k] < usize::MAX,
    ensures
        r@ == merged(positions@),
{
    let n = positions.len();
    let mut out: Vec<(usize, usize)> = Vec::new();
    if n == 0 {
        assert(out@ =~= merged(positions@));
        return out;
    }
    let mut start = positions[0];
    let mut end = start + 1;
    assert(positions@.take(1).drop_last() =~= Seq::<usize>::empty());
    assert(positions@.take(1).last() == start);
    assert(merged(positions@.take(1).drop_last()).len() == 0);
    assert(merged(positions@.take(1)) =~= out@.push((start, end)));
    let mut i: usize = 1;
    while i < n
        invariant
            1 <= i <= n,
            n == positions@.len(),
            forall|k: int| 0 <= k < positions@.len() ==> #[trigger] positions@[k] < usize::MAX,
            merged(positions@.take(i as int)) == out@.push((start, end)),
        decreases n - i,
    {
        let pos = positions[i];
        assert(positions@.take(i + 1).drop_last() =~= positions@.take(i as int));
        assert(positions@.take(i + 1).last() == pos);
        if pos == end {
            end = pos + 1;
            assert(merged(positions@.take(i + 1)) =~= out@.push((start, end)));
        } else {
            out.push((start, end));
            start = pos;
            end = pos + 1;
            assert(merged(positions@.take(i + 1)) =~= out@.push((start, end)));
        }
        i += 1;
    }
    out.push((start, end));
    assert(positions@.take(n as int) =~= positions@);
    out
}

/// Some range of `r` covers `x`.
pub open spec fn covered(r: Seq<(usize, usize)>, x: usize) -> bool {
    exists|k: int| 0 <= k < r.len() && r[k].0 <= x < #[trigger] r[k].1
}

/// For positions in increasing order, the merged ranges cover exactly the
/// positions, none is empty, and each ends before the next starts with at
/// least one uncovered position between them.
pub proof fn lemma_merged_ranges(p: Seq<usize>)
    requires
        strictly_increasing(p),
        forall|k: int| 0 <= k < p.len() ==> #[trigger] p[k] < usize::MAX,
    ensures
        forall|x: usize| #[trigger] p.contains(x) <==> covered(merged(p), x),
        forall|k: int| 0 <= k < merged(p).len() ==> #[trigger] merged(p)[k].0 < merged(p)[k].1,
        forall|k: int, l: int|
            #![trigger merged(p)[k], merged(p)[l]]
            0 <= k < l < merged(p).len() ==> merged(p)[k].1 < merged(p)[l].0,
        p.len() > 0 ==> merged(p).len() > 0 && merged(p).last().1 == p.last() + 1,
    decreases p.len(),
{
    if p.len() > 0 {
        let q = p.drop_last();
        let x = p.last();
        assert(strictly_increasing(q));
        lemma_merged_ranges(q);
        let rq = merged(q);
        let r = merged(p);
        if q.len() > 0 {
            assert(q.last() < x);
        }
        assert forall|y: usize| #[trigger] p.contains(y) <==> (q.contains(y) || y == x) by {
            if p.contains(y) {
                let k = choose|k: int| 0 <= k < p.len() && p[k] == y;
                if k < q.len() {
                    assert(q[k] == y);
                }
            }
            if q.contains(y) {
                let k = choose|k: int| 0 <= k < q.len() && q[k] == y;
                assert(p[k] == y);
            }
            if y == x {
                assert(p[p.len() - 1] == x);
            }
        }
        if rq.len() > 0 && rq.last().1 == x {
            let last = rq.len() - 1;
            assert forall|y: usize| #[trigger] p.contains(y) <==> covered(r, y) by {
                if covered(rq, y) {
                    let k = choose|k: int| 0 <= k < rq.len() && rq[k].0 <= y < #[trigger] rq[k].1;
                    assert(r[k].0 <= y < r[k].1);
                }
                if covered(r, y) {
                    let k = choose|k: int| 0 <= k < r.len() && r[k].0 <= y < #[trigger] r[k].1;
                    if k < last {
                        assert(rq[k] == r[k]);
                        assert(covered(rq, y));
                    } else if y < x {
                        assert(rq[last].0 <= y < rq[last].1);
                        assert(covered(rq, y));
                    }
                }
                if y == x {
                    assert(r[last].0 <= y < r[last].1);
                }
            }
            assert forall|k: int, l: int|
                #![trigger r[k], r[l]]
                0 <= k < l < r.len() implies r[k].1 < r[l].0 by {
                assert(rq[k].1 < rq[l].0);
            }
        } else {
            assert forall|y: usize| #[trigger] p.contains(y) <==> covered(r, y) by {
                if covered(rq, y) {
                    let k = choose|k: int| 0 <= k < rq.len() && rq[k].0 <= y < #[trigger] rq[k].1;
                    assert(r[k].0 <= y < r[k].1);
                }
                if covered(r, y) {
                    let k = choose|k: int| 0 <= k < r.len() && r[k].0 <= y < #[trigger] r[k].1;
                    if k < rq.len() {
                        assert(rq[k] == r[k]);
                        assert(covered(rq, y));
                    }
                }
                if y == x {
                    assert(r[rq.len() as int].0 <= y < r[rq.len() as int].1);
                }
            }
            assert forall|k: int, l: int|
                #![trigger r[k], r[l]]
                0 <= k < l < r.len() implies r[k].1 < r[l].0 by {
                if l == rq.len() {
                    if k < rq.len() - 1 {
                        assert(rq[k].1 < rq[rq.len() - 1].0);
                    }
                } else {
                    assert(rq[k].1 < rq[l].0);
                }
            }
        }
    }
}

/// The columns a character takes when a query is shortened: its display
/// width as a `u16`, zero for control characters.
pub open spec fn char_cols(c: char) -> int {
    match char_width(c) {
        Some(w) => (w as u16) as int,
        None => 0,
    }
}

/// The columns of the characters of `cs` from position `i` on.
pub open spec fn suffix_cols(cs: Seq<char>, i: int) -> int
    decreases cs.len() - i,
{
    if i < 0 || i >= cs.len() {
        0
    } else {
        char_cols(cs[i]) + suffix_cols(cs, i + 1)
    }
}

/// The ellipsis that marks a shortened query.
pub open spec fn ellipsis() -> Seq<char> {
    seq!['\u{2026}']
}

/// Fits `query` into `max_width` columns: unchanged when its width (as a
/// `u16`) fits, else an ellipsis followed by the longest tail of the query
/// that fits in one column less.
pub fn truncate_query_left(query: &str, max_width: u16) -> (r: String)
    ensures
        (text_width(query@) as u16) <= max_width ==> r@ == query@,
        !((text_width(query@) as u16) <= max_width) ==> exists|i: int|
            0 <= i <= query@.len() && r@ == ellipsis() + query@.skip(i) && #[trigger] suffix_cols(
                query@,
                i,
            ) <= sat_sub(max_width as int, 1) && (i == 0 || suffix_cols(query@, i - 1) > sat_sub(
                max_width as int,
                1,
            )),
{
    let full_w = display_width_of_text(query) as u16;
    if full_w <= max_width {
        return query.to_owned();
    }
    let avail = max_width.saturating_sub(1);
    let cs = chars_of(query);
    let n = cs.len();
    let mut i: usize = n;
    let mut w: u32 = 0;
    let mut done = false;
    while i > 0 && !done
        invariant
            i <= n,
            n == cs@.len(),
            cs@ == query@,
            w == suffix_cols(cs@, i as int),
            w <= avail,
            done ==> i > 0 && suffix_cols(cs@, i - 1) > avail,
        decreases i, if done { 0int } else { 1int },
    {
        let cw: u16 = match display_width_of_char(cs[i - 1]) {
            Some(v) => v as u16,
            None => 0,
        };
        assert(cw == char_cols(cs@[i - 1]));
        if w + cw as u32 > avail as u32 {
            done = true;
        } else {
            w = w + cw as u32;
            i -= 1;
        }
    }
    let mut out: Vec<char> = Vec::new();
    out.push('\u{2026}');
    let mut k: usize = i;
    while k < n
        invariant
            i <= k <= n,
            n == cs@.len(),
            out@ == ellipsis() + cs@.subrange(i as int, k as int),
        decreases n - k,
    {
        out.push(cs[k]);
        k += 1;
        assert(out@ =~= ellipsis() + cs@.subrange(i as int, k as int));
    }
    assert(cs@.subrange(i as int, n as int) =~= cs@.skip(i as int));
    let r = string_from_chars(out.as_slice());
    assert(suffix_cols(query@, i as int) <= sat_sub(max_width as int, 1));
    r
}

} // verus!

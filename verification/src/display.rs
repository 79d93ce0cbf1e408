//! What the model and provider pages show: the focused row and its position,
//! the search box and the rows of the search list with their highlighted
//! matches, and the line of exact chart values.

use vstd::prelude::*;
use vstd::utf8::{encode_utf8, is_char_boundary};

use crate::clock::{format_month_day, month_day_text};
use crate::text::{chars_of, decimal, decimal_chars, push_all, string_from_chars, trim, trim_chars};
use crate::search::{
    covered, fuzzy_match_positions, lemma_merged_ranges, merge_to_ranges, merged, position_matched,
    strictly_increasing, within_text, SearchState,
};

verus! {

/// The row to focus: the selected search result when a search is open and
/// its selection is within the results, else `focused`.
pub open spec fn focus_of(search: Option<&SearchState>, focused: usize) -> usize {
    match search {
        Some(s) => if s.selected < s.filtered_indices@.len() {
            s.filtered_indices@[s.selected as int]
        } else {
            focused
        },
        None => focused,
    }
}

/// The row to focus on a model or provider page.
pub fn effective_focus(search: Option<&SearchState>, focused: usize) -> (r: usize)
    ensures
        r == focus_of(search, focused),
{
    match search {
        Some(s) => if s.selected < s.filtered_indices.len() {
            s.filtered_indices[s.selected]
        } else {
            focused
        },
        None => focused,
    }
}

/// The rows the search list shows: up to five results from the scroll
/// offset on, each with its item index and whether it is the selected one.
pub fn visible_rows(search: &SearchState) -> (r: Vec<(usize, bool)>)
    requires
        search.scroll_offset <= search.filtered_indices@.len(),
    ensures
        r@.len() == if search.filtered_indices@.len() - search.scroll_offset > 5 {
            5
        } else {
            search.filtered_indices@.len() - search.scroll_offset
        },
        forall|l: int|
            0 <= l < r@.len() ==> #[trigger] r@[l] == (
                search.filtered_indices@[search.scroll_offset + l],
                search.scroll_offset + l == search.selected,
            ),
{
    let total = search.filtered_indices.len();
    let start = search.scroll_offset;
    let end = if total - start > 5 {
        start + 5
    } else {
        total
    };
    let mut r: Vec<(usize, bool)> = Vec::new();
    let mut i: usize = start;
    while i < end
        invariant
            start <= i <= end <= total,
            total == search.filtered_indices@.len(),
            start == search.scroll_offset,
            r@.len() == i - start,
            forall|l: int|
                0 <= l < r@.len() ==> #[trigger] r@[l] == (
                    search.filtered_indices@[start + l],
                    start + l == search.selected,
                ),
        decreases end - i,
    {
        r.push((search.filtered_indices[i], i == search.selected));
        i += 1;
    }
    r
}

/// The position shown for the focused row among `count` rows: its 1-based
/// place (within the list) and the number of rows, at least one.
pub fn focus_position(focused: usize, count: usize) -> (r: (usize, usize))
    ensures
        r.1 == if count > 1 {
            count
        } else {
            1
        },
        r.0 == if focused < r.1 - 1 {
            focused + 1
        } else {
            r.1 as int
        },
{
    let total = if count > 1 {
        count
    } else {
        1
    };
    let place = if focused < total - 1 {
        focused + 1
    } else {
        total
    };
    (place, total)
}

/// The hint beside the search box: the number of results, the number of
/// items, and the keys.
pub open spec fn hint_text(results: nat, items: nat) -> Seq<char> {
    decimal(results) + "/"@ + decimal(items) + " | \u{2191}/\u{2193} | <esc> quit | <enter> select"@
}

/// The hint shown beside the search box for `results` of `items` items.
pub fn search_hint(results: usize, items: usize) -> (r: String)
    ensures
        r@ == hint_text(results as nat, items as nat),
{
    let mut v: Vec<char> = Vec::new();
    push_all(&mut v, decimal_chars(results as u64).as_slice());
    push_all(&mut v, chars_of("/").as_slice());
    push_all(&mut v, decimal_chars(items as u64).as_slice());
    push_all(&mut v, chars_of(" | \u{2191}/\u{2193} | <esc> quit | <enter> select").as_slice());
    string_from_chars(v.as_slice())
}

/// The search box's text: the (shortened) query followed by a cursor.
pub fn search_input(display_query: &str) -> (r: String)
    ensures
        r@ == display_query@.push('_'),
{
    let mut v = chars_of(display_query);
    v.push('_');
    string_from_chars(v.as_slice())
}

/// The position of the focused row among `count` rows, as shown in the
/// page header: `place/total`.
pub fn position_text(focused: usize, count: usize) -> (r: String)
    ensures
        ({
            let total: int = if count > 1 {
                count as int
            } else {
                1
            };
            let place: int = if focused < total - 1 {
                focused + 1
            } else {
                total
            };
            r@ == decimal(place as nat) + "/"@ + decimal(total as nat)
        }),
{
    let (place, total) = focus_position(focused, count);
    let mut v: Vec<char> = Vec::new();
    push_all(&mut v, decimal_chars(place as u64).as_slice());
    push_all(&mut v, chars_of("/").as_slice());
    push_all(&mut v, decimal_chars(total as u64).as_slice());
    string_from_chars(v.as_slice())
}

/// The segments of an id of length `len` around highlighted `ranges`,
/// up to the last range: plain text before a range that starts after the
/// cursor, then the range; with the cursor after the last range.
pub open spec fn segments_upto(ranges: Seq<(usize, usize)>) -> (Seq<(usize, usize, bool)>, usize)
    decreases ranges.len(),
{
    if ranges.len() == 0 {
        (seq![], 0)
    } else {
        let (s, c) = segments_upto(ranges.drop_last());
        let (a, b) = ranges.last();
        let s1 = if a > c {
            s.push((c, a, false))
        } else {
            s
        };
        (s1.push((a, b, true)), b)
    }
}

/// The segments of an id of length `len`: those of the ranges, then the
/// plain rest after the cursor.
pub open spec fn segments(len: usize, ranges: Seq<(usize, usize)>) -> Seq<(usize, usize, bool)> {
    let (s, c) = segments_upto(ranges);
    if c < len {
        s.push((c, len, false))
    } else {
        s
    }
}

/// Splits an id of length `len` into plain and highlighted segments
/// `(start, end, highlighted)`.
pub fn highlight_segments(len: usize, ranges: &Vec<(usize, usize)>) -> (r: Vec<(usize, usize, bool)>)
    ensures
        r@ == segments(len, ranges@),
{
    let mut out: Vec<(usize, usize, bool)> = Vec::new();
    let mut cursor: usize = 0;
    let mut k: usize = 0;
    assert(ranges@.take(0) =~= Seq::<(usize, usize)>::empty());
    while k < ranges.len()
        invariant
            k <= ranges@.len(),
            segments_upto(ranges@.take(k as int)) == (out@, cursor),
        decreases ranges@.len() - k,
    {
        let (a, b) = ranges[k];
        assert(ranges@.take(k + 1).drop_last() =~= ranges@.take(k as int));
        assert(ranges@.take(k + 1).last() == (a, b));
        if a > cursor {
            out.push((cursor, a, false));
        }
        out.push((a, b, true));
        cursor = b;
        k += 1;
    }
    assert(ranges@.take(ranges@.len() as int) =~= ranges@);
    if cursor < len {
        out.push((cursor, len, false));
    }
    out
}

/// The segments tile `[0, end)`: each starts where the previous ended.
pub open spec fn tiles(s: Seq<(usize, usize, bool)>, end: int) -> bool {
    &&& s.len() > 0 ==> s[0].0 == 0 && s.last().1 == end
    &&& s.len() == 0 ==> end == 0
    &&& forall|k: int| 0 <= k < s.len() ==> #[trigger] s[k].0 < s[k].1
    &&& forall|k: int| 0 <= k < s.len() - 1 ==> #[trigger] s[k].1 == s[k + 1].0
}

proof fn lemma_segments_upto_tile(ranges: Seq<(usize, usize)>)
    requires
        forall|k: int| 0 <= k < ranges.len() ==> #[trigger] ranges[k].0 < ranges[k].1,
        forall|k: int| 0 <= k < ranges.len() - 1 ==> #[trigger] ranges[k].1 < ranges[k + 1].0,
    ensures
        tiles(segments_upto(ranges).0, segments_upto(ranges).1 as int),
        ranges.len() > 0 ==> segments_upto(ranges).1 == ranges.last().1,
        ranges.len() > 0 ==> segments_upto(ranges).0.len() > 0 && segments_upto(ranges).0.last()
            == (ranges.last().0, ranges.last().1, true),
    decreases ranges.len(),
{
    if ranges.len() > 0 {
        let q = ranges.drop_last();
        lemma_segments_upto_tile(q);
        let (s, c) = segments_upto(q);
        let (a, b) = ranges.last();
        if q.len() > 0 {
            assert(q.last().1 < a);
        }
        let s1 = if a > c {
            s.push((c, a, false))
        } else {
            s
        };
        assert(tiles(s1, a as int));
        let s2 = s1.push((a, b, true));
        assert forall|k: int| 0 <= k < s2.len() - 1 implies #[trigger] s2[k].1 == s2[k + 1].0 by {
            if k < s1.len() - 1 {
                assert(s2[k] == s1[k] && s2[k + 1] == s1[k + 1]);
            }
        }
    }
}

/// Position `x` lies in a highlighted segment of `s`.
pub open spec fn highlighted(s: Seq<(usize, usize, bool)>, x: usize) -> bool {
    exists|k: int| 0 <= k < s.len() && (#[trigger] s[k]).2 && s[k].0 <= x < s[k].1
}

proof fn lemma_segments_upto_highlight(ranges: Seq<(usize, usize)>)
    ensures
        forall|x: usize| #[trigger] highlighted(segments_upto(ranges).0, x) <==> covered(ranges, x),
    decreases ranges.len(),
{
    if ranges.len() > 0 {
        let q = ranges.drop_last();
        lemma_segments_upto_highlight(q);
        let (s, c) = segments_upto(q);
        let (a, b) = ranges.last();
        let s1 = if a > c {
            s.push((c, a, false))
        } else {
            s
        };
        let s2 = s1.push((a, b, true));
        assert(segments_upto(ranges).0 == s2);
        assert forall|x: usize| #[trigger] highlighted(s2, x) <==> covered(ranges, x) by {
            if highlighted(s2, x) {
                let k = choose|k: int| 0 <= k < s2.len() && (#[trigger] s2[k]).2 && s2[k].0 <= x < s2[k].1;
                if k == s2.len() - 1 {
                    assert(ranges[ranges.len() - 1].0 <= x < ranges[ranges.len() - 1].1);
                } else if k < s.len() {
                    assert(s2[k] == s[k]);
                    assert(highlighted(s, x));
                    let j = choose|j: int| 0 <= j < q.len() && q[j].0 <= x < #[trigger] q[j].1;
                    assert(ranges[j] == q[j]);
                } else {
                    assert(s2[k] == (c, a, false));
                }
            }
            if covered(ranges, x) {
                let j = choose|j: int| 0 <= j < ranges.len() && ranges[j].0 <= x < #[trigger] ranges[j].1;
                if j == ranges.len() - 1 {
                    assert(s2[s2.len() - 1] == (a, b, true));
                } else {
                    assert(q[j] == ranges[j]);
                    assert(covered(q, x));
                    assert(highlighted(segments_upto(q).0, x));
                    assert(highlighted(s, x));
                    let k = choose|k: int| 0 <= k < s.len() && (#[trigger] s[k]).2 && s[k].0 <= x < s[k].1;
                    assert(s2[k] == s[k]);
                }
            }
        }
    }
}

/// When the highlighted ranges are non-empty, in order, apart, and within
/// the id, the segments tile the whole id, and a position is highlighted
/// exactly when a range covers it.
pub proof fn lemma_segments_tile(len: usize, ranges: Seq<(usize, usize)>)
    requires
        forall|k: int| 0 <= k < ranges.len() ==> #[trigger] ranges[k].0 < ranges[k].1,
        forall|k: int| 0 <= k < ranges.len() - 1 ==> #[trigger] ranges[k].1 < ranges[k + 1].0,
        ranges.len() > 0 ==> ranges.last().1 <= len,
    ensures
        tiles(segments(len, ranges), len as int),
        forall|x: usize| #[trigger] highlighted(segments(len, ranges), x) <==> covered(ranges, x),
{
    lemma_segments_upto_tile(ranges);
    lemma_segments_upto_highlight(ranges);
    let (s, c) = segments_upto(ranges);
    if c < len {
        let s2 = s.push((c, len, false));
        assert forall|k: int| 0 <= k < s2.len() - 1 implies #[trigger] s2[k].1 == s2[k + 1].0 by {
            if k < s.len() - 1 {
                assert(s2[k] == s[k] && s2[k + 1] == s[k + 1]);
            }
        }
        assert forall|x: usize| #[trigger] highlighted(s2, x) <==> highlighted(s, x) by {
            if highlighted(s2, x) {
                let k = choose|k: int| 0 <= k < s2.len() && (#[trigger] s2[k]).2 && s2[k].0 <= x < s2[k].1;
                assert(k < s.len());
                assert(s2[k] == s[k]);
            }
            if highlighted(s, x) {
                let k = choose|k: int| 0 <= k < s.len() && (#[trigger] s[k]).2 && s[k].0 <= x < s[k].1;
                assert(s2[k] == s[k]);
            }
        }
    }
}

/// Highlighting the merged match positions of an id of length `len`,
/// for positions in increasing order and within the id: the segments tile
/// the id, and the highlighted positions are exactly the matched ones.
pub proof fn lemma_highlight_matches(len: usize, positions: Seq<usize>)
    requires
        strictly_increasing(positions),
        forall|k: int| 0 <= k < positions.len() ==> #[trigger] positions[k] < len,
    ensures
        tiles(segments(len, merged(positions)), len as int),
        forall|x: usize|
            #[trigger] highlighted(segments(len, merged(positions)), x) <==> positions.contains(x),
{
    lemma_merged_ranges(positions);
    let r = merged(positions);
    assert forall|k: int| 0 <= k < r.len() - 1 implies #[trigger] r[k].1 < r[k + 1].0 by {
        assert(r[k].1 < r[k + 1].0);
    }
    if positions.len() > 0 {
        assert(positions[positions.len() - 1] < len);
    }
    lemma_segments_tile(len, r);
}

/// Every range of `ranges` starts and ends on a character boundary of the
/// UTF-8 bytes of `id`.
pub open spec fn cuts_at_chars(id: Seq<char>, ranges: Seq<(usize, usize)>) -> bool {
    forall|k: int|
        0 <= k < ranges.len() ==> is_char_boundary(encode_utf8(id), (#[trigger] ranges[k]).0 as int)
            && is_char_boundary(encode_utf8(id), ranges[k].1 as int)
}

/// The segments `(start, end, highlighted)` of a search-list row that shows
/// `id` for `query`, as byte offsets into `id`: the whole id unhighlighted
/// when the query is blank or matches nothing, else the id split around the
/// merged match positions so that exactly the matched positions are
/// highlighted. `None` when a piece would not start or end on a character
/// boundary, where slicing the id there is impossible.
#[verifier::loop_isolation(false)]
pub fn search_row_segments(query: &str, id: &str) -> (r: Option<Vec<(usize, usize, bool)>>)
    ensures
        ({
            let n = encode_utf8(id@).len();
            let blank = trim(query@).len() == 0;
            let any_match = exists|x: usize| #[trigger] position_matched(query@, id@, x);
            &&& blank || !any_match ==> (r matches Some(v) && v@ == seq![
                (0usize, n as usize, false),
            ])
            &&& !blank && any_match ==> exists|p: Seq<usize>|
                #[trigger] strictly_increasing(p) && (forall|x: usize|
                    #[trigger] p.contains(x) <==> position_matched(query@, id@, x)) && (r is None
                    <==> !cuts_at_chars(id@, merged(p))) && (r matches Some(v) ==> v@ == segments(
                    n as usize,
                    merged(p),
                ) && tiles(v@, n as int) && forall|x: usize|
                    #[trigger] highlighted(v@, x) <==> position_matched(query@, id@, x))
        }),
{
    let qc = chars_of(query);
    let bytes = id.as_bytes();
    let n = bytes.len();
    if trim_chars(qc.as_slice()).len() == 0 {
        let v: Vec<(usize, usize, bool)> = vec![(0, n, false)];
        return Some(v);
    }
    let p = fuzzy_match_positions(query, id);
    if p.len() == 0 {
        proof {
            assert forall|x: usize| !position_matched(query@, id@, x) by {
                if position_matched(query@, id@, x) {
                    assert(p@.contains(x));
                }
            }
        }
        let v: Vec<(usize, usize, bool)> = vec![(0, n, false)];
        return Some(v);
    }
    proof {
        assert forall|k: int| 0 <= k < p@.len() implies #[trigger] p@[k] < n by {
            assert(within_text(p@[k] as int, id));
        }
        assert(p@.contains(p@[0]));
        assert(position_matched(query@, id@, p@[0]));
        lemma_highlight_matches(n, p@);
    }
    let ranges = merge_to_ranges(p.as_slice());
    let mut k: usize = 0;
    while k < ranges.len()
        invariant
            k <= ranges@.len(),
            forall|j: int|
                0 <= j < k ==> is_char_boundary(encode_utf8(id@), (#[trigger] ranges@[j]).0 as int)
                    && is_char_boundary(encode_utf8(id@), ranges@[j].1 as int),
        decreases ranges@.len() - k,
    {
        let (a, b) = ranges[k];
        if !id.is_char_boundary(a) || !id.is_char_boundary(b) {
            proof {
                assert(!cuts_at_chars(id@, ranges@));
            }
            return None;
        }
        k += 1;
    }
    let segs = highlight_segments(n, &ranges);
    Some(segs)
}

/// Entry `i` of a chart series has a positive value.
pub open spec fn positive_at(values: Seq<(i32, u64, bool)>, i: int) -> bool {
    0 <= i < values.len() && values[i].2
}

/// Entry `i` is the last positive entry.
pub open spec fn latest_at(values: Seq<(i32, u64, bool)>, i: int) -> bool {
    positive_at(values, i) && forall|j: int| i < j ==> !#[trigger] positive_at(values, j)
}

/// Entry `i` is the last of the positive entries with the largest value.
pub open spec fn peak_at(values: Seq<(i32, u64, bool)>, i: int) -> bool {
    &&& positive_at(values, i)
    &&& forall|j: int| #[trigger] positive_at(values, j) ==> values[j].1 <= values[i].1
    &&& forall|j: int| i < j && #[trigger] positive_at(values, j) ==> values[j].1 < values[i].1
}

/// The latest and the peak of the positive values of a chart series (day,
/// exact value, positive): the last positive entry, and the last among the
/// positive entries with the largest value; `None` when none is positive.
pub fn chart_exact_values(values: &Vec<(i32, u64, bool)>) -> (r: Option<((i32, u64), (i32, u64))>)
    ensures
        r is None <==> forall|i: int| !#[trigger] positive_at(values@, i),
        r matches Some(x) ==> exists|i: int|
            #[trigger] latest_at(values@, i) && x.0 == (values@[i].0, values@[i].1),
        r matches Some(x) ==> exists|i: int|
            #[trigger] peak_at(values@, i) && x.1 == (values@[i].0, values@[i].1),
{
    let n = values.len();
    let mut latest: Option<(i32, u64)> = None;
    let mut peak: Option<(i32, u64)> = None;
    let ghost mut li: int = 0;
    let ghost mut pi: int = 0;
    let mut k: usize = 0;
    while k < n
        invariant
            k <= n,
            n == values@.len(),
            latest is None <==> forall|i: int| 0 <= i < k ==> !#[trigger] positive_at(values@, i),
            peak is None <==> latest is None,
            latest is Some ==> 0 <= li < k && positive_at(values@, li) && latest == Some(
                (values@[li].0, values@[li].1),
            ) && forall|j: int| li < j < k ==> !#[trigger] positive_at(values@, j),
            peak is Some ==> 0 <= pi < k && positive_at(values@, pi) && peak == Some(
                (values@[pi].0, values@[pi].1),
            ) && (forall|j: int|
                0 <= j < k && #[trigger] positive_at(values@, j) ==> values@[j].1 <= values@[pi].1)
                && (forall|j: int|
                pi < j < k && #[trigger] positive_at(values@, j) ==> values@[j].1 < values@[pi].1),
        decreases n - k,
    {
        let (day, value, positive) = values[k];
        assert(positive == positive_at(values@, k as int));
        if positive {
            latest = Some((day, value));
            proof {
                li = k as int;
            }
            let take = match peak {
                Some((_, best)) => value >= best,
                None => true,
            };
            if take {
                peak = Some((day, value));
                proof {
                    pi = k as int;
                }
            }
        }
        k += 1;
    }
    match (latest, peak) {
        (Some(l), Some(p)) => {
            assert(latest_at(values@, li));
            assert(peak_at(values@, pi));
            Some((l, p))
        },
        _ => None,
    }
}

/// The latest and the peak entries of a chart series are each determined by
/// the series, and the peak value is at least the latest one.
pub proof fn lemma_chart_points(values: Seq<(i32, u64, bool)>, i: int, i2: int, j: int, j2: int)
    requires
        latest_at(values, i),
        latest_at(values, i2),
        peak_at(values, j),
        peak_at(values, j2),
    ensures
        i == i2,
        j == j2,
        values[i].1 <= values[j].1,
{
    if i < i2 {
        assert(!positive_at(values, i2));
    }
    if i2 < i {
        assert(!positive_at(values, i));
    }
    if j < j2 {
        assert(values[j2].1 < values[j].1);
        assert(values[j].1 <= values[j2].1);
    }
    if j2 < j {
        assert(values[j].1 < values[j2].1);
        assert(values[j2].1 <= values[j].1);
    }
    assert(positive_at(values, i));
}

/// The date shown for day `d` in the chart line; `?` where the calendar has
/// no such day.
pub open spec fn month_day_label(d: i32) -> Seq<char> {
    match month_day_text(d) {
        Some(t) => t,
        None => seq!['?'],
    }
}

/// The pieces of the chart line, each with whether it is shown muted.
pub open spec fn pieces_view(p: Seq<(String, bool)>) -> Seq<(Seq<char>, bool)> {
    p.map_values(|x: (String, bool)| (x.0@, x.1))
}

/// The chart line for a series whose latest positive entry is `i` and whose
/// peak is `j`.
pub open spec fn value_pieces(values: Seq<(i32, u64, bool)>, i: int, j: int) -> Seq<(Seq<char>, bool)> {
    seq![
        ("Exact tokens \u{2014} "@, true),
        ("latest "@ + month_day_label(values[i].0) + ": "@ + decimal(values[i].1 as nat), false),
        (" | "@, true),
        ("peak "@ + month_day_label(values[j].0) + ": "@ + decimal(values[j].1 as nat), false),
        (" | snapshot --daily"@, true),
    ]
}

fn month_day_chars(d: i32) -> (r: Vec<char>)
    ensures
        r@ == month_day_label(d),
{
    match format_month_day(d) {
        Some(t) => chars_of(t.as_str()),
        None => {
            let v: Vec<char> = vec!['?'];
            assert(v@ =~= seq!['?']);
            v
        },
    }
}

fn value_piece(label: &str, day: i32, value: u64) -> (r: String)
    ensures
        r@ == label@ + month_day_label(day) + ": "@ + decimal(value as nat),
{
    let mut v = chars_of(label);
    push_all(&mut v, month_day_chars(day).as_slice());
    push_all(&mut v, chars_of(": ").as_slice());
    push_all(&mut v, decimal_chars(value).as_slice());
    string_from_chars(v.as_slice())
}

/// `pieces` is the line under a chart for `series`: `No chart values`
/// without a series, `Exact values: 0 tokens` when no day of the series has
/// tokens, else the exact tokens of the latest and of the peak day.
pub open spec fn chart_line(series: Option<Seq<(i32, u64, bool)>>, pieces: Seq<(Seq<char>, bool)>) -> bool {
    match series {
        None => pieces == seq![("No chart values"@, true)],
        Some(values) => if forall|i: int| !#[trigger] positive_at(values, i) {
            pieces == seq![("Exact values: 0 tokens"@, true)]
        } else {
            exists|i: int, j: int|
                #[trigger] latest_at(values, i) && #[trigger] peak_at(values, j) && pieces
                    == value_pieces(values, i, j)
        },
    }
}

/// The line under a model or provider chart for the series of the focused
/// row, as pieces with whether each is shown muted.
pub fn chart_value_line(series: Option<&Vec<(i32, u64, bool)>>) -> (r: Vec<(String, bool)>)
    ensures
        chart_line(
            match series {
                Some(v) => Some(v@),
                None => None,
            },
            pieces_view(r@),
        ),
{
    let mut out: Vec<(String, bool)> = Vec::new();
    let values = match series {
        Some(v) => v,
        None => {
            out.push(("No chart values".to_owned(), true));
            assert(pieces_view(out@) =~= seq![("No chart values"@, true)]);
            return out;
        },
    };
    match chart_exact_values(values) {
        None => {
            out.push(("Exact values: 0 tokens".to_owned(), true));
            assert(pieces_view(out@) =~= seq![("Exact values: 0 tokens"@, true)]);
            out
        },
        Some(((latest_day, latest_value), (peak_day, peak_value))) => {
            let ghost i = choose|i: int| #[trigger] latest_at(values@, i) && (latest_day, latest_value) == (values@[i].0, values@[i].1);
            let ghost j = choose|j: int| #[trigger] peak_at(values@, j) && (peak_day, peak_value) == (values@[j].0, values@[j].1);
            out.push(("Exact tokens \u{2014} ".to_owned(), true));
            out.push((value_piece("latest ", latest_day, latest_value), false));
            out.push((" | ".to_owned(), true));
            out.push((value_piece("peak ", peak_day, peak_value), false));
            out.push((" | snapshot --daily".to_owned(), true));
            assert(pieces_view(out@) =~= value_pieces(values@, i, j));
            assert(positive_at(values@, i));
            assert(chart_line(Some(values@), pieces_view(out@)));
            out
        },
    }
}


/// The position of the first series named `id`, or -1.
pub open spec fn first_series(id: Seq<char>, series: Seq<(String, Vec<(i32, u64, bool)>)>) -> int
    decreases series.len(),
{
    if series.len() == 0 {
        -1
    } else if first_series(id, series.drop_last()) >= 0 {
        first_series(id, series.drop_last())
    } else if series.last().0@ == id {
        series.len() - 1
    } else {
        -1
    }
}

/// The series shown for the focused id: the first series with that id.
pub open spec fn focused_series(
    focused_id: Option<Seq<char>>,
    series: Seq<(String, Vec<(i32, u64, bool)>)>,
) -> Option<Seq<(i32, u64, bool)>> {
    match focused_id {
        None => None,
        Some(id) => if first_series(id, series) >= 0 {
            Some(series[first_series(id, series)].1@)
        } else {
            None
        },
    }
}

/// The line under a chart of named series for the focused row's id: that of
/// the first series with the id, `No chart values` without a focused row or
/// without such a series.
pub fn focused_chart_line(focused_id: Option<&str>, series: &Vec<(String, Vec<(i32, u64, bool)>)>) -> (r:
    Vec<(String, bool)>)
    ensures
        chart_line(
            focused_series(
                match focused_id {
                    Some(id) => Some(id@),
                    None => None,
                },
                series@,
            ),
            pieces_view(r@),
        ),
{
    let id = match focused_id {
        Some(id) => chars_of(id),
        None => return chart_value_line(None),
    };
    let mut found: Option<usize> = None;
    let mut k: usize = 0;
    assert(series@.take(0) =~= Seq::<(String, Vec<(i32, u64, bool)>)>::empty());
    while k < series.len()
        invariant
            k <= series@.len(),
            match found {
                Some(i) => i < k && first_series(id@, series@.take(k as int)) == i,
                None => first_series(id@, series@.take(k as int)) < 0,
            },
        decreases series@.len() - k,
    {
        assert(series@.take(k + 1).drop_last() =~= series@.take(k as int));
        assert(series@.take(k + 1).last() == series@[k as int]);
        if found.is_none() {
            let name = chars_of(series[k].0.as_str());
            if crate::queries::chars_equal(name.as_slice(), id.as_slice()) {
                found = Some(k);
            }
        }
        k += 1;
    }
    assert(series@.take(series@.len() as int) =~= series@);
    match found {
        Some(i) => chart_value_line(Some(&series[i].1)),
        None => chart_value_line(None),
    }
}

/// What a model or provider page shows under its chart.
#[derive(Clone, Copy, Debug, PartialEq, Eq, Structural)]
pub enum PagePanel {
    /// The search box and its result list.
    Search,
    /// The focused row's header and details.
    Detail,
    /// The note that the range has no activity.
    Empty,
}

/// The panel of a page: the search while one is open, else the focused row's
/// details when that row exists among `rows` rows, else the empty note.
pub fn page_panel(search: Option<&SearchState>, focused: usize, rows: usize) -> (r: PagePanel)
    ensures
        r == if search is Some {
            PagePanel::Search
        } else if focused < rows {
            PagePanel::Detail
        } else {
            PagePanel::Empty
        },
{
    match search {
        Some(_) => PagePanel::Search,
        None => if focused < rows {
            PagePanel::Detail
        } else {
            PagePanel::Empty
        },
    }
}

/// Whether the search list shows a scrollbar: when there are more results
/// than its five rows.
pub fn shows_scrollbar(results: usize) -> (r: bool)
    ensures
        r == (results > 5),
{
    results > 5
}

} // verus!

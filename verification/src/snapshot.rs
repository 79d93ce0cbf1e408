//! Plain-text usage snapshots: boxed sections with the overview, an exact
//! daily token chart, and the model and provider tables.

use vstd::prelude::*;
use vstd::utf8::encode_utf8;

use crate::clock::{day_text, format_day};
use crate::records::TokenUsage;
use crate::text::{
    chars_of, decimal, decimal_chars, pad_left, pad_right, push_all, push_padded_left,
    push_padded_right, string_from_chars,
};

verus! {

/// `parts` joined with `sep` between consecutive parts.
pub open spec fn joined(parts: Seq<Seq<char>>, sep: Seq<char>) -> Seq<char>
    decreases parts.len(),
{
    if parts.len() == 0 {
        seq![]
    } else if parts.len() == 1 {
        parts[0]
    } else {
        joined(parts.drop_last(), sep) + sep + parts.last()
    }
}

/// Joins `parts` with `sep`.
pub fn join_parts(parts: &Vec<Vec<char>>, sep: &[char]) -> (r: Vec<char>)
    ensures
        r@ == joined(parts@.map_values(|p: Vec<char>| p@), sep@),
{
    let ghost pv = parts@.map_values(|p: Vec<char>| p@);
    let mut out: Vec<char> = Vec::new();
    let mut k: usize = 0;
    assert(pv.take(0) =~= Seq::<Seq<char>>::empty());
    while k < parts.len()
        invariant
            k <= parts@.len(),
            pv == parts@.map_values(|p: Vec<char>| p@),
            out@ == joined(pv.take(k as int), sep@),
        decreases parts@.len() - k,
    {
        assert(pv.take(k + 1).drop_last() =~= pv.take(k as int));
        assert(pv.take(k + 1).last() == parts@[k as int]@);
        if k > 0 {
            push_all(&mut out, sep);
        } else {
            assert(pv.take(1) =~= seq![parts@[0]@]);
        }
        push_all(&mut out, parts[k].as_slice());
        k += 1;
    }
    assert(pv.take(parts@.len() as int) =~= pv);
    out
}

/// The number of bytes of the UTF-8 encoding of `s`, as `str::len` reports
/// it.
pub open spec fn byte_len(s: Seq<char>) -> usize {
    encode_utf8(s).len() as usize
}

/// The width of a boxed section: the longest of its title and lines, in
/// bytes.
pub open spec fn box_width(title: Seq<char>, lines: Seq<Seq<char>>) -> usize
    decreases lines.len(),
{
    if lines.len() == 0 {
        byte_len(title)
    } else {
        let w = box_width(title, lines.drop_last());
        let l = byte_len(lines.last());
        if l > w {
            l
        } else {
            w
        }
    }
}

/// `k` copies of `c`.
pub open spec fn repeated(c: char, k: nat) -> Seq<char> {
    Seq::new(k, |i: int| c)
}

/// The border of a box of width `w`.
pub open spec fn box_border(w: nat) -> Seq<char> {
    seq!['+'] + repeated('-', w + 2) + seq!['+']
}

/// One row of a box of width `w`.
pub open spec fn box_row(s: Seq<char>, w: nat) -> Seq<char> {
    seq!['|', ' '] + pad_right(s, w) + seq![' ', '|']
}

/// A section: a border, the title row, a border, a row per line, and a
/// closing border, joined by newlines.
pub open spec fn boxed(title: Seq<char>, lines: Seq<Seq<char>>) -> Seq<char> {
    let w = box_width(title, lines) as nat;
    joined(
        seq![box_border(w), box_row(title, w), box_border(w)] + lines.map_values(
            |l: Seq<char>| box_row(l, w),
        ) + seq![box_border(w)],
        seq!['\n'],
    )
}

fn byte_length(s: &[char]) -> (r: usize)
    ensures
        r == byte_len(s@),
{
    let t = string_from_chars(s);
    t.as_str().len()
}

fn push_repeated(v: &mut Vec<char>, c: char, k: usize)
    ensures
        final(v)@ == old(v)@ + repeated(c, k as nat),
{
    let ghost start = v@;
    let mut i: usize = 0;
    while i < k
        invariant
            i <= k,
            v@ == start + repeated(c, i as nat),
        decreases k - i,
    {
        v.push(c);
        i += 1;
        assert(v@ =~= start + repeated(c, i as nat));
    }
}

fn make_border(w: usize) -> (r: Vec<char>)
    ensures
        r@ == box_border(w as nat),
{
    let mut v: Vec<char> = Vec::new();
    v.push('+');
    push_repeated(&mut v, '-', w);
    v.push('-');
    v.push('-');
    v.push('+');
    assert(v@ =~= box_border(w as nat));
    v
}

fn make_row(s: &[char], w: usize) -> (r: Vec<char>)
    ensures
        r@ == box_row(s@, w as nat),
{
    let mut v: Vec<char> = Vec::new();
    v.push('|');
    v.push(' ');
    push_padded_right(&mut v, s, w);
    v.push(' ');
    v.push('|');
    assert(v@ =~= box_row(s@, w as nat));
    v
}

/// Draws a titled box around `lines`.
pub fn boxed_section(title: &[char], lines: &Vec<Vec<char>>) -> (r: Vec<char>)
    ensures
        r@ == boxed(title@, lines@.map_values(|l: Vec<char>| l@)),
{
    let ghost lv = lines@.map_values(|l: Vec<char>| l@);
    let mut width = byte_length(title);
    let mut k: usize = 0;
    assert(lv.take(0) =~= Seq::<Seq<char>>::empty());
    while k < lines.len()
        invariant
            k <= lines@.len(),
            lv == lines@.map_values(|l: Vec<char>| l@),
            width == box_width(title@, lv.take(k as int)),
        decreases lines@.len() - k,
    {
        assert(lv.take(k + 1).drop_last() =~= lv.take(k as int));
        assert(lv.take(k + 1).last() == lines@[k as int]@);
        let l = byte_length(lines[k].as_slice());
        if l > width {
            width = l;
        }
        k += 1;
    }
    assert(lv.take(lines@.len() as int) =~= lv);
    let mut parts: Vec<Vec<char>> = Vec::new();
    parts.push(make_border(width));
    parts.push(make_row(title, width));
    parts.push(make_border(width));
    let mut k: usize = 0;
    while k < lines.len()
        invariant
            k <= lines@.len(),
            lv == lines@.map_values(|l: Vec<char>| l@),
            width == box_width(title@, lv),
            parts@.len() == 3 + k,
            parts@[0]@ == box_border(width as nat),
            parts@[1]@ == box_row(title@, width as nat),
            parts@[2]@ == box_border(width as nat),
            forall|j: int| 0 <= j < k ==> #[trigger] parts@[3 + j]@ == box_row(lv[j], width as nat),
        decreases lines@.len() - k,
    {
        parts.push(make_row(lines[k].as_slice(), width));
        k += 1;
    }
    parts.push(make_border(width));
    let ghost w = box_width(title@, lv) as nat;
    let ghost target = seq![box_border(w), box_row(title@, w), box_border(w)] + lv.map_values(
        |l: Seq<char>| box_row(l, w),
    ) + seq![box_border(w)];
    let ghost pv = parts@.map_values(|p: Vec<char>| p@);
    assert(pv.len() == target.len());
    assert forall|j: int| 0 <= j < pv.len() implies pv[j] == target[j] by {
        if 3 <= j < 3 + lines@.len() {
            assert(parts@[3 + (j - 3)]@ == box_row(lv[j - 3], w));
        }
    }
    assert(pv =~= target);
    let sep: Vec<char> = vec!['\n'];
    assert(sep@ =~= seq!['\n']);
    join_parts(&parts, sep.as_slice())
}


/// The period a snapshot covers.
#[derive(Clone, Copy, Debug, PartialEq, Eq, Structural)]
pub enum TimeRange {
    All,
    Last7Days,
    Last30Days,
}

/// How a snapshot is emitted.
#[derive(Clone, Copy, Debug, PartialEq, Eq, Structural)]
pub enum SnapshotFormat {
    /// Text printed to standard output.
    Terminal,
    /// The same text drawn into a PNG image.
    Image,
}

impl Default for SnapshotFormat {
    fn default() -> (r: Self)
        ensures
            r == SnapshotFormat::Terminal,
    {
        SnapshotFormat::Terminal
    }
}

/// Which sections a snapshot holds.
#[derive(Clone, Copy, Debug, PartialEq, Eq, Structural)]
pub enum SnapshotView {
    /// The usage overview.
    Overview,
    /// The per-day token chart with exact values.
    Daily,
    /// Usage per model.
    Model,
    /// The overview, the daily chart, and the model and provider tables.
    All,
}

impl Default for SnapshotView {
    fn default() -> (r: Self)
        ensures
            r == SnapshotView::All,
    {
        SnapshotView::All
    }
}

/// The label of a time range.
pub open spec fn range_label(r: TimeRange) -> Seq<char> {
    match r {
        TimeRange::All => "All time"@,
        TimeRange::Last7Days => "Last 7 days"@,
        TimeRange::Last30Days => "Last 30 days"@,
    }
}

/// The first day of a time range ending on `today`; none for all time.
pub open spec fn range_start(r: TimeRange, today: i32) -> Option<int> {
    match r {
        TimeRange::All => None,
        TimeRange::Last7Days => Some(today - 6),
        TimeRange::Last30Days => Some(today - 29),
    }
}

impl TimeRange {
    /// The label shown for the range.
    pub fn label(&self) -> (r: String)
        ensures
            r@ == range_label(*self),
    {
        match self {
            TimeRange::All => "All time".to_owned(),
            TimeRange::Last7Days => "Last 7 days".to_owned(),
            TimeRange::Last30Days => "Last 30 days".to_owned(),
        }
    }

    /// The first day of the range when it ends on `today`.
    pub fn start_date(&self, today: i32) -> (r: Option<i32>)
        requires
            today >= i32::MIN + 29,
        ensures
            match r {
                Some(d) => range_start(*self, today) == Some(d as int),
                None => range_start(*self, today) is None,
            },
    {
        match self {
            TimeRange::All => None,
            TimeRange::Last7Days => Some(today - 6),
            TimeRange::Last30Days => Some(today - 29),
        }
    }
}

/// Token usage of one day; days are counted from January 1 of year 1 as
/// day 1.
#[derive(Clone, Copy, Debug, PartialEq, Eq, Structural)]
pub struct DailyUsage {
    pub date: i32,
    pub tokens: TokenUsage,
}

/// The overview figures of a snapshot; `total_cost` is the cost as text.
#[derive(Debug)]
pub struct OverviewStats {
    pub total_tokens: u64,
    pub input_tokens: u64,
    pub output_tokens: u64,
    pub cache_tokens: u64,
    pub total_cost: String,
    pub sessions: u64,
    pub messages: u64,
    pub prompts: u64,
    pub models_used: u64,
    pub active_days: u64,
}

/// Usage of one model or provider; `share` is its percentage with two
/// decimals and `cost` its cost, as text.
#[derive(Debug)]
pub struct UsageRow {
    pub id: String,
    pub total_tokens: u64,
    pub input_tokens: u64,
    pub output_tokens: u64,
    pub cache_tokens: u64,
    pub share: String,
    pub cost: String,
}

/// The figures a snapshot shows.
#[derive(Debug)]
pub struct AnalyticsSnapshot {
    pub overview: OverviewStats,
    pub daily: Vec<DailyUsage>,
    pub models: Vec<UsageRow>,
    pub providers: Vec<UsageRow>,
}

/// The days of the daily chart: every day from the range's start to
/// `today`, or the days with usage for all time.
pub open spec fn chart_days(daily: Seq<DailyUsage>, range: TimeRange, today: i32) -> Seq<i32> {
    match range_start(range, today) {
        None => daily.map_values(|d: DailyUsage| d.date),
        Some(s) => Seq::new((today - s + 1) as nat, |i: int| (s + i) as i32),
    }
}

/// The days shown by the daily chart.
pub fn chart_dates(daily: &Vec<DailyUsage>, range: TimeRange, today: i32) -> (r: Vec<i32>)
    requires
        i32::MIN + 29 <= today < i32::MAX,
    ensures
        r@ == chart_days(daily@, range, today),
{
    match range.start_date(today) {
        None => {
            let mut r: Vec<i32> = Vec::new();
            let mut k: usize = 0;
            while k < daily.len()
                invariant
                    k <= daily@.len(),
                    r@ == daily@.take(k as int).map_values(|d: DailyUsage| d.date),
                decreases daily@.len() - k,
            {
                r.push(daily[k].date);
                k += 1;
                assert(r@ =~= daily@.take(k as int).map_values(|d: DailyUsage| d.date));
            }
            assert(daily@.take(daily@.len() as int) =~= daily@);
            r
        },
        Some(start) => {
            let mut r: Vec<i32> = Vec::new();
            let mut date: i32 = start;
            while date <= today
                invariant
                    start <= date <= today + 1,
                    today < i32::MAX,
                    range_start(range, today) == Some(start as int),
                    r@ == Seq::new((date - start) as nat, |i: int| (start + i) as i32),
                decreases today - date + 1,
            {
                r.push(date);
                date = date + 1;
                assert(r@ =~= Seq::new((date - start) as nat, |i: int| (start + i) as i32));
            }
            r
        },
    }
}

/// The length of the bar of a day with `total` tokens when the busiest day
/// has `maximum`: none for an empty day, else the day's share of 24 columns
/// rounded up, at least one.
pub open spec fn bar_len(total: u64, maximum: u64) -> nat {
    if total == 0 || maximum == 0 {
        0
    } else {
        let c = (24 * total + maximum - 1) / (maximum as int);
        if c > 24 {
            24
        } else if c < 1 {
            1
        } else {
            c as nat
        }
    }
}

/// The bar drawn for a day with `total` tokens when the busiest day has
/// `maximum`.
pub fn daily_bar(total: u64, maximum: u64) -> (r: String)
    ensures
        r@ == repeated('#', bar_len(total, maximum)),
{
    let len = bar_length(total, maximum);
    let mut v: Vec<char> = Vec::new();
    push_repeated(&mut v, '#', len);
    string_from_chars(v.as_slice())
}

fn bar_length(total: u64, maximum: u64) -> (r: usize)
    ensures
        r == bar_len(total, maximum),
{
    if total == 0 || maximum == 0 {
        return 0;
    }
    let c: u128 = (24 * (total as u128) + (maximum as u128) - 1) / (maximum as u128);
    if c > 24 {
        24
    } else if c < 1 {
        1
    } else {
        c as usize
    }
}

/// The widest label in the model and provider tables.
pub open spec fn label_width() -> nat {
    24
}

/// A table label: the id when it fits, else its first 21 characters and
/// `...`.
pub open spec fn table_label(s: Seq<char>) -> Seq<char> {
    if s.len() <= 24 {
        s
    } else {
        s.take(21) + seq!['.', '.', '.']
    }
}

/// Shortens an id to fit the table.
pub fn truncate_table_label(value: &[char]) -> (r: Vec<char>)
    ensures
        r@ == table_label(value@),
{
    let mut v: Vec<char> = Vec::new();
    if value.len() <= 24 {
        push_all(&mut v, value);
        assert(v@ =~= value@);
        return v;
    }
    let mut k: usize = 0;
    while k < 21
        invariant
            k <= 21,
            value@.len() > 24,
            v@ == value@.take(k as int),
        decreases 21 - k,
    {
        v.push(value[k]);
        k += 1;
        assert(v@ =~= value@.take(k as int));
    }
    v.push('.');
    v.push('.');
    v.push('.');
    assert(v@ =~= table_label(value@));
    v
}


fn push_text(v: &mut Vec<char>, s: &str)
    ensures
        final(v)@ == old(v)@ + s@,
{
    let cs = chars_of(s);
    push_all(v, cs.as_slice());
}

fn labeled(label: &str, n: u64) -> (r: Vec<char>)
    ensures
        r@ == label@ + decimal(n as nat),
{
    let mut v: Vec<char> = Vec::new();
    push_text(&mut v, label);
    let d = decimal_chars(n);
    push_all(&mut v, d.as_slice());
    v
}

fn text_line(s: &str) -> (r: Vec<char>)
    ensures
        r@ == s@,
{
    let mut v: Vec<char> = Vec::new();
    push_text(&mut v, s);
    assert(v@ =~= s@);
    v
}

/// The lines of the overview section.
pub open spec fn overview_lines(o: OverviewStats) -> Seq<Seq<char>> {
    seq![
        "Total tokens : "@ + decimal(o.total_tokens as nat),
        "Input tokens : "@ + decimal(o.input_tokens as nat),
        "Output tokens: "@ + decimal(o.output_tokens as nat),
        "Cache tokens : "@ + decimal(o.cache_tokens as nat),
        "Total cost   : "@ + o.total_cost@,
        "Sessions     : "@ + decimal(o.sessions as nat),
        "Messages     : "@ + decimal(o.messages as nat),
        "Prompts      : "@ + decimal(o.prompts as nat),
        "Models used  : "@ + decimal(o.models_used as nat),
        "Active days  : "@ + decimal(o.active_days as nat),
    ]
}

/// The overview section.
pub open spec fn overview_section(o: OverviewStats, range: TimeRange) -> Seq<char> {
    boxed("OPENCODE USAGE SNAPSHOT ("@ + range_label(range) + ")"@, overview_lines(o))
}

/// Draws the overview section.
pub fn render_overview(snapshot: &AnalyticsSnapshot, range: TimeRange) -> (r: Vec<char>)
    ensures
        r@ == overview_section(snapshot.overview, range),
{
    let o = &snapshot.overview;
    let mut title: Vec<char> = Vec::new();
    push_text(&mut title, "OPENCODE USAGE SNAPSHOT (");
    let label = range.label();
    push_text(&mut title, label.as_str());
    push_text(&mut title, ")");
    let mut lines: Vec<Vec<char>> = Vec::new();
    lines.push(labeled("Total tokens : ", o.total_tokens));
    lines.push(labeled("Input tokens : ", o.input_tokens));
    lines.push(labeled("Output tokens: ", o.output_tokens));
    lines.push(labeled("Cache tokens : ", o.cache_tokens));
    let mut cost: Vec<char> = Vec::new();
    push_text(&mut cost, "Total cost   : ");
    push_text(&mut cost, o.total_cost.as_str());
    lines.push(cost);
    lines.push(labeled("Sessions     : ", o.sessions));
    lines.push(labeled("Messages     : ", o.messages));
    lines.push(labeled("Prompts      : ", o.prompts));
    lines.push(labeled("Models used  : ", o.models_used));
    lines.push(labeled("Active days  : ", o.active_days));
    assert(lines@.map_values(|l: Vec<char>| l@) =~= overview_lines(*o));
    boxed_section(title.as_slice(), &lines)
}

/// The header row of a usage table whose first column is `first`.
pub open spec fn table_header(first: Seq<char>) -> Seq<char> {
    pad_right(first, 24) + seq![' '] + pad_left("Tokens"@, 12) + seq![' '] + pad_left("Share"@, 7)
        + seq![' '] + pad_left("Input"@, 12) + seq![' '] + pad_left("Output"@, 12) + seq![' ']
        + pad_left("Cache"@, 12) + "  Cost"@
}

/// The row of a usage table for `r`.
pub open spec fn table_row(r: UsageRow) -> Seq<char> {
    pad_right(table_label(r.id@), 24) + seq![' '] + pad_left(decimal(r.total_tokens as nat), 12)
        + seq![' '] + pad_left(r.share@, 6) + seq!['%'] + seq![' '] + pad_left(
        decimal(r.input_tokens as nat),
        12,
    ) + seq![' '] + pad_left(decimal(r.output_tokens as nat), 12) + seq![' '] + pad_left(
        decimal(r.cache_tokens as nat),
        12,
    ) + seq![' ', ' '] + r.cost@
}

/// A usage table section, or a note when there are no rows.
pub open spec fn table_section(
    title: Seq<char>,
    first: Seq<char>,
    empty: Seq<char>,
    rows: Seq<UsageRow>,
) -> Seq<char> {
    if rows.len() == 0 {
        boxed(title, seq![empty])
    } else {
        boxed(title, seq![table_header(first)] + rows.map_values(|r: UsageRow| table_row(r)))
    }
}

fn make_header(first: &str) -> (r: Vec<char>)
    ensures
        r@ == table_header(first@),
{
    let mut v: Vec<char> = Vec::new();
    let f = chars_of(first);
    push_padded_right(&mut v, f.as_slice(), 24);
    v.push(' ');
    let c = chars_of("Tokens");
    push_padded_left(&mut v, c.as_slice(), 12);
    v.push(' ');
    let c = chars_of("Share");
    push_padded_left(&mut v, c.as_slice(), 7);
    v.push(' ');
    let c = chars_of("Input");
    push_padded_left(&mut v, c.as_slice(), 12);
    v.push(' ');
    let c = chars_of("Output");
    push_padded_left(&mut v, c.as_slice(), 12);
    v.push(' ');
    let c = chars_of("Cache");
    push_padded_left(&mut v, c.as_slice(), 12);
    push_text(&mut v, "  Cost");
    assert(v@ =~= table_header(first@));
    v
}

fn make_table_row(r: &UsageRow) -> (out: Vec<char>)
    ensures
        out@ == table_row(*r),
{
    let mut v: Vec<char> = Vec::new();
    let id = chars_of(r.id.as_str());
    let label = truncate_table_label(id.as_slice());
    push_padded_right(&mut v, label.as_slice(), 24);
    v.push(' ');
    let d = decimal_chars(r.total_tokens);
    push_padded_left(&mut v, d.as_slice(), 12);
    v.push(' ');
    let sh = chars_of(r.share.as_str());
    push_padded_left(&mut v, sh.as_slice(), 6);
    v.push('%');
    v.push(' ');
    let d = decimal_chars(r.input_tokens);
    push_padded_left(&mut v, d.as_slice(), 12);
    v.push(' ');
    let d = decimal_chars(r.output_tokens);
    push_padded_left(&mut v, d.as_slice(), 12);
    v.push(' ');
    let d = decimal_chars(r.cache_tokens);
    push_padded_left(&mut v, d.as_slice(), 12);
    v.push(' ');
    v.push(' ');
    push_text(&mut v, r.cost.as_str());
    assert(v@ =~= table_row(*r));
    v
}

fn render_table(title: &str, first: &str, empty: &str, rows: &Vec<UsageRow>) -> (r: Vec<char>)
    ensures
        r@ == table_section(title@, first@, empty@, rows@),
{
    let t = chars_of(title);
    let mut lines: Vec<Vec<char>> = Vec::new();
    if rows.len() == 0 {
        lines.push(text_line(empty));
        assert(lines@.map_values(|l: Vec<char>| l@) =~= seq![empty@]);
        return boxed_section(t.as_slice(), &lines);
    }
    lines.push(make_header(first));
    let mut k: usize = 0;
    while k < rows.len()
        invariant
            k <= rows@.len(),
            lines@.len() == k + 1,
            lines@[0]@ == table_header(first@),
            forall|j: int| 0 <= j < k ==> #[trigger] lines@[j + 1]@ == table_row(rows@[j]),
        decreases rows@.len() - k,
    {
        lines.push(make_table_row(&rows[k]));
        k += 1;
    }
    let ghost target = seq![table_header(first@)] + rows@.map_values(|r: UsageRow| table_row(r));
    let ghost lv = lines@.map_values(|l: Vec<char>| l@);
    assert forall|j: int| 0 <= j < lv.len() implies lv[j] == target[j] by {
        if j > 0 {
            assert(lines@[(j - 1) + 1]@ == table_row(rows@[j - 1]));
        }
    }
    assert(lv =~= target);
    boxed_section(t.as_slice(), &lines)
}

/// The model table section.
pub open spec fn models_section(s: AnalyticsSnapshot) -> Seq<char> {
    table_section(
        "MODEL USAGE (EXACT TOKEN TOTALS)"@,
        "Model"@,
        "No model activity in this time range."@,
        s.models@,
    )
}

/// The provider table section.
pub open spec fn providers_section(s: AnalyticsSnapshot) -> Seq<char> {
    table_section(
        "PROVIDER USAGE (EXACT TOKEN TOTALS)"@,
        "Provider"@,
        "No provider activity in this time range."@,
        s.providers@,
    )
}

/// Draws the model table.
pub fn render_models(snapshot: &AnalyticsSnapshot) -> (r: Vec<char>)
    ensures
        r@ == models_section(*snapshot),
{
    render_table(
        "MODEL USAGE (EXACT TOKEN TOTALS)",
        "Model",
        "No model activity in this time range.",
        &snapshot.models,
    )
}

/// Draws the provider table.
pub fn render_providers(snapshot: &AnalyticsSnapshot) -> (r: Vec<char>)
    ensures
        r@ == providers_section(*snapshot),
{
    render_table(
        "PROVIDER USAGE (EXACT TOKEN TOTALS)",
        "Provider",
        "No provider activity in this time range.",
        &snapshot.providers,
    )
}


/// The tokens of day `d`: those of its last entry in `daily`, else zero.
pub open spec fn day_total(daily: Seq<DailyUsage>, d: i32) -> u64
    decreases daily.len(),
{
    if daily.len() == 0 {
        0
    } else if daily.last().date == d {
        daily.last().tokens.spec_total()
    } else {
        day_total(daily.drop_last(), d)
    }
}

/// The most tokens of any of `days`.
pub open spec fn max_total(daily: Seq<DailyUsage>, days: Seq<i32>) -> u64
    decreases days.len(),
{
    if days.len() == 0 {
        0
    } else {
        let m = max_total(daily, days.drop_last());
        let t = day_total(daily, days.last());
        if t > m {
            t
        } else {
            m
        }
    }
}

/// The date shown for day `d`; `?` where the calendar has no such day.
pub open spec fn day_label(d: i32) -> Seq<char> {
    match day_text(d) {
        Some(t) => t,
        None => seq!['?'],
    }
}

/// The chart line of day `d` when the busiest day has `m` tokens.
pub open spec fn daily_line(daily: Seq<DailyUsage>, d: i32, m: u64) -> Seq<char> {
    day_label(d) + seq![' ', ' '] + pad_left(decimal(day_total(daily, d) as nat), 12) + seq![
        ' ',
        ' ',
    ] + repeated('#', bar_len(day_total(daily, d), m))
}

/// The daily chart section.
pub open spec fn daily_section(daily: Seq<DailyUsage>, range: TimeRange, today: i32) -> Seq<char> {
    let days = chart_days(daily, range, today);
    if days.len() == 0 {
        boxed("DAILY TOKEN CHART (EXACT VALUES)"@, seq!["No activity in this time range."@])
    } else {
        let m = max_total(daily, days);
        boxed(
            "DAILY TOKEN CHART (EXACT VALUES)"@,
            seq!["Date          Tokens        Usage"@] + days.map_values(
                |d: i32| daily_line(daily, d, m),
            ),
        )
    }
}

fn total_of_day(daily: &Vec<DailyUsage>, d: i32) -> (r: u64)
    ensures
        r == day_total(daily@, d),
{
    let mut k: usize = daily.len();
    assert(daily@.take(k as int) =~= daily@);
    while k > 0
        invariant
            k <= daily@.len(),
            day_total(daily@, d) == day_total(daily@.take(k as int), d),
        decreases k,
    {
        k -= 1;
        assert(daily@.take(k + 1).drop_last() =~= daily@.take(k as int));
        assert(daily@.take(k + 1).last() == daily@[k as int]);
        if daily[k].date == d {
            return daily[k].tokens.total();
        }
    }
    0
}

fn day_label_chars(d: i32) -> (r: Vec<char>)
    ensures
        r@ == day_label(d),
{
    match format_day(d) {
        Some(t) => chars_of(t.as_str()),
        None => {
            let mut v: Vec<char> = Vec::new();
            v.push('?');
            assert(v@ =~= seq!['?']);
            v
        },
    }
}

/// Draws the daily chart for the days of `range` up to `today`.
pub fn render_daily_chart(snapshot: &AnalyticsSnapshot, range: TimeRange, today: i32) -> (r: Vec<
    char,
>)
    requires
        i32::MIN + 29 <= today < i32::MAX,
    ensures
        r@ == daily_section(snapshot.daily@, range, today),
{
    let daily = &snapshot.daily;
    let title = chars_of("DAILY TOKEN CHART (EXACT VALUES)");
    let days = chart_dates(daily, range, today);
    let mut lines: Vec<Vec<char>> = Vec::new();
    if days.len() == 0 {
        lines.push(text_line("No activity in this time range."));
        assert(lines@.map_values(|l: Vec<char>| l@) =~= seq!["No activity in this time range."@]);
        return boxed_section(title.as_slice(), &lines);
    }
    let mut maximum: u64 = 0;
    let mut k: usize = 0;
    assert(days@.take(0) =~= Seq::<i32>::empty());
    while k < days.len()
        invariant
            k <= days@.len(),
            maximum == max_total(daily@, days@.take(k as int)),
        decreases days@.len() - k,
    {
        assert(days@.take(k + 1).drop_last() =~= days@.take(k as int));
        assert(days@.take(k + 1).last() == days@[k as int]);
        let t = total_of_day(daily, days[k]);
        if t > maximum {
            maximum = t;
        }
        k += 1;
    }
    assert(days@.take(days@.len() as int) =~= days@);
    lines.push(text_line("Date          Tokens        Usage"));
    let mut k: usize = 0;
    while k < days.len()
        invariant
            k <= days@.len(),
            maximum == max_total(daily@, days@),
            lines@.len() == k + 1,
            lines@[0]@ == "Date          Tokens        Usage"@,
            forall|j: int|
                0 <= j < k ==> #[trigger] lines@[j + 1]@ == daily_line(daily@, days@[j], maximum),
        decreases days@.len() - k,
    {
        let d = days[k];
        let mut v = day_label_chars(d);
        v.push(' ');
        v.push(' ');
        let t = total_of_day(daily, d);
        let dec = decimal_chars(t);
        push_padded_left(&mut v, dec.as_slice(), 12);
        v.push(' ');
        v.push(' ');
        push_repeated(&mut v, '#', bar_length(t, maximum));
        assert(v@ =~= daily_line(daily@, d, maximum));
        lines.push(v);
        k += 1;
    }
    let ghost target = seq!["Date          Tokens        Usage"@] + days@.map_values(
        |d: i32| daily_line(daily@, d, maximum),
    );
    let ghost lv = lines@.map_values(|l: Vec<char>| l@);
    assert forall|j: int| 0 <= j < lv.len() implies lv[j] == target[j] by {
        if j > 0 {
            assert(lines@[(j - 1) + 1]@ == daily_line(daily@, days@[j - 1], maximum));
        }
    }
    assert(lv =~= target);
    boxed_section(title.as_slice(), &lines)
}

/// The sections a snapshot holds for `view`, in order.
pub open spec fn snapshot_sections(
    s: AnalyticsSnapshot,
    range: TimeRange,
    view: SnapshotView,
    today: i32,
) -> Seq<Seq<char>> {
    let all = view == SnapshotView::All;
    (if view == SnapshotView::Overview || all {
        seq![overview_section(s.overview, range)]
    } else {
        seq![]
    }) + (if view == SnapshotView::Daily || all {
        seq![daily_section(s.daily@, range, today)]
    } else {
        seq![]
    }) + (if view == SnapshotView::Model || all {
        seq![models_section(s)]
    } else {
        seq![]
    }) + (if all {
        seq![providers_section(s)]
    } else {
        seq![]
    })
}

/// Renders the snapshot text: the sections of `view`, separated by blank
/// lines; the daily chart ends on `today`.
pub fn render_snapshot(
    snapshot: &AnalyticsSnapshot,
    range: TimeRange,
    view: SnapshotView,
    today: i32,
) -> (r: String)
    requires
        i32::MIN + 29 <= today < i32::MAX,
    ensures
        r@ == snapshot_text(*snapshot, range, view, today),
{
    let all = view == SnapshotView::All;
    let mut sections: Vec<Vec<char>> = Vec::new();
    let ghost mut expect: Seq<Seq<char>> = seq![];
    if view == SnapshotView::Overview || all {
        sections.push(render_overview(snapshot, range));
        proof {
            expect = expect.push(overview_section(snapshot.overview, range));
        }
    }
    if view == SnapshotView::Daily || all {
        sections.push(render_daily_chart(snapshot, range, today));
        proof {
            expect = expect.push(daily_section(snapshot.daily@, range, today));
        }
    }
    if view == SnapshotView::Model || all {
        sections.push(render_models(snapshot));
        proof {
            expect = expect.push(models_section(*snapshot));
        }
    }
    if all {
        sections.push(render_providers(snapshot));
        proof {
            expect = expect.push(providers_section(*snapshot));
        }
    }
    assert(sections@.map_values(|p: Vec<char>| p@) =~= expect);
    assert(expect =~= snapshot_sections(*snapshot, range, view, today));
    let sep: Vec<char> = vec!['\n', '\n'];
    assert(sep@ =~= seq!['\n', '\n']);
    let text = join_parts(&sections, sep.as_slice());
    string_from_chars(text.as_slice())
}


/// The text of a snapshot of `view`: its sections joined by blank lines.
pub open spec fn snapshot_text(
    s: AnalyticsSnapshot,
    range: TimeRange,
    view: SnapshotView,
    today: i32,
) -> Seq<char> {
    joined(snapshot_sections(s, range, view, today), seq!['\n', '\n'])
}

/// The complete snapshot is the overview, the daily chart and the model
/// table, each as printed on its own, and the provider table, joined by blank
/// lines; the model table does not depend on the range or the day.
pub proof fn lemma_all_view_joins_views(
    s: AnalyticsSnapshot,
    range: TimeRange,
    today: i32,
    other_range: TimeRange,
    other_today: i32,
)
    ensures
        snapshot_text(s, range, SnapshotView::All, today) == joined(
            seq![
                snapshot_text(s, range, SnapshotView::Overview, today),
                snapshot_text(s, range, SnapshotView::Daily, today),
                snapshot_text(s, range, SnapshotView::Model, today),
                providers_section(s),
            ],
            seq!['\n', '\n'],
        ),
        snapshot_text(s, range, SnapshotView::Model, today) == snapshot_text(
            s,
            other_range,
            SnapshotView::Model,
            other_today,
        ),
{
    let o = overview_section(s.overview, range);
    let d = daily_section(s.daily@, range, today);
    let m = models_section(s);
    let p = providers_section(s);
    assert(snapshot_sections(s, range, SnapshotView::All, today) =~= seq![o, d, m, p]);
    assert(snapshot_sections(s, range, SnapshotView::Overview, today) =~= seq![o]);
    assert(snapshot_sections(s, range, SnapshotView::Daily, today) =~= seq![d]);
    assert(snapshot_sections(s, range, SnapshotView::Model, today) =~= seq![m]);
    assert(snapshot_sections(s, other_range, SnapshotView::Model, other_today) =~= seq![m]);
    reveal_with_fuel(joined, 4);
    assert(seq![o, d, m, p].drop_last() =~= seq![o, d, m]);
    assert(seq![o, d, m].drop_last() =~= seq![o, d]);
    assert(seq![o, d].drop_last() =~= seq![o]);
}

/// A day with tokens gets a bar of one to 24 columns when the busiest day
/// has tokens, the busiest day itself the full 24, and a day with more tokens
/// never a shorter bar.
pub proof fn lemma_bar_lengths(t: u64, t2: u64, m: u64)
    ensures
        t > 0 && m > 0 ==> 1 <= bar_len(t, m) <= 24,
        m > 0 ==> bar_len(m, m) == 24,
        t <= t2 ==> bar_len(t, m) <= bar_len(t2, m),
        t == 0 || m == 0 ==> bar_len(t, m) == 0,
{
    if m > 0 {
        let mi = m as int;
        assert((24 * mi + mi - 1) / mi == 24) by (nonlinear_arith)
            requires
                mi > 0,
        {
            assert(24 * mi + mi - 1 == 24 * mi + (mi - 1));
        }
        if t > 0 {
            let ti = t as int;
            assert((24 * ti + mi - 1) / mi >= 1) by (nonlinear_arith)
                requires
                    mi > 0,
                    ti > 0,
            {
                assert(24 * ti + mi - 1 >= mi);
            }
        }
        if t <= t2 && t > 0 {
            let ti = t as int;
            let t2i = t2 as int;
            assert((24 * ti + mi - 1) / mi <= (24 * t2i + mi - 1) / mi) by (nonlinear_arith)
                requires
                    mi > 0,
                    0 < ti <= t2i,
            {
                vstd::arithmetic::div_mod::lemma_div_is_ordered(24 * ti + mi - 1, 24 * t2i + mi - 1, mi);
            }
        }
    }
}

/// The 7-day and 30-day charts list every day of the range, with or without
/// usage, in order and ending on `today`.
pub proof fn lemma_limited_range_days(daily: Seq<DailyUsage>, today: i32)
    requires
        today >= i32::MIN + 29,
    ensures
        chart_days(daily, TimeRange::Last7Days, today).len() == 7,
        forall|i: int|
            0 <= i < 7 ==> #[trigger] chart_days(daily, TimeRange::Last7Days, today)[i] == today - 6 + i,
        chart_days(daily, TimeRange::Last30Days, today).len() == 30,
        forall|i: int|
            0 <= i < 30 ==> #[trigger] chart_days(daily, TimeRange::Last30Days, today)[i] == today - 29
                + i,
{
}

proof fn lemma_encoding_at_least_chars(s: Seq<char>)
    ensures
        encode_utf8(s).len() >= s.len(),
    decreases s.len(),
{
    if s.len() > 0 {
        lemma_encoding_at_least_chars(s.drop_first());
    }
}

proof fn lemma_box_width_bounds(title: Seq<char>, lines: Seq<Seq<char>>)
    ensures
        box_width(title, lines) >= byte_len(title),
        forall|i: int| 0 <= i < lines.len() ==> box_width(title, lines) >= byte_len(#[trigger] lines[i]),
    decreases lines.len(),
{
    if lines.len() > 0 {
        lemma_box_width_bounds(title, lines.drop_last());
        assert forall|i: int| 0 <= i < lines.len() implies box_width(title, lines) >= byte_len(
            #[trigger] lines[i],
        ) by {
            if i < lines.len() - 1 {
                assert(lines.drop_last()[i] == lines[i]);
            }
        }
    }
}

/// A boxed section is rectangular: its borders, its title row and every
/// line's row have the same number of characters, four more than its width.
pub proof fn lemma_box_rectangular(title: Seq<char>, lines: Seq<Seq<char>>)
    requires
        encode_utf8(title).len() <= usize::MAX,
        forall|i: int| 0 <= i < lines.len() ==> encode_utf8(#[trigger] lines[i]).len() <= usize::MAX,
    ensures
        box_border(box_width(title, lines) as nat).len() == box_width(title, lines) + 4,
        box_row(title, box_width(title, lines) as nat).len() == box_width(title, lines) + 4,
        forall|i: int|
            0 <= i < lines.len() ==> #[trigger] box_row(lines[i], box_width(title, lines) as nat).len()
                == box_width(title, lines) + 4,
{
    let w = box_width(title, lines);
    lemma_box_width_bounds(title, lines);
    lemma_encoding_at_least_chars(title);
    assert forall|i: int| 0 <= i < lines.len() implies #[trigger] box_row(lines[i], w as nat).len() == w
        + 4 by {
        lemma_encoding_at_least_chars(lines[i]);
        assert(byte_len(lines[i]) == encode_utf8(lines[i]).len());
    }
}


/// The scale of a daily chart is the largest day total among the shown days:
/// for a non-empty chart some shown day has exactly that total and no shown
/// day has more, so the busiest shown day gets the full 24-column bar and no
/// day a longer one.
pub proof fn lemma_chart_scale_is_busiest_day(daily: Seq<DailyUsage>, days: Seq<i32>)
    requires
        days.len() > 0,
    ensures
        exists|k: int| 0 <= k < days.len() && #[trigger] day_total(daily, days[k]) == max_total(daily, days),
        forall|k: int| 0 <= k < days.len() ==> #[trigger] day_total(daily, days[k]) <= max_total(daily, days),
        max_total(daily, days) > 0 ==> exists|k: int|
            0 <= k < days.len() && bar_len(#[trigger] day_total(daily, days[k]), max_total(daily, days)) == 24,
        forall|k: int|
            0 <= k < days.len() ==> bar_len(#[trigger] day_total(daily, days[k]), max_total(daily, days)) <= 24,
    decreases days.len(),
{
    let m = max_total(daily, days);
    let q = days.drop_last();
    let t = day_total(daily, days.last());
    if q.len() > 0 {
        lemma_chart_scale_is_busiest_day(daily, q);
        let mq = max_total(daily, q);
        assert forall|k: int| 0 <= k < days.len() implies #[trigger] day_total(daily, days[k]) <= m by {
            if k < q.len() {
                assert(days[k] == q[k]);
                assert(day_total(daily, q[k]) <= mq);
            }
        }
        if t > mq {
            assert(day_total(daily, days[days.len() - 1]) == m);
        } else {
            let k = choose|k: int| 0 <= k < q.len() && #[trigger] day_total(daily, q[k]) == mq;
            assert(days[k] == q[k]);
            assert(day_total(daily, days[k]) == m);
        }
    } else {
        assert(max_total(daily, q) == 0);
        assert(days.last() == days[0]);
        assert(day_total(daily, days[0]) == m);
    }
    let w = choose|k: int| 0 <= k < days.len() && #[trigger] day_total(daily, days[k]) == m;
    assert forall|k: int| 0 <= k < days.len() implies bar_len(#[trigger] day_total(daily, days[k]), m)
        <= 24 by {
        lemma_bar_lengths(day_total(daily, days[k]), day_total(daily, days[k]), m);
    }
    if m > 0 {
        lemma_bar_lengths(m, m, m);
        assert(bar_len(day_total(daily, days[w]), m) == 24);
    }
}


/// `line` is labelled `label`: it starts with it.
pub open spec fn labelled(line: Seq<char>, label: Seq<char>) -> bool {
    line.len() >= label.len() && line.take(label.len() as int) == label
}

/// Each figure of the overview stands on the line labelled for it: some
/// line carries each label (`Total tokens`, `Input tokens`, `Output
/// tokens`, `Cache tokens`, `Total cost`, `Sessions`, `Messages`, `Prompts`,
/// `Models used`, `Active days`), and every line with a label shows, after
/// it, the overview's figure of that name.
pub proof fn lemma_overview_figures_under_their_labels(o: OverviewStats)
    ensures
        forall|i: int|
            0 <= i < overview_lines(o).len() && #[trigger] labelled(overview_lines(o)[i], "Total tokens : "@)
                ==> overview_lines(o)[i].skip(15) == decimal(o.total_tokens as nat),
        forall|i: int|
            0 <= i < overview_lines(o).len() && #[trigger] labelled(overview_lines(o)[i], "Input tokens : "@)
                ==> overview_lines(o)[i].skip(15) == decimal(o.input_tokens as nat),
        forall|i: int|
            0 <= i < overview_lines(o).len() && #[trigger] labelled(overview_lines(o)[i], "Output tokens: "@)
                ==> overview_lines(o)[i].skip(15) == decimal(o.output_tokens as nat),
        forall|i: int|
            0 <= i < overview_lines(o).len() && #[trigger] labelled(overview_lines(o)[i], "Cache tokens : "@)
                ==> overview_lines(o)[i].skip(15) == decimal(o.cache_tokens as nat),
        forall|i: int|
            0 <= i < overview_lines(o).len() && #[trigger] labelled(overview_lines(o)[i], "Total cost   : "@)
                ==> overview_lines(o)[i].skip(15) == o.total_cost@,
        forall|i: int|
            0 <= i < overview_lines(o).len() && #[trigger] labelled(overview_lines(o)[i], "Sessions     : "@)
                ==> overview_lines(o)[i].skip(15) == decimal(o.sessions as nat),
        forall|i: int|
            0 <= i < overview_lines(o).len() && #[trigger] labelled(overview_lines(o)[i], "Messages     : "@)
                ==> overview_lines(o)[i].skip(15) == decimal(o.messages as nat),
        forall|i: int|
            0 <= i < overview_lines(o).len() && #[trigger] labelled(overview_lines(o)[i], "Prompts      : "@)
                ==> overview_lines(o)[i].skip(15) == decimal(o.prompts as nat),
        forall|i: int|
            0 <= i < overview_lines(o).len() && #[trigger] labelled(overview_lines(o)[i], "Models used  : "@)
                ==> overview_lines(o)[i].skip(15) == decimal(o.models_used as nat),
        forall|i: int|
            0 <= i < overview_lines(o).len() && #[trigger] labelled(overview_lines(o)[i], "Active days  : "@)
                ==> overview_lines(o)[i].skip(15) == decimal(o.active_days as nat),
        exists|i: int| 0 <= i < overview_lines(o).len() && #[trigger] labelled(overview_lines(o)[i], "Total tokens : "@),
        exists|i: int| 0 <= i < overview_lines(o).len() && #[trigger] labelled(overview_lines(o)[i], "Input tokens : "@),
        exists|i: int| 0 <= i < overview_lines(o).len() && #[trigger] labelled(overview_lines(o)[i], "Output tokens: "@),
        exists|i: int| 0 <= i < overview_lines(o).len() && #[trigger] labelled(overview_lines(o)[i], "Cache tokens : "@),
        exists|i: int| 0 <= i < overview_lines(o).len() && #[trigger] labelled(overview_lines(o)[i], "Total cost   : "@),
        exists|i: int| 0 <= i < overview_lines(o).len() && #[trigger] labelled(overview_lines(o)[i], "Sessions     : "@),
        exists|i: int| 0 <= i < overview_lines(o).len() && #[trigger] labelled(overview_lines(o)[i], "Messages     : "@),
        exists|i: int| 0 <= i < overview_lines(o).len() && #[trigger] labelled(overview_lines(o)[i], "Prompts      : "@),
        exists|i: int| 0 <= i < overview_lines(o).len() && #[trigger] labelled(overview_lines(o)[i], "Models used  : "@),
        exists|i: int| 0 <= i < overview_lines(o).len() && #[trigger] labelled(overview_lines(o)[i], "Active days  : "@),
{
    reveal_strlit("Total tokens : ");
    reveal_strlit("Input tokens : ");
    reveal_strlit("Output tokens: ");
    reveal_strlit("Cache tokens : ");
    reveal_strlit("Total cost   : ");
    reveal_strlit("Sessions     : ");
    reveal_strlit("Messages     : ");
    reveal_strlit("Prompts      : ");
    reveal_strlit("Models used  : ");
    reveal_strlit("Active days  : ");
    let lines = overview_lines(o);
    let labels = seq!["Total tokens : "@, "Input tokens : "@, "Output tokens: "@, "Cache tokens : "@, "Total cost   : "@, "Sessions     : "@, "Messages     : "@, "Prompts      : "@, "Models used  : "@, "Active days  : "@];
    assert forall|i: int| 0 <= i < 10 implies #[trigger] lines[i].take(15) == labels[i] by {
        assert(lines[i].take(15) =~= labels[i]);
    }
    assert(lines.len() == 10);
    assert forall|i: int, j: int| 0 <= i < 10 && 0 <= j < 10 && i != j implies #[trigger] labels[i] != #[trigger] labels[j] by {
        if labels[i] == labels[j] {
            assert(labels[i][0] == labels[j][0]);
            assert(labels[i][1] == labels[j][1]);
            assert(labels[i][6] == labels[j][6]);
        }
    }
    assert(labelled(lines[0], labels[0]));
    assert(lines[0].skip(15) =~= decimal(o.total_tokens as nat));
    assert forall|i: int| 0 <= i < 10 && #[trigger] labelled(lines[i], "Total tokens : "@) implies i == 0 by {
        assert(lines[i].take(15) == labels[i]);
        assert(labels[i] == labels[0]);
    }
    assert(labelled(lines[1], labels[1]));
    assert(lines[1].skip(15) =~= decimal(o.input_tokens as nat));
    assert forall|i: int| 0 <= i < 10 && #[trigger] labelled(lines[i], "Input tokens : "@) implies i == 1 by {
        assert(lines[i].take(15) == labels[i]);
        assert(labels[i] == labels[1]);
    }
    assert(labelled(lines[2], labels[2]));
    assert(lines[2].skip(15) =~= decimal(o.output_tokens as nat));
    assert forall|i: int| 0 <= i < 10 && #[trigger] labelled(lines[i], "Output tokens: "@) implies i == 2 by {
        assert(lines[i].take(15) == labels[i]);
        assert(labels[i] == labels[2]);
    }
    assert(labelled(lines[3], labels[3]));
    assert(lines[3].skip(15) =~= decimal(o.cache_tokens as nat));
    assert forall|i: int| 0 <= i < 10 && #[trigger] labelled(lines[i], "Cache tokens : "@) implies i == 3 by {
        assert(lines[i].take(15) == labels[i]);
        assert(labels[i] == labels[3]);
    }
    assert(labelled(lines[4], labels[4]));
    assert(lines[4].skip(15) =~= o.total_cost@);
    assert forall|i: int| 0 <= i < 10 && #[trigger] labelled(lines[i], "Total cost   : "@) implies i == 4 by {
        assert(lines[i].take(15) == labels[i]);
        assert(labels[i] == labels[4]);
    }
    assert(labelled(lines[5], labels[5]));
    assert(lines[5].skip(15) =~= decimal(o.sessions as nat));
    assert forall|i: int| 0 <= i < 10 && #[trigger] labelled(lines[i], "Sessions     : "@) implies i == 5 by {
        assert(lines[i].take(15) == labels[i]);
        assert(labels[i] == labels[5]);
    }
    assert(labelled(lines[6], labels[6]));
    assert(lines[6].skip(15) =~= decimal(o.messages as nat));
    assert forall|i: int| 0 <= i < 10 && #[trigger] labelled(lines[i], "Messages     : "@) implies i == 6 by {
        assert(lines[i].take(15) == labels[i]);
        assert(labels[i] == labels[6]);
    }
    assert(labelled(lines[7], labels[7]));
    assert(lines[7].skip(15) =~= decimal(o.prompts as nat));
    assert forall|i: int| 0 <= i < 10 && #[trigger] labelled(lines[i], "Prompts      : "@) implies i == 7 by {
        assert(lines[i].take(15) == labels[i]);
        assert(labels[i] == labels[7]);
    }
    assert(labelled(lines[8], labels[8]));
    assert(lines[8].skip(15) =~= decimal(o.models_used as nat));
    assert forall|i: int| 0 <= i < 10 && #[trigger] labelled(lines[i], "Models used  : "@) implies i == 8 by {
        assert(lines[i].take(15) == labels[i]);
        assert(labels[i] == labels[8]);
    }
    assert(labelled(lines[9], labels[9]));
    assert(lines[9].skip(15) =~= decimal(o.active_days as nat));
    assert forall|i: int| 0 <= i < 10 && #[trigger] labelled(lines[i], "Active days  : "@) implies i == 9 by {
        assert(lines[i].take(15) == labels[i]);
        assert(labels[i] == labels[9]);
    }
}

proof fn lemma_pad_lengths(s: Seq<char>, width: nat)
    requires
        s.len() <= width,
    ensures
        pad_left(s, width).len() == width,
        pad_right(s, width).len() == width,
{
}

/// The columns of a usage table line up: in the header row and in the row of
/// a model or provider, the characters at 0..24 are the first heading and the
/// row's (shortened) id, left aligned; at 25..37, 46..58, 59..71 and 72..84
/// the `Tokens`, `Input`, `Output` and `Cache` headings and the row's total,
/// input, output and cache token counts, right aligned; at 38..45 the `Share`
/// heading and the row's share with `%`; and from 86 on `Cost` and the row's
/// cost; when every figure fits its column.
pub proof fn lemma_table_columns_line_up(first: Seq<char>, r: UsageRow)
    requires
        first.len() <= 24,
        r.share@.len() <= 6,
        decimal(r.total_tokens as nat).len() <= 12,
        decimal(r.input_tokens as nat).len() <= 12,
        decimal(r.output_tokens as nat).len() <= 12,
        decimal(r.cache_tokens as nat).len() <= 12,
    ensures
        table_header(first).subrange(25, 37) == pad_left("Tokens"@, 12),
        table_row(r).subrange(25, 37) == pad_left(decimal(r.total_tokens as nat), 12),
        table_header(first).subrange(46, 58) == pad_left("Input"@, 12),
        table_row(r).subrange(46, 58) == pad_left(decimal(r.input_tokens as nat), 12),
        table_header(first).subrange(59, 71) == pad_left("Output"@, 12),
        table_row(r).subrange(59, 71) == pad_left(decimal(r.output_tokens as nat), 12),
        table_header(first).subrange(72, 84) == pad_left("Cache"@, 12),
        table_row(r).subrange(72, 84) == pad_left(decimal(r.cache_tokens as nat), 12),
        table_header(first).subrange(0, 24) == pad_right(first, 24),
        table_row(r).subrange(0, 24) == pad_right(table_label(r.id@), 24),
        table_header(first).subrange(38, 45) == pad_left("Share"@, 7),
        table_row(r).subrange(38, 45) == pad_left(r.share@, 6) + seq!['%'],
        table_header(first).skip(86) == "Cost"@,
        table_row(r).skip(86) == r.cost@,
{
    reveal_strlit("Tokens");
    reveal_strlit("Share");
    reveal_strlit("Input");
    reveal_strlit("Output");
    reveal_strlit("Cache");
    let label = table_label(r.id@);
    assert(label.len() <= 24);
    lemma_pad_lengths(label, 24);
    lemma_pad_lengths(first, 24);
    lemma_pad_lengths(r.share@, 6);
    lemma_pad_lengths("Tokens"@, 12);
    lemma_pad_lengths("Share"@, 7);
    lemma_pad_lengths("Input"@, 12);
    lemma_pad_lengths("Output"@, 12);
    lemma_pad_lengths("Cache"@, 12);
    let tot = pad_left(decimal(r.total_tokens as nat), 12);
    let inp = pad_left(decimal(r.input_tokens as nat), 12);
    let out = pad_left(decimal(r.output_tokens as nat), 12);
    let cac = pad_left(decimal(r.cache_tokens as nat), 12);
    lemma_pad_lengths(decimal(r.total_tokens as nat), 12);
    lemma_pad_lengths(decimal(r.input_tokens as nat), 12);
    lemma_pad_lengths(decimal(r.output_tokens as nat), 12);
    lemma_pad_lengths(decimal(r.cache_tokens as nat), 12);
    let sp = seq![' '];
    let a0 = pad_right(label, 24) + sp;
    let a1 = a0 + tot;
    let a2 = a1 + sp + pad_left(r.share@, 6) + seq!['%'] + sp;
    let a3 = a2 + inp;
    let a4 = a3 + sp;
    let a5 = a4 + out;
    let a6 = a5 + sp;
    let a7 = a6 + cac;
    let row = table_row(r);
    assert(row =~= a7 + seq![' ', ' '] + r.cost@);
    assert(a0.len() == 25 && a2.len() == 46 && a4.len() == 59 && a6.len() == 72);
    assert(row.subrange(25, 37) =~= tot);
    assert(row.subrange(46, 58) =~= inp);
    assert(row.subrange(59, 71) =~= out);
    assert(row.subrange(72, 84) =~= cac);
    let h0 = pad_right(first, 24) + sp;
    let h1 = h0 + pad_left("Tokens"@, 12);
    let h2 = h1 + sp + pad_left("Share"@, 7) + sp;
    let h3 = h2 + pad_left("Input"@, 12);
    let h4 = h3 + sp;
    let h5 = h4 + pad_left("Output"@, 12);
    let h6 = h5 + sp;
    let h7 = h6 + pad_left("Cache"@, 12);
    let header = table_header(first);
    assert(header =~= h7 + "  Cost"@);
    assert(h0.len() == 25 && h2.len() == 46 && h4.len() == 59 && h6.len() == 72);
    assert(header.subrange(25, 37) =~= pad_left("Tokens"@, 12));
    assert(header.subrange(46, 58) =~= pad_left("Input"@, 12));
    assert(header.subrange(59, 71) =~= pad_left("Output"@, 12));
    assert(header.subrange(72, 84) =~= pad_left("Cache"@, 12));
    reveal_strlit("  Cost");
    reveal_strlit("Cost");
    assert(row.subrange(0, 24) =~= pad_right(label, 24));
    assert(header.subrange(0, 24) =~= pad_right(first, 24));
    assert(row.subrange(38, 45) =~= pad_left(r.share@, 6) + seq!['%']);
    assert(header.subrange(38, 45) =~= pad_left("Share"@, 7));
    assert(row.skip(86) =~= r.cost@);
    assert(header.skip(86) =~= "Cost"@);
}


/// The tokens shown for a day are those of the last daily entry with that
/// date, and zero when no entry has it.
pub proof fn lemma_day_total_is_last_entry(daily: Seq<DailyUsage>, d: i32)
    ensures
        (forall|k: int| 0 <= k < daily.len() ==> #[trigger] daily[k].date != d) ==> day_total(daily, d)
            == 0,
        forall|k: int|
            0 <= k < daily.len() && #[trigger] daily[k].date == d && (forall|j: int|
                k < j < daily.len() ==> daily[j].date != d) ==> day_total(daily, d)
                == daily[k].tokens.spec_total(),
    decreases daily.len(),
{
    if daily.len() > 0 {
        let q = daily.drop_last();
        lemma_day_total_is_last_entry(q, d);
        assert forall|k: int|
            0 <= k < daily.len() && #[trigger] daily[k].date == d && (forall|j: int|
                k < j < daily.len() ==> daily[j].date != d) implies day_total(daily, d)
                == daily[k].tokens.spec_total() by {
            if k < daily.len() - 1 {
                assert(daily.last() == daily[daily.len() - 1]);
                assert(q[k] == daily[k]);
                assert forall|j: int| k < j < q.len() implies q[j].date != d by {
                    assert(q[j] == daily[j]);
                }
            }
        }
        if forall|k: int| 0 <= k < daily.len() ==> #[trigger] daily[k].date != d {
            assert(daily[daily.len() - 1].date != d);
            assert forall|k: int| 0 <= k < q.len() implies #[trigger] q[k].date != d by {
                assert(q[k] == daily[k]);
            }
        }
    }
}


/// A day's bar is rounded up: for a day with tokens, not above the busiest
/// day's `maximum`, the bar has the fewest columns whose share of 24 covers
/// the day's share of the maximum, so it is at least `24 * total / maximum`
/// and less than one column more.
pub proof fn lemma_bar_rounds_up(total: u64, maximum: u64)
    requires
        0 < total <= maximum,
    ensures
        bar_len(total, maximum) * maximum >= 24 * total,
        (bar_len(total, maximum) - 1) * maximum < 24 * total,
{
    let t = total as int;
    let m = maximum as int;
    let x = 24 * t + m - 1;
    let c = x / m;
    vstd::arithmetic::div_mod::lemma_fundamental_div_mod(x, m);
    assert(0 <= x % m < m) by {
        vstd::arithmetic::div_mod::lemma_mod_bound(x, m);
    }
    assert(c * m >= 24 * t) by (nonlinear_arith)
        requires
            x == m * c + x % m,
            0 <= x % m < m,
            x == 24 * t + m - 1,
    {
    }
    assert((c - 1) * m < 24 * t) by (nonlinear_arith)
        requires
            x == m * c + x % m,
            0 <= x % m,
            x == 24 * t + m - 1,
    {
    }
    assert(1 <= c <= 24) by (nonlinear_arith)
        requires
            c * m >= 24 * t,
            (c - 1) * m < 24 * t,
            0 < t <= m,
    {
    }
}

/// A table label is the id itself when it has at most 24 characters, and
/// otherwise exactly 24 characters: the start of the id followed by `...`.
pub proof fn lemma_table_label_fits(id: Seq<char>)
    ensures
        table_label(id).len() <= 24,
        id.len() <= 24 ==> table_label(id) == id,
        id.len() > 24 ==> table_label(id).len() == 24 && id.take(21) == table_label(id).take(21)
            && table_label(id).skip(21) == seq!['.', '.', '.'],
{
    if id.len() > 24 {
        assert(table_label(id).take(21) =~= id.take(21));
        assert(table_label(id).skip(21) =~= seq!['.', '.', '.']);
    }
}

} // verus!

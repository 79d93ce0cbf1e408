use shaw_oc_stats::display::{
    chart_exact_values, focused_chart_line, page_panel, shows_scrollbar, PagePanel, search_row_segments, effective_focus, focus_position, highlight_segments, visible_rows,
};
use shaw_oc_stats::search::{
    filter_indices, fuzzy_match_positions, merge_to_ranges, truncate_query_left, SearchState,
};

fn ids(names: &[&str]) -> Vec<String> {
    names.iter().map(|n| n.to_string()).collect()
}

#[test]
fn blank_query_keeps_every_item_in_order() {
    let items = ids(&["mistral-large-2", "gpt-5", "gemini-2.5-pro"]);
    assert_eq!(filter_indices("", &items), vec![0, 1, 2]);
    assert_eq!(filter_indices("   ", &items), vec![0, 1, 2]);
}

#[test]
fn query_keeps_only_matching_items() {
    let items = ids(&["mistral-large-2", "gpt-5", "gemini-2.5-pro"]);
    assert_eq!(filter_indices("large", &items), vec![0]);
    assert_eq!(filter_indices("zzz", &items), Vec::<usize>::new());
}

#[test]
fn every_term_of_a_query_must_match() {
    let items = ids(&["mistral-medium-3", "mistral-small-3", "gpt-5"]);
    assert_eq!(filter_indices("mistral medium", &items), vec![0]);
    let both = filter_indices("mistral", &items);
    assert_eq!(both.len(), 2);
    assert!(both.contains(&0) && both.contains(&1));
}

#[test]
fn equal_scores_keep_the_item_order() {
    let items = ids(&["gpt-5", "gpt-5"]);
    assert_eq!(filter_indices("gpt", &items), vec![0, 1]);
}

#[test]
fn new_search_selects_the_focused_row() {
    let s = SearchState::new(ids(&["a", "b", "c", "d", "e", "f", "g", "h", "i", "j"]), 7);
    assert_eq!(s.query, "");
    assert_eq!(s.filtered_indices, (0..10).collect::<Vec<usize>>());
    assert_eq!(s.selected, 7);
    assert_eq!(s.scroll_offset, 3);
}

#[test]
fn new_search_keeps_the_selection_within_the_list() {
    let s = SearchState::new(ids(&["a", "b", "c"]), 20);
    assert_eq!(s.selected, 2);
    assert_eq!(s.scroll_offset, 0);
    let empty = SearchState::new(Vec::new(), 5);
    assert_eq!(empty.selected, 0);
    assert!(empty.filtered_indices.is_empty());
}

#[test]
fn typing_a_query_moves_to_the_top() {
    let mut s = SearchState::new(ids(&["mistral-large-2", "gpt-5", "gpt-4o", "o3"]), 3);
    s.query = "gpt".to_string();
    s.update_filter();
    assert_eq!(s.selected, 0);
    assert_eq!(s.scroll_offset, 0);
    assert_eq!(s.filtered_indices.len(), 2);
    assert!(s.filtered_indices.contains(&1) && s.filtered_indices.contains(&2));
}

#[test]
fn clearing_the_query_keeps_the_selection() {
    let names: Vec<String> = (0..10).map(|i| format!("model-{i}")).collect();
    let mut s = SearchState::new(names, 9);
    assert_eq!(s.scroll_offset, 5);
    s.update_filter();
    assert_eq!(s.filtered_indices, (0..10).collect::<Vec<usize>>());
    assert_eq!(s.selected, 9);
    assert_eq!(s.scroll_offset, 5);
}

#[test]
fn match_positions_are_sorted_and_unique() {
    assert_eq!(fuzzy_match_positions("gpt", "gpt-5"), vec![0, 1, 2]);
    assert_eq!(fuzzy_match_positions("gpt gp", "gpt-5"), vec![0, 1, 2]);
    assert_eq!(fuzzy_match_positions("", "gpt-5"), Vec::<usize>::new());
    assert_eq!(fuzzy_match_positions("xyz", "gpt-5"), Vec::<usize>::new());
}

#[test]
fn consecutive_positions_merge_into_ranges() {
    assert_eq!(merge_to_ranges(&[0, 1, 2, 5, 6, 9]), vec![(0, 3), (5, 7), (9, 10)]);
    assert_eq!(merge_to_ranges(&[4]), vec![(4, 5)]);
    assert_eq!(merge_to_ranges(&[]), Vec::<(usize, usize)>::new());
}

#[test]
fn short_query_is_not_truncated() {
    assert_eq!(truncate_query_left("gpt", 10), "gpt");
    assert_eq!(truncate_query_left("abcd", 4), "abcd");
}

#[test]
fn long_query_keeps_its_tail_after_an_ellipsis() {
    assert_eq!(truncate_query_left("abcdef", 4), "\u{2026}def");
    assert_eq!(truncate_query_left("abcdef", 1), "\u{2026}");
    assert_eq!(truncate_query_left("abcdef", 0), "\u{2026}");
}

#[test]
fn wide_characters_count_two_columns() {
    assert_eq!(truncate_query_left("日本語", 6), "日本語");
    assert_eq!(truncate_query_left("日本語", 5), "\u{2026}本語");
    assert_eq!(truncate_query_left("日本語", 4), "\u{2026}語");
}

#[test]
fn focus_follows_the_selected_result() {
    let mut s = SearchState::new(ids(&["a", "b", "c"]), 0);
    s.filtered_indices = vec![2, 0];
    s.selected = 0;
    assert_eq!(effective_focus(Some(&s), 1), 2);
    s.filtered_indices = Vec::new();
    assert_eq!(effective_focus(Some(&s), 1), 1);
    assert_eq!(effective_focus(None, 1), 1);
}

#[test]
fn search_list_shows_five_rows_from_the_offset() {
    let names: Vec<String> = (0..8).map(|i| format!("m{i}")).collect();
    let mut s = SearchState::new(names, 0);
    s.scroll_offset = 2;
    s.selected = 3;
    assert_eq!(
        visible_rows(&s),
        vec![(2, false), (3, true), (4, false), (5, false), (6, false)]
    );
    s.scroll_offset = 6;
    assert_eq!(visible_rows(&s), vec![(6, false), (7, false)]);
}

#[test]
fn focus_position_is_one_based_and_clamped() {
    assert_eq!(focus_position(3, 10), (4, 10));
    assert_eq!(focus_position(20, 10), (10, 10));
    assert_eq!(focus_position(0, 0), (1, 1));
}

#[test]
fn highlighted_ranges_split_an_id() {
    assert_eq!(
        highlight_segments(10, &vec![(2, 4), (6, 7)]),
        vec![(0, 2, false), (2, 4, true), (4, 6, false), (6, 7, true), (7, 10, false)]
    );
    assert_eq!(highlight_segments(3, &vec![(0, 3)]), vec![(0, 3, true)]);
    assert_eq!(highlight_segments(4, &vec![]), vec![(0, 4, false)]);
}

#[test]
fn chart_reports_latest_and_peak_values() {
    let values = vec![(1, 0, false), (2, 5, true), (3, 9, true), (4, 9, true), (5, 2, true)];
    assert_eq!(chart_exact_values(&values), Some(((5, 2), (4, 9))));
    let none = vec![(1, 0, false), (2, 0, false)];
    assert_eq!(chart_exact_values(&none), None);
}

#[test]
fn search_hint_counts_results_and_items() {
    assert_eq!(
        shaw_oc_stats::display::search_hint(2, 17),
        "2/17 | \u{2191}/\u{2193} | <esc> quit | <enter> select"
    );
}

#[test]
fn search_box_shows_a_cursor() {
    assert_eq!(shaw_oc_stats::display::search_input("gpt"), "gpt_");
    assert_eq!(shaw_oc_stats::display::search_input(""), "_");
}

#[test]
fn header_position_text() {
    assert_eq!(shaw_oc_stats::display::position_text(2, 12), "3/12");
    assert_eq!(shaw_oc_stats::display::position_text(40, 12), "12/12");
    assert_eq!(shaw_oc_stats::display::position_text(0, 0), "1/1");
}

#[test]
fn search_row_highlights_matched_characters() {
    assert_eq!(search_row_segments("gpt", "gpt-5"), Some(vec![(0, 3, true), (3, 5, false)]));
    assert_eq!(search_row_segments("  ", "gpt-5"), Some(vec![(0, 5, false)]));
    assert_eq!(search_row_segments("zzz", "gpt-5"), Some(vec![(0, 5, false)]));
}

#[test]
fn refreshing_a_fresh_search_changes_nothing() {
    let names: Vec<String> = (0..12).map(|i| format!("model-{i}")).collect();
    let mut s = SearchState::new(names, 7);
    let (selected, scroll, filtered) = (s.selected, s.scroll_offset, s.filtered_indices.clone());
    s.update_filter();
    assert_eq!((s.selected, s.scroll_offset, s.filtered_indices), (selected, scroll, filtered));
}

#[test]
fn filter_results_list_each_item_once() {
    let items = ids(&["gpt-5", "gpt-5-mini", "gpt-4o", "o3"]);
    let r = filter_indices("gpt gpt", &items);
    let mut sorted = r.clone();
    sorted.sort();
    sorted.dedup();
    assert_eq!(sorted.len(), r.len());
    assert_eq!(sorted, vec![0, 1, 2]);
}

#[test]
fn search_row_segments_are_byte_offsets() {
    assert_eq!(
        search_row_segments("model", "na\u{ef}ve-model"),
        Some(vec![(0, 6, false), (6, 11, true), (11, 12, false)])
    );
    assert_eq!(search_row_segments("", "na\u{ef}ve"), Some(vec![(0, 6, false)]));
    assert_eq!(search_row_segments("gpt", "ab\u{65e5}\u{672c}gpt"), None);
}

#[test]
fn chart_line_follows_the_focused_series() {
    let series = vec![
        ("gpt-5".to_string(), vec![(739_000, 10, true)]),
        ("o3".to_string(), vec![(739_000, 0, false)]),
        ("gpt-5".to_string(), vec![(739_000, 99, true)]),
    ];
    assert_eq!(focused_chart_line(Some("o3"), &series), vec![("Exact values: 0 tokens".to_string(), true)]);
    assert_eq!(focused_chart_line(Some("gemini"), &series), vec![("No chart values".to_string(), true)]);
    assert_eq!(focused_chart_line(None, &series), vec![("No chart values".to_string(), true)]);
    let text: String = focused_chart_line(Some("gpt-5"), &series).into_iter().map(|(p, _)| p).collect();
    assert!(text.contains(": 10 | peak "));
}

#[test]
fn page_panels_and_scrollbar() {
    let s = SearchState::new(ids(&["a", "b"]), 0);
    assert_eq!(page_panel(Some(&s), 9, 2), PagePanel::Search);
    assert_eq!(page_panel(None, 1, 2), PagePanel::Detail);
    assert_eq!(page_panel(None, 2, 2), PagePanel::Empty);
    assert!(!shows_scrollbar(5));
    assert!(shows_scrollbar(6));
}

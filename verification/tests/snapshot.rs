use chrono::{Datelike, NaiveDate};
use shaw_oc_stats::clock::to_instant;
use shaw_oc_stats::display::chart_value_line;
use shaw_oc_stats::records::TokenUsage;
use shaw_oc_stats::snapshot::{
    boxed_section, chart_dates, daily_bar, render_snapshot, truncate_table_label,
    AnalyticsSnapshot, DailyUsage, OverviewStats, SnapshotFormat, SnapshotView, TimeRange,
    UsageRow,
};

fn day(y: i32, m: u32, d: u32) -> i32 {
    NaiveDate::from_ymd_opt(y, m, d).unwrap().num_days_from_ce()
}

#[test]
fn daily_chart_uses_a_visible_bar_for_nonzero_values() {
    assert_eq!(daily_bar(0, 100), "");
    assert_eq!(daily_bar(1, 100).chars().count(), 1);
    assert_eq!(daily_bar(100, 100).chars().count(), 24);
}

#[test]
fn limited_ranges_include_inactive_days() {
    let today = day(2026, 7, 31);
    let dates = chart_dates(&vec![], TimeRange::Last7Days, today);

    assert_eq!(dates.len(), 7);
    assert_eq!(dates.first().copied(), Some(day(2026, 7, 25)));
    assert_eq!(dates.last().copied(), Some(today));
}

#[test]
fn bar_lengths_round_up_and_stay_within_width() {
    assert_eq!(daily_bar(50, 100), "############");
    assert_eq!(daily_bar(51, 100).len(), 13);
    assert_eq!(daily_bar(5, 0), "");
    assert_eq!(daily_bar(u64::MAX, u64::MAX).len(), 24);
    assert_eq!(daily_bar(200, 100).len(), 24);
}

#[test]
fn thirty_day_and_all_time_ranges() {
    let today = day(2026, 3, 1);
    let dates = chart_dates(&vec![], TimeRange::Last30Days, today);
    assert_eq!(dates.len(), 30);
    assert_eq!(dates[0], day(2026, 1, 31));
    let daily = vec![
        DailyUsage { date: day(2026, 2, 3), tokens: TokenUsage { input: 1, output: 0, cache_read: 0, cache_write: 0 } },
        DailyUsage { date: day(2026, 2, 1), tokens: TokenUsage { input: 1, output: 0, cache_read: 0, cache_write: 0 } },
    ];
    assert_eq!(chart_dates(&daily, TimeRange::All, today), vec![day(2026, 2, 3), day(2026, 2, 1)]);
    assert_eq!(TimeRange::Last7Days.label(), "Last 7 days");
    assert_eq!(TimeRange::All.start_date(today), None);
}

#[test]
fn table_labels_are_shortened_to_the_column() {
    let short: Vec<char> = "gpt-5".chars().collect();
    assert_eq!(truncate_table_label(&short), short);
    let long: Vec<char> = "abcdefghijklmnopqrstuvwxyz".chars().collect();
    let out: String = truncate_table_label(&long).into_iter().collect();
    assert_eq!(out, "abcdefghijklmnopqrstu...");
}

#[test]
fn boxed_section_draws_a_rectangle() {
    let title: Vec<char> = "T".chars().collect();
    let lines = vec!["abc".chars().collect::<Vec<char>>(), "de".chars().collect()];
    let out: String = boxed_section(&title, &lines).into_iter().collect();
    assert_eq!(out, "+-----+\n| T   |\n+-----+\n| abc |\n| de  |\n+-----+");
}

fn row(id: &str, total: u64) -> UsageRow {
    UsageRow {
        id: id.to_string(),
        total_tokens: total,
        input_tokens: total,
        output_tokens: 0,
        cache_tokens: 0,
        share: "100.00".to_string(),
        cost: "$1.00".to_string(),
    }
}

fn snapshot() -> AnalyticsSnapshot {
    AnalyticsSnapshot {
        overview: OverviewStats {
            total_tokens: 1234,
            input_tokens: 1000,
            output_tokens: 200,
            cache_tokens: 34,
            total_cost: "$1.00".to_string(),
            sessions: 2,
            messages: 5,
            prompts: 3,
            models_used: 1,
            active_days: 1,
        },
        daily: vec![DailyUsage {
            date: day(2026, 7, 30),
            tokens: TokenUsage { input: 1000, output: 200, cache_read: 34, cache_write: 0 },
        }],
        models: vec![row("gpt-5", 1234)],
        providers: vec![],
    }
}

#[test]
fn daily_snapshot_prints_exact_values() {
    let text = render_snapshot(&snapshot(), TimeRange::Last7Days, SnapshotView::Daily, day(2026, 7, 31));
    let lines: Vec<&str> = text.lines().collect();
    assert_eq!(lines[1], "| DAILY TOKEN CHART (EXACT VALUES)                   |");
    assert_eq!(lines[3], "| Date          Tokens        Usage                  |");
    assert_eq!(lines[4], "| 2026-07-25             0                           |");
    assert_eq!(lines[9], "| 2026-07-30          1234  ######################## |");
    assert_eq!(lines.len(), 12);
}

#[test]
fn full_snapshot_has_four_sections() {
    let text = render_snapshot(&snapshot(), TimeRange::All, SnapshotView::All, day(2026, 7, 31));
    assert_eq!(text.split("\n\n").count(), 4);
    assert!(text.contains("| OPENCODE USAGE SNAPSHOT (All time) |"));
    assert!(text.contains("| Total tokens : 1234"));
    assert!(text.contains("| Total cost   : $1.00"));
    assert!(text.contains("gpt-5                            1234 100.00%         1234            0            0  $1.00"));
    assert!(text.contains("No provider activity in this time range."));
    let models = render_snapshot(&snapshot(), TimeRange::All, SnapshotView::Model, day(2026, 7, 31));
    assert!(models.starts_with("+"));
    assert!(models.contains("Model                          Tokens   Share        Input       Output        Cache  Cost"));
    let overview = render_snapshot(&snapshot(), TimeRange::Last30Days, SnapshotView::Overview, day(2026, 7, 31));
    assert_eq!(overview.lines().count(), 14);
    assert!(overview.contains("(Last 30 days)"));
}

#[test]
fn snapshot_defaults() {
    assert_eq!(SnapshotFormat::default(), SnapshotFormat::Terminal);
    assert_eq!(SnapshotView::default(), SnapshotView::All);
    let empty = AnalyticsSnapshot {
        overview: snapshot().overview,
        daily: vec![],
        models: vec![],
        providers: vec![],
    };
    let text = render_snapshot(&empty, TimeRange::All, SnapshotView::Daily, day(2026, 7, 31));
    assert!(text.contains("No activity in this time range."));
}

#[test]
fn chart_line_reports_latest_and_peak_days() {
    let values = vec![
        (day(2026, 7, 28), 0, false),
        (day(2026, 7, 29), 900, true),
        (day(2026, 7, 30), 1234, true),
        (day(2026, 7, 31), 77, true),
    ];
    let pieces = chart_value_line(Some(&values));
    let text: String = pieces.iter().map(|(p, _)| p.as_str()).collect();
    assert_eq!(
        text,
        "Exact tokens \u{2014} latest 07/31: 77 | peak 07/30: 1234 | snapshot --daily"
    );
    assert_eq!(
        pieces.iter().map(|(_, muted)| *muted).collect::<Vec<bool>>(),
        vec![true, false, true, false, true]
    );
}

#[test]
fn chart_line_without_values() {
    let none = vec![(day(2026, 7, 31), 0, false)];
    assert_eq!(chart_value_line(Some(&none)), vec![("Exact values: 0 tokens".to_string(), true)]);
    assert_eq!(chart_value_line(None), vec![("No chart values".to_string(), true)]);
}

#[test]
fn timestamps_outside_the_calendar_are_dropped() {
    assert_eq!(to_instant(Some(1_710_000_000_000)), Some(1_710_000_000_000));
    assert_eq!(to_instant(Some(i64::MAX)), None);
    assert_eq!(to_instant(None), None);
}

use shaw_oc_stats::fetch::{fetch_error, FetchError, FetchFailure};
use shaw_oc_stats::cli::{
    check_snapshot_args, finalize_cache_update, load_app_data, plan_snapshot, select_theme,
    DataLocation, LoadError, PricingAvailability, SnapshotArgsError, SnapshotRange, ThemeError,
    ThemeKind,
};
use shaw_oc_stats::records::InputOptions;
use shaw_oc_stats::snapshot::{SnapshotFormat, SnapshotView, TimeRange};

#[test]
fn cache_update_success_keeps_success_message() {
    let result = finalize_cache_update("/tmp/models.json", None, true).unwrap();
    assert_eq!(result, "Updated /tmp/models.json");
}

#[test]
fn cache_update_failure_returns_error_with_fallback_hint() {
    let err = finalize_cache_update(
        "/tmp/models.json",
        Some(PricingAvailability::OverridesOnly),
        false,
    )
    .unwrap_err();
    let report = color_eyre::eyre::Report::msg("network down").wrap_err(err);
    let message = format!("{report:#}");
    assert!(message.contains("failed to update /tmp/models.json"));
    assert!(message.contains("using local pricing overrides only"));
}

#[test]
fn cache_update_failure_without_catalog_still_returns_error() {
    let err = finalize_cache_update("/tmp/models.json", None, false).unwrap_err();
    let report = color_eyre::eyre::Report::msg("network down").wrap_err(err);
    assert!(format!("{report:#}").contains("current pricing fallback status is unknown"));
}

#[test]
fn cache_update_failure_with_cached_pricing_names_the_cache() {
    let err = finalize_cache_update("/tmp/models.json", Some(PricingAvailability::Cached), false)
        .unwrap_err();
    assert_eq!(err, "failed to update /tmp/models.json; using the cached pricing data");
}

#[test]
fn json_export_is_preferred_over_the_database() {
    let options = InputOptions {
        database_path: Some("/tmp/opencode.db".to_string()),
        json_path: Some("/tmp/export.json".to_string()),
    };
    match load_app_data(&options, Some("/tmp/opencode.db".to_string())) {
        Ok(DataLocation::Json(p)) => assert_eq!(p, "/tmp/export.json"),
        other => panic!("unexpected {other:?}"),
    }
}

#[test]
fn discovered_database_is_used_without_json() {
    let options = InputOptions { database_path: None, json_path: None };
    match load_app_data(&options, Some("/home/me/.local/share/opencode/opencode.db".to_string())) {
        Ok(DataLocation::Sqlite(p)) => assert_eq!(p, "/home/me/.local/share/opencode/opencode.db"),
        other => panic!("unexpected {other:?}"),
    }
}

#[test]
fn missing_database_is_reported() {
    let options = InputOptions { database_path: None, json_path: None };
    assert!(matches!(load_app_data(&options, None), Err(LoadError::DatabaseNotFound)));
}

#[test]
fn snapshot_ranges_convert_to_time_ranges() {
    assert_eq!(TimeRange::from(SnapshotRange::All), TimeRange::All);
    assert_eq!(TimeRange::from(SnapshotRange::Last7Days), TimeRange::Last7Days);
    assert_eq!(TimeRange::from(SnapshotRange::Last30Days), TimeRange::Last30Days);
}

#[test]
fn terminal_snapshot_defaults_to_everything() {
    let plan = plan_snapshot(false, false, false, SnapshotFormat::Terminal, None, None).unwrap();
    assert_eq!(plan.view, SnapshotView::All);
    assert_eq!(plan.image_output, None);
}

#[test]
fn daily_flag_selects_the_daily_view() {
    let plan = plan_snapshot(true, false, false, SnapshotFormat::Terminal, None, None).unwrap();
    assert_eq!(plan.view, SnapshotView::Daily);
    let plan = plan_snapshot(false, true, false, SnapshotFormat::Terminal, None, None).unwrap();
    assert_eq!(plan.view, SnapshotView::Model);
    let plan = plan_snapshot(false, false, true, SnapshotFormat::Terminal, None, None).unwrap();
    assert_eq!(plan.view, SnapshotView::All);
}

#[test]
fn two_view_flags_are_refused() {
    let err = plan_snapshot(true, true, false, SnapshotFormat::Terminal, None, None).unwrap_err();
    assert_eq!(err, SnapshotArgsError::TooManyViews);
    assert_eq!(err.message(), "choose at most one of --daily, --model, or --all");
}

#[test]
fn output_needs_the_image_format() {
    let err = plan_snapshot(
        false,
        false,
        false,
        SnapshotFormat::Terminal,
        Some("/tmp/snapshot.png".to_string()),
        Some("png".to_string()),
    )
    .unwrap_err();
    assert_eq!(err, SnapshotArgsError::OutputWithoutImage);
    assert_eq!(err.message(), "--output can only be used with --format image");
}

#[test]
fn image_format_needs_an_output() {
    let err = plan_snapshot(false, false, false, SnapshotFormat::Image, None, None).unwrap_err();
    assert_eq!(err, SnapshotArgsError::MissingOutput);
    assert_eq!(err.message(), "--output PATH is required with --format image");
}

#[test]
fn image_output_must_be_png() {
    let err = plan_snapshot(
        false,
        false,
        false,
        SnapshotFormat::Image,
        Some("/tmp/snapshot.jpg".to_string()),
        Some("jpg".to_string()),
    )
    .unwrap_err();
    assert_eq!(err, SnapshotArgsError::NotPng);
    assert_eq!(err.message(), "snapshot images must use a .png output path");
}

#[test]
fn image_snapshot_keeps_its_destination() {
    let plan = check_snapshot_args(
        false,
        true,
        false,
        SnapshotFormat::Image,
        Some("/tmp/snapshot.png".to_string()),
    )
    .unwrap();
    assert_eq!(plan.view, SnapshotView::Model);
    assert_eq!(plan.image_output, Some("/tmp/snapshot.png".to_string()));
}

#[test]
fn image_path_without_png_extension_is_refused() {
    let err = check_snapshot_args(
        false,
        false,
        false,
        SnapshotFormat::Image,
        Some("/tmp/snapshot".to_string()),
    )
    .unwrap_err();
    assert_eq!(err, SnapshotArgsError::NotPng);
    let err = check_snapshot_args(
        false,
        false,
        false,
        SnapshotFormat::Image,
        Some("/tmp/snapshot.PNG.txt".to_string()),
    )
    .unwrap_err();
    assert_eq!(err, SnapshotArgsError::NotPng);
}

fn catalog() -> (Vec<String>, Vec<ThemeKind>) {
    (
        vec!["opencode".to_string(), "paper".to_string(), "nord".to_string()],
        vec![ThemeKind::Dark, ThemeKind::Light, ThemeKind::Dark],
    )
}

#[test]
fn configured_theme_of_the_right_kind_is_selected() {
    let (names, kinds) = catalog();
    assert_eq!(select_theme(ThemeKind::Dark, "nord", "paper", &names, &kinds).unwrap(), 2);
    assert_eq!(select_theme(ThemeKind::Light, "nord", "paper", &names, &kinds).unwrap(), 1);
}

#[test]
fn unknown_theme_lists_the_available_ones() {
    let (names, kinds) = catalog();
    let err = select_theme(ThemeKind::Dark, "dracula", "paper", &names, &kinds).unwrap_err();
    assert!(matches!(&err, ThemeError::NotFound { name, .. } if name == "dracula"));
    assert_eq!(
        err.message(),
        "theme 'dracula' not found; available themes: opencode, paper, nord"
    );
}

#[test]
fn theme_of_the_wrong_kind_is_refused() {
    let (names, kinds) = catalog();
    let err = select_theme(ThemeKind::Light, "nord", "opencode", &names, &kinds).unwrap_err();
    assert!(matches!(
        err,
        ThemeError::WrongKind { found: ThemeKind::Dark, expected: ThemeKind::Light, .. }
    ));
    assert_eq!(err.message(), "theme 'opencode' has type Dark, expected Light");
}

#[test]
fn fetch_failures_are_classified() {
    let url = "https://models.dev/api.json";
    assert!(matches!(fetch_error(url, FetchFailure::Build), FetchError::ClientBuild));
    assert!(matches!(
        fetch_error(url, FetchFailure::Send { timed_out: true }),
        FetchError::Timeout { url: u } if u == url
    ));
    assert!(matches!(
        fetch_error(url, FetchFailure::Send { timed_out: false }),
        FetchError::Fetch { url: u } if u == url
    ));
    assert!(matches!(
        fetch_error(url, FetchFailure::BadStatus { status: Some(503) }),
        FetchError::Status { status: 503, .. }
    ));
    assert!(matches!(
        fetch_error(url, FetchFailure::BadStatus { status: None }),
        FetchError::Status { status: 0, .. }
    ));
    assert!(matches!(
        fetch_error(url, FetchFailure::Decode),
        FetchError::JsonDecode { url: u } if u == url
    ));
}

#[test]
fn png_output_with_a_drive_letter_or_a_space_is_accepted() {
    for path in ["C:/out/usage.png", "/tmp/my snapshot.png", "usage.png"] {
        let plan = check_snapshot_args(false, false, false, SnapshotFormat::Image, Some(path.to_string()))
            .unwrap();
        assert_eq!(plan.image_output, Some(path.to_string()));
    }
    for path in ["/tmp/usage.PNG", "/tmp/usage.png.txt", "/tmp/.png", ""] {
        let err = check_snapshot_args(false, false, false, SnapshotFormat::Image, Some(path.to_string()))
            .unwrap_err();
        assert_eq!(err, SnapshotArgsError::NotPng);
    }
}

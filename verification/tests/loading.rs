use shaw_oc_stats::document::{export_values, ExportError};
use shaw_oc_stats::assemble::finalize_app_data;
use shaw_oc_stats::loading::{load_from_json_values, load_from_sqlite, StoredMessageRow, StoredSessionRow};
use shaw_oc_stats::queries::{normalize_optional_text, parse_json_record};
use shaw_oc_stats::records::{
    DataSourceKind, ImportStats, JsonCacheTokensRecord, JsonMessageRecord, JsonModelRecord,
    JsonPathRecord, JsonTimeRecord, JsonTokensRecord, SessionRow, TokenUsage, UsageEvent,
};

fn empty_session(id: &str) -> SessionRow {
    SessionRow {
        id: id.to_string(),
        parent_id: None,
        project_name: None,
        project_worktree: None,
        title: None,
        time_created: None,
        time_updated: None,
        time_archived: None,
    }
}

fn record(role: &str, provider: &str, model: &str, input: u64, output: u64) -> JsonMessageRecord {
    JsonMessageRecord {
        role: Some(role.to_string()),
        provider_id: Some(provider.to_string()),
        model_id: Some(model.to_string()),
        tokens: Some(JsonTokensRecord { input: Some(input), output: Some(output), cache: None }),
        time: Some(JsonTimeRecord {
            created: Some(1_710_000_000_000),
            completed: Some(1_710_000_001_000),
        }),
        path: None,
        agent: None,
        finish: None,
        cost_bits: None,
        model: None,
    }
}

#[test]
fn parses_assistant_json_record() {
    let record = JsonMessageRecord {
        role: Some("assistant".to_string()),
        provider_id: Some("anthropic".to_string()),
        model_id: Some("mistral-large-2".to_string()),
        tokens: Some(JsonTokensRecord {
            input: Some(10),
            output: Some(20),
            cache: Some(JsonCacheTokensRecord { read: Some(1), write: Some(2) }),
        }),
        time: Some(JsonTimeRecord {
            created: Some(1_710_000_000_000),
            completed: Some(1_710_000_001_000),
        }),
        path: Some(JsonPathRecord { cwd: Some("C:/repo".into()), root: None }),
        agent: Some("build".to_string()),
        finish: Some("stop".to_string()),
        cost_bits: None,
        model: None,
    };
    let session = empty_session("ses_1");

    let parsed = parse_json_record(record, &session, DataSourceKind::Json).unwrap();
    let event = parsed.event.unwrap();
    assert_eq!(event.tokens.total(), 33);
    assert_eq!(event.model_id, "mistral-large-2");
    assert_eq!(event.provider_id.as_deref(), Some("anthropic"));
}

#[test]
fn tracks_skipped_json_records_during_import() {
    let values = vec![Some(record("assistant", "openai", "gpt-5", 10, 20)), None];
    let data = load_from_json_values(values, "/tmp/import.json");

    assert_eq!(data.import_stats.skipped_json_records, 1);
    assert_eq!(data.messages.len(), 1);
    assert_eq!(data.events.len(), 1);
}

#[test]
fn tracks_skipped_sqlite_messages_during_import() {
    let sessions = vec![StoredSessionRow {
        id: "ses_1".to_string(),
        parent_id: None,
        project_name: Some("demo".to_string()),
        project_worktree: Some("/tmp/demo".to_string()),
        title: Some("Demo".to_string()),
        time_created: Some(1_710_000_000_000),
        time_updated: Some(1_710_000_001_000),
        time_archived: None,
    }];
    let messages = vec![
        StoredMessageRow {
            session_id: "ses_1".to_string(),
            record: Some(record("assistant", "openai", "gpt-5", 10, 20)),
        },
        // The stored data `not-json` does not read as a record.
        StoredMessageRow { session_id: "ses_1".to_string(), record: None },
    ];

    let data = load_from_sqlite(sessions, messages);

    assert_eq!(data.import_stats.skipped_sqlite_messages, 1);
    assert_eq!(data.messages.len(), 1);
    assert_eq!(data.events.len(), 1);
}

#[test]
fn sqlite_load_uses_session_details_and_records_sessions() {
    let sessions = vec![StoredSessionRow {
        id: "ses_1".to_string(),
        parent_id: Some("ses_0".to_string()),
        project_name: Some("demo".to_string()),
        project_worktree: Some("/tmp/demo".to_string()),
        title: Some("Demo".to_string()),
        time_created: Some(1_710_000_000_000),
        time_updated: Some(1_710_000_001_000),
        time_archived: None,
    }];
    let messages = vec![
        StoredMessageRow {
            session_id: "ses_1".to_string(),
            record: Some(record("assistant", "openai", "gpt-5", 10, 20)),
        },
        StoredMessageRow {
            session_id: "ses_unknown".to_string(),
            record: Some(record("assistant", "openai", "gpt-5", 1, 1)),
        },
    ];
    let data = load_from_sqlite(sessions, messages);
    assert_eq!(data.import_stats.skipped_sqlite_messages, 1);
    assert_eq!(data.source, DataSourceKind::Sqlite);
    assert_eq!(data.session_records.len(), 1);
    assert_eq!(data.session_records[0].created_at, 1_710_000_000_000);
    let event = &data.events[0];
    assert_eq!(event.project_path.as_deref(), Some("/tmp/demo"));
    assert_eq!(event.session_title.as_deref(), Some("Demo"));
    assert_eq!(event.parent_session_id.as_deref(), Some("ses_0"));
    assert_eq!(data.sessions.len(), 1);
    assert_eq!(data.sessions[0].event_count, 1);
}

#[test]
fn user_messages_become_messages_without_events() {
    let parsed = parse_json_record(record("user", "openai", "gpt-5", 10, 20), &empty_session("s"), DataSourceKind::Json).unwrap();
    assert!(parsed.event.is_none());
    assert_eq!(parsed.record.role.as_deref(), Some("user"));
}

#[test]
fn assistant_record_without_model_is_dropped() {
    let mut r = record("assistant", "openai", "  ", 10, 20);
    r.model_id = Some("   ".to_string());
    assert!(parse_json_record(r, &empty_session("s"), DataSourceKind::Json).is_none());
}

#[test]
fn assistant_record_without_tokens_has_no_event() {
    let parsed = parse_json_record(record("assistant", "openai", "gpt-5", 0, 0), &empty_session("s"), DataSourceKind::Json).unwrap();
    assert!(parsed.event.is_none());
    assert_eq!(parsed.record.model_id.as_deref(), Some("gpt-5"));
}

#[test]
fn nested_model_fills_missing_ids() {
    let mut r = record("  assistant ", "x", "y", 5, 0);
    r.provider_id = None;
    r.model_id = Some(" ".to_string());
    r.model = Some(JsonModelRecord {
        provider_id: Some(" anthropic ".to_string()),
        model_id: Some("mistral".to_string()),
    });
    let parsed = parse_json_record(r, &empty_session("s"), DataSourceKind::Json).unwrap();
    let event = parsed.event.unwrap();
    assert_eq!(event.provider_id.as_deref(), Some("anthropic"));
    assert_eq!(event.model_id, "mistral");
    assert_eq!(parsed.record.role.as_deref(), Some("assistant"));
}

#[test]
fn project_path_falls_back_to_root_then_worktree() {
    let mut r = record("assistant", "p", "m", 1, 0);
    r.path = Some(JsonPathRecord { cwd: None, root: Some("/root/proj".to_string()) });
    let mut s = empty_session("s");
    s.project_worktree = Some("/work".to_string());
    let e = parse_json_record(r, &s, DataSourceKind::Json).unwrap().event.unwrap();
    assert_eq!(e.project_path.as_deref(), Some("/root/proj"));
    let e2 = parse_json_record(record("assistant", "p", "m", 1, 0), &s, DataSourceKind::Json).unwrap().event.unwrap();
    assert_eq!(e2.project_path.as_deref(), Some("/work"));
}

#[test]
fn normalizes_optional_text() {
    assert_eq!(normalize_optional_text(Some("  a b \t".to_string())).as_deref(), Some("a b"));
    assert_eq!(normalize_optional_text(Some(" \u{3000} ".to_string())), None);
    assert_eq!(normalize_optional_text(None), None);
}

#[test]
fn json_session_id_comes_from_working_directory() {
    let mut r = record("assistant", "p", "m", 1, 0);
    r.path = Some(JsonPathRecord { cwd: Some("/tmp/ses_abc".to_string()), root: None });
    let mut r2 = record("assistant", "p", "m", 1, 0);
    r2.path = Some(JsonPathRecord { cwd: Some("/tmp/other".to_string()), root: None });
    let data = load_from_json_values(vec![Some(r), Some(r2)], "/tmp/export.json");
    let ids: Vec<&str> = data.messages.iter().map(|m| m.session_id.as_str()).collect();
    assert_eq!(ids, vec!["ses_abc", "export"]);
    assert_eq!(data.sessions.len(), 2);
}

fn event(session: &str, created: Option<i64>, input: u64) -> UsageEvent {
    UsageEvent {
        session_id: session.to_string(),
        parent_session_id: None,
        session_title: None,
        session_started_at: None,
        session_archived_at: None,
        project_name: None,
        project_path: None,
        provider_id: None,
        model_id: "m".to_string(),
        agent: None,
        finish_reason: None,
        tokens: TokenUsage { input, output: 0, cache_read: 0, cache_write: 0 },
        created_at: created,
        completed_at: None,
        stored_cost_bits: None,
        source: DataSourceKind::Json,
    }
}

#[test]
fn finalize_orders_events_and_sessions() {
    let events = vec![
        event("b", Some(30), 1),
        event("a", Some(10), 2),
        event("b", Some(10), 3),
        event("a", None, 4),
        event("c", Some(50), 5),
    ];
    let stats = ImportStats { skipped_sqlite_messages: 0, skipped_json_records: 0 };
    let data = finalize_app_data(events, Vec::new(), Vec::new(), stats, DataSourceKind::Json);
    let order: Vec<u64> = data.events.iter().map(|e| e.tokens.input).collect();
    assert_eq!(order, vec![4, 2, 3, 1, 5]);
    let sessions: Vec<(&str, Option<i64>, Option<i64>, usize)> = data
        .sessions
        .iter()
        .map(|s| (s.session_id.as_str(), s.started_at, s.last_event_at, s.event_count))
        .collect();
    assert_eq!(
        sessions,
        vec![("c", Some(50), Some(50), 1), ("b", Some(10), Some(30), 2), ("a", None, Some(10), 2)]
    );
}

#[test]
fn token_total_saturates() {
    let t = TokenUsage { input: u64::MAX, output: 5, cache_read: 0, cache_write: 0 };
    assert_eq!(t.total(), u64::MAX);
}

#[test]
fn normalizing_twice_changes_nothing() {
    let once = normalize_optional_text(Some("\t mistral-medium-3 \n".to_string()));
    assert_eq!(once.as_deref(), Some("mistral-medium-3"));
    assert_eq!(normalize_optional_text(once.clone()), once);
}

#[test]
fn export_without_file_stem_uses_json() {
    let data = load_from_json_values(vec![Some(record("assistant", "p", "m", 1, 0))], "");
    assert_eq!(data.messages[0].session_id, "json");
}

#[test]
fn sessions_starting_together_list_the_later_id_first() {
    let events = vec![event("x", Some(5), 1), event("y", Some(5), 2), event("x", Some(7), 3)];
    let stats = ImportStats { skipped_sqlite_messages: 0, skipped_json_records: 0 };
    let data = finalize_app_data(events, Vec::new(), Vec::new(), stats, DataSourceKind::Json);
    let ids: Vec<&str> = data.sessions.iter().map(|s| s.session_id.as_str()).collect();
    assert_eq!(ids, vec!["y", "x"]);
    let order: Vec<u64> = data.events.iter().map(|e| e.tokens.input).collect();
    assert_eq!(order, vec![1, 2, 3]);
}

#[test]
fn session_ids_come_from_any_directory_path() {
    let mut a = record("assistant", "p", "m", 1, 0);
    a.path = Some(JsonPathRecord { cwd: Some("C:/repo/ses_1".to_string()), root: None });
    let mut b = record("assistant", "p", "m", 1, 0);
    b.path = Some(JsonPathRecord { cwd: None, root: Some("/home/John Doe/ses_2".to_string()) });
    let c = record("assistant", "p", "m", 1, 0);
    let data = load_from_json_values(vec![Some(a), Some(b), Some(c)], "/tmp/my export.json");
    let ids: Vec<&str> = data.messages.iter().map(|m| m.session_id.as_str()).collect();
    assert_eq!(ids, vec!["ses_1", "ses_2", "my export"]);
}

#[test]
fn export_array_lists_its_records() {
    let items = export_values(r#"[{"role":"user"}, 42]"#).unwrap();
    assert_eq!(items, vec![r#"{"role":"user"}"#.to_string(), "42".to_string()]);
}

#[test]
fn export_lone_object_is_one_record() {
    let items = export_values(r#"{"role":"assistant","modelID":"gpt-5"}"#).unwrap();
    assert_eq!(items, vec![r#"{"modelID":"gpt-5","role":"assistant"}"#.to_string()]);
}

#[test]
fn export_of_other_json_or_no_json_is_refused() {
    assert_eq!(export_values("42").unwrap_err(), ExportError::NotArrayOrObject);
    assert_eq!(export_values("\"text\"").unwrap_err(), ExportError::NotArrayOrObject);
    assert_eq!(export_values("{not json").unwrap_err(), ExportError::NotJson);
    assert_eq!(export_values("").unwrap_err(), ExportError::NotJson);
}

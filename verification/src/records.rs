//! The records that the loaders produce: messages, usage events, sessions,
//! and the raw message records read from a database or an export.

use vstd::prelude::*;

verus! {

/// Where a record was read from.
#[derive(Clone, Copy, Debug, PartialEq, Eq, Structural)]
pub enum DataSourceKind {
    Sqlite,
    Json,
}

/// Token counts of one assistant response.
#[derive(Clone, Copy, Debug, PartialEq, Eq, Structural)]
pub struct TokenUsage {
    pub input: u64,
    pub output: u64,
    pub cache_read: u64,
    pub cache_write: u64,
}

impl TokenUsage {
    /// The sum of all four counts.
    pub open spec fn sum(self) -> int {
        self.input + self.output + self.cache_read + self.cache_write
    }

    /// The sum of all four counts, capped at `u64::MAX`.
    pub open spec fn spec_total(self) -> u64 {
        if self.sum() > u64::MAX {
            u64::MAX
        } else {
            self.sum() as u64
        }
    }

    /// Total tokens of the response.
    pub fn total(&self) -> (r: u64)
        ensures
            r == self.spec_total(),
    {
        self.input.saturating_add(self.output).saturating_add(self.cache_read).saturating_add(
            self.cache_write,
        )
    }
}

/// The cache part of a message's token counts, as exported.
#[derive(Debug)]
pub struct JsonCacheTokensRecord {
    pub read: Option<u64>,
    pub write: Option<u64>,
}

/// A message's token counts, as exported.
#[derive(Debug)]
pub struct JsonTokensRecord {
    pub input: Option<u64>,
    pub output: Option<u64>,
    pub cache: Option<JsonCacheTokensRecord>,
}

/// A message's timestamps in milliseconds since the Unix epoch, as exported.
#[derive(Debug)]
pub struct JsonTimeRecord {
    pub created: Option<i64>,
    pub completed: Option<i64>,
}

/// The working directory and project root of a message, as exported.
#[derive(Debug)]
pub struct JsonPathRecord {
    pub cwd: Option<String>,
    pub root: Option<String>,
}

/// The nested model description of a message, as exported.
#[derive(Debug)]
pub struct JsonModelRecord {
    pub provider_id: Option<String>,
    pub model_id: Option<String>,
}

/// One message as stored by OpenCode. `cost_bits` holds the IEEE-754 bits of
/// the recorded cost in US dollars; the library only carries it along.
#[derive(Debug)]
pub struct JsonMessageRecord {
    pub role: Option<String>,
    pub provider_id: Option<String>,
    pub model_id: Option<String>,
    pub tokens: Option<JsonTokensRecord>,
    pub time: Option<JsonTimeRecord>,
    pub path: Option<JsonPathRecord>,
    pub agent: Option<String>,
    pub finish: Option<String>,
    pub cost_bits: Option<u64>,
    pub model: Option<JsonModelRecord>,
}

/// What the loaders know of the session a message belongs to. Times are
/// instants in milliseconds since the Unix epoch.
#[derive(Debug)]
pub struct SessionRow {
    pub id: String,
    pub parent_id: Option<String>,
    pub project_name: Option<String>,
    pub project_worktree: Option<String>,
    pub title: Option<String>,
    pub time_created: Option<i64>,
    pub time_updated: Option<i64>,
    pub time_archived: Option<i64>,
}

/// One message of any role.
#[derive(Debug)]
pub struct MessageRecord {
    pub session_id: String,
    pub role: Option<String>,
    pub provider_id: Option<String>,
    pub model_id: Option<String>,
    pub created_at: Option<i64>,
    pub source: DataSourceKind,
}

/// One assistant response that used tokens.
#[derive(Debug)]
pub struct UsageEvent {
    pub session_id: String,
    pub parent_session_id: Option<String>,
    pub session_title: Option<String>,
    pub session_started_at: Option<i64>,
    pub session_archived_at: Option<i64>,
    pub project_name: Option<String>,
    pub project_path: Option<String>,
    pub provider_id: Option<String>,
    pub model_id: String,
    pub agent: Option<String>,
    pub finish_reason: Option<String>,
    pub tokens: TokenUsage,
    pub created_at: Option<i64>,
    pub completed_at: Option<i64>,
    pub stored_cost_bits: Option<u64>,
    pub source: DataSourceKind,
}

/// A session with both its creation and its last update time.
#[derive(Debug)]
pub struct SessionRecord {
    pub session_id: String,
    pub created_at: i64,
    pub updated_at: i64,
}

/// Counts of records that could not be used.
#[derive(Clone, Copy, Debug, PartialEq, Eq, Structural)]
pub struct ImportStats {
    pub skipped_sqlite_messages: usize,
    pub skipped_json_records: usize,
}

/// The events of one session, summarised.
#[derive(Debug)]
pub struct SessionSummary {
    pub session_id: String,
    pub started_at: Option<i64>,
    pub last_event_at: Option<i64>,
    pub event_count: usize,
}

impl SessionSummary {
    /// When the session's first event was created.
    pub fn start_time(&self) -> (r: Option<i64>)
        ensures
            r == self.started_at,
    {
        self.started_at
    }
}

/// Everything that was loaded.
#[derive(Debug)]
pub struct AppData {
    pub events: Vec<UsageEvent>,
    pub messages: Vec<MessageRecord>,
    pub session_records: Vec<SessionRecord>,
    pub import_stats: ImportStats,
    pub sessions: Vec<SessionSummary>,
    pub source: DataSourceKind,
}

/// Where to read usage data from, as given on the command line.
#[derive(Debug)]
pub struct InputOptions {
    pub database_path: Option<String>,
    pub json_path: Option<String>,
}

/// The view of an optional string.
pub open spec fn opt_view(o: Option<String>) -> Option<Seq<char>> {
    match o {
        Some(s) => Some(s@),
        None => None,
    }
}

/// Copies an optional string.
pub fn clone_opt(o: &Option<String>) -> (r: Option<String>)
    ensures
        r == *o,
{
    match o {
        Some(s) => Some(s.clone()),
        None => None,
    }
}

} // verus!

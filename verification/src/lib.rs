//! Usage statistics for OpenCode sessions: loading message records into
//! usage events, fuzzy search over model and provider lists, and plain-text
//! usage snapshots.

pub mod assemble;
pub mod cli;
pub mod clock;
pub mod display;
pub mod document;
pub mod fetch;
pub mod fuzzy;
pub mod loading;
pub mod ordering;
pub mod queries;
pub mod records;
pub mod search;
pub mod snapshot;
pub mod text;

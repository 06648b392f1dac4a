//! A store of shell-command history entries.
//!
//! Every entry is identified by the triple of host name, working directory and
//! command text. Recording the same triple again refreshes the entry instead of
//! duplicating it, so that a search lists the most recently used commands first.
//!
//! The table lives in memory, and it settles three things that a relational
//! table behind a unique constraint leaves to its engine:
//!
//! - the time of a recording is the caller's (`create_history_at`) or the
//!   process clock's (`create_history`);
//! - of rows with equal `updated_at`, the one touched last is listed first;
//! - recording a triple that exists uses up no identifier.

pub mod actions;
mod clock;
pub mod laws;
pub mod models;
pub mod table;

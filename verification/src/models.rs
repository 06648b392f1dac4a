//! The values that pass between the store and its callers, each with the
//! mathematical view that the contracts speak of.

use vstd::prelude::*;

verus! {

/// One stored history entry.
///
/// Timestamps count microseconds since the Unix epoch, in UTC.
#[derive(Debug)]
pub struct History {
    pub id: i32,
    pub hostname: String,
    pub working_directory: Option<String>,
    pub command: String,
    pub created_at: i64,
    pub updated_at: i64,
}

/// What a [`History`] stands for in specifications.
pub struct HistoryView {
    pub id: int,
    pub hostname: Seq<char>,
    pub working_directory: Option<Seq<char>>,
    pub command: Seq<char>,
    pub created_at: int,
    pub updated_at: int,
}

/// The triple that identifies a logical entry: at most one stored row carries it.
pub struct IdentityKey {
    pub hostname: Seq<char>,
    pub working_directory: Seq<char>,
    pub command: Seq<char>,
}

impl HistoryView {
    /// Whether this row is the one that `key` identifies.
    pub open spec fn has_key(self, key: IdentityKey) -> bool {
        &&& self.hostname == key.hostname
        &&& self.working_directory == Some(key.working_directory)
        &&& self.command == key.command
    }

    /// Whether two rows carry the same identity.
    pub open spec fn same_identity(self, other: HistoryView) -> bool {
        &&& self.hostname == other.hostname
        &&& self.working_directory == other.working_directory
        &&& self.command == other.command
    }

    /// Whether the row was recorded in exactly the directory `dir`.
    pub open spec fn in_directory(self, dir: Seq<char>) -> bool {
        self.working_directory == Some(dir)
    }

    /// The row as it is first written: both timestamps are `now`.
    pub open spec fn fresh(id: int, key: IdentityKey, now: int) -> HistoryView {
        HistoryView {
            id,
            hostname: key.hostname,
            working_directory: Some(key.working_directory),
            command: key.command,
            created_at: now,
            updated_at: now,
        }
    }

    /// The row after it was recorded again at `now`: only `updated_at` moves.
    pub open spec fn refreshed(self, now: int) -> HistoryView {
        HistoryView { updated_at: now, ..self }
    }
}

impl View for History {
    type V = HistoryView;

    open spec fn view(&self) -> HistoryView {
        HistoryView {
            id: self.id as int,
            hostname: self.hostname@,
            working_directory: match self.working_directory {
                Some(dir) => Some(dir@),
                None => None,
            },
            command: self.command@,
            created_at: self.created_at as int,
            updated_at: self.updated_at as int,
        }
    }
}

impl Clone for History {
    fn clone(&self) -> (copy: History)
        ensures
            copy@ == self@,
    {
        History {
            id: self.id,
            hostname: self.hostname.clone(),
            working_directory: match &self.working_directory {
                Some(dir) => Some(dir.clone()),
                None => None,
            },
            command: self.command.clone(),
            created_at: self.created_at,
            updated_at: self.updated_at,
        }
    }
}

/// The views of a sequence of entries, in the same order.
pub open spec fn views(entries: Seq<History>) -> Seq<HistoryView> {
    entries.map_values(|entry: History| entry@)
}

/// The fields a caller supplies to record a command.
#[derive(Debug)]
pub struct NewHistory {
    pub hostname: String,
    pub working_directory: String,
    pub command: String,
}

impl View for NewHistory {
    type V = IdentityKey;

    open spec fn view(&self) -> IdentityKey {
        IdentityKey {
            hostname: self.hostname@,
            working_directory: self.working_directory@,
            command: self.command@,
        }
    }
}

impl NewHistory {
    /// The confirmation a caller gets once the fields were recorded.
    pub fn confirmation(&self) -> (message: String)
        ensures
            message@ == "Successfully created"@,
    {
        "Successfully created".to_owned()
    }
}

/// A list of entries, as a search hands it out.
#[derive(Debug)]
pub struct Histories {
    pub elements: Vec<History>,
}

impl View for Histories {
    type V = Seq<HistoryView>;

    open spec fn view(&self) -> Seq<HistoryView> {
        views(self.elements@)
    }
}

/// How many rows a deletion removed, with a confirmation for the caller.
#[derive(Debug)]
pub struct DeletedHistoryCount {
    pub count: usize,
    pub message: String,
}

impl DeletedHistoryCount {
    /// The report on a deletion that removed `count` rows.
    pub fn new(count: usize) -> (report: DeletedHistoryCount)
        ensures
            report.count == count,
            report.message@ == "Successfully deleted"@,
    {
        DeletedHistoryCount { count, message: "Successfully deleted".to_owned() }
    }
}

/// What a search is restricted to: a working directory, or nothing.
#[derive(Debug)]
pub struct SearchFilter {
    pub pwd: Option<String>,
}

impl View for SearchFilter {
    type V = Option<Seq<char>>;

    open spec fn view(&self) -> Option<Seq<char>> {
        match self.pwd {
            Some(dir) => Some(dir@),
            None => None,
        }
    }
}

/// How a search is to be carried out: which directory it is restricted to,
/// and after how many rows it stops.
#[derive(Debug)]
pub struct SearchPlan {
    pub directory: Option<String>,
    pub limit: Option<usize>,
}

impl SearchPlan {
    /// The directory of the plan as a value of specifications.
    pub open spec fn directory_view(self) -> Option<Seq<char>> {
        match self.directory {
            Some(dir) => Some(dir@),
            None => None,
        }
    }
}

/// Why the store could not carry out an operation.
#[derive(Debug, Clone, Copy, PartialEq, Eq, Structural)]
pub enum StoreError {
    /// Every identifier has been handed out: no new row can be created.
    IdentifiersExhausted,
}

} // verus!

//! The table of history entries as a mathematical value, and what each store
//! operation does to it.
//!
//! Rows are kept newest first: the order of the sequence is the order in which
//! a search lists them.

use vstd::prelude::*;
use crate::models::{HistoryView, IdentityKey};

verus! {

/// The largest identifier the table can assign.
pub const MAX_ID: i32 = 0x7fff_ffff;

/// The ceiling on the number of rows an unfiltered search returns.
pub const SEARCH_LIMIT: usize = 10_000;

/// The rows of the table, most recently touched first, and the last
/// identifier that was handed out.
pub struct TableState {
    pub rows: Seq<HistoryView>,
    pub last_id: int,
}

/// Every identifier lies between 1 and `last_id`, and every row names its
/// working directory.
pub open spec fn rows_well_formed(rows: Seq<HistoryView>, last_id: int) -> bool {
    forall|i: int|
        0 <= i < rows.len() ==> {
            &&& 1 <= (#[trigger] rows[i]).id <= last_id
            &&& rows[i].working_directory is Some
        }
}

/// No two rows share an identifier.
pub open spec fn ids_unique(rows: Seq<HistoryView>) -> bool {
    forall|i: int, j: int|
        0 <= i < j < rows.len() ==> (#[trigger] rows[i]).id != (#[trigger] rows[j]).id
}

/// No two rows share host name, working directory and command.
pub open spec fn identities_unique(rows: Seq<HistoryView>) -> bool {
    forall|i: int, j: int|
        0 <= i < j < rows.len() ==> !(#[trigger] rows[i]).same_identity(#[trigger] rows[j])
}

/// `updated_at` never increases along the sequence.
pub open spec fn newest_first(rows: Seq<HistoryView>) -> bool {
    forall|i: int, j: int|
        0 <= i <= j < rows.len() ==> (#[trigger] rows[i]).updated_at >= (#[trigger] rows[j]).updated_at
}

/// Whether `k` is where a row touched at `now` belongs: behind every row that
/// is strictly newer, ahead of all others.
pub open spec fn is_slot(rows: Seq<HistoryView>, now: int, k: int) -> bool {
    &&& 0 <= k <= rows.len()
    &&& forall|j: int| 0 <= j < k ==> (#[trigger] rows[j]).updated_at > now
    &&& forall|j: int| k <= j < rows.len() ==> (#[trigger] rows[j]).updated_at <= now
}

/// The rows recorded in exactly the directory `dir`.
pub open spec fn recorded_in(dir: Seq<char>) -> spec_fn(HistoryView) -> bool {
    |row: HistoryView| row.in_directory(dir)
}

/// The rows that a search restricted to `directory` and stopped after
/// `limit` rows takes from `rows`, in their order.
pub open spec fn selected(
    rows: Seq<HistoryView>,
    directory: Option<Seq<char>>,
    limit: Option<usize>,
) -> Seq<HistoryView> {
    let matching = match directory {
        Some(dir) => rows.filter(recorded_in(dir)),
        None => rows,
    };
    match limit {
        Some(most) => if matching.len() <= most {
            matching
        } else {
            matching.take(most as int)
        },
        None => matching,
    }
}

/// The position at which a row touched at `now` enters `rows`.
pub open spec fn slot(rows: Seq<HistoryView>, now: int) -> int {
    choose|k: int| is_slot(rows, now, k)
}

impl TableState {
    /// The table before anything was recorded.
    pub open spec fn empty() -> TableState {
        TableState { rows: Seq::empty(), last_id: 0 }
    }

    /// The invariant of the table.
    pub open spec fn valid(self) -> bool {
        &&& 0 <= self.last_id <= MAX_ID
        &&& rows_well_formed(self.rows, self.last_id)
        &&& ids_unique(self.rows)
        &&& identities_unique(self.rows)
        &&& newest_first(self.rows)
    }

    /// Whether some row has the identifier `id`.
    pub open spec fn has_id(self, id: int) -> bool {
        exists|i: int| 0 <= i < self.rows.len() && (#[trigger] self.rows[i]).id == id
    }

    /// The position of the row with identifier `id`, where there is one.
    pub open spec fn index_of_id(self, id: int) -> int {
        choose|i: int| 0 <= i < self.rows.len() && (#[trigger] self.rows[i]).id == id
    }

    /// Whether some row is identified by `key`.
    pub open spec fn has_key(self, key: IdentityKey) -> bool {
        exists|i: int| 0 <= i < self.rows.len() && (#[trigger] self.rows[i]).has_key(key)
    }

    /// The position of the row identified by `key`, where there is one.
    pub open spec fn index_of_key(self, key: IdentityKey) -> int {
        choose|i: int| 0 <= i < self.rows.len() && (#[trigger] self.rows[i]).has_key(key)
    }

    /// The row with identifier `id`, or `None`.
    pub open spec fn find(self, id: int) -> Option<HistoryView> {
        if self.has_id(id) {
            Some(self.rows[self.index_of_id(id)])
        } else {
            None
        }
    }

    /// The row identified by `key`, or `None`.
    pub open spec fn lookup(self, key: IdentityKey) -> Option<HistoryView> {
        if self.has_key(key) {
            Some(self.rows[self.index_of_key(key)])
        } else {
            None
        }
    }

    /// What a search returns. With a directory: every row recorded in exactly
    /// that directory. Without one: the first `SEARCH_LIMIT` rows. Either way
    /// in table order, newest first.
    pub open spec fn search(self, pwd: Option<Seq<char>>) -> Seq<HistoryView> {
        match pwd {
            Some(dir) => self.rows.filter(recorded_in(dir)),
            None => if self.rows.len() <= SEARCH_LIMIT {
                self.rows
            } else {
                self.rows.take(SEARCH_LIMIT as int)
            },
        }
    }

    /// Whether recording `key` can succeed: the row exists already, or an
    /// identifier is left for a new one.
    pub open spec fn can_record(self, key: IdentityKey) -> bool {
        self.has_key(key) || self.last_id < MAX_ID
    }

    /// The table after `key` was recorded at `now`.
    ///
    /// An existing row keeps its identifier and `created_at`, takes `now` as
    /// `updated_at` and moves to where that time belongs. Otherwise a new row
    /// with the next identifier enters there.
    pub open spec fn record(self, key: IdentityKey, now: int) -> TableState {
        if self.has_key(key) {
            let i = self.index_of_key(key);
            let rest = self.rows.remove(i);
            let row = self.rows[i].refreshed(now);
            TableState { rows: rest.insert(slot(rest, now), row), last_id: self.last_id }
        } else {
            let row = HistoryView::fresh(self.last_id + 1, key, now);
            TableState {
                rows: self.rows.insert(slot(self.rows, now), row),
                last_id: self.last_id + 1,
            }
        }
    }

    /// How many rows deleting `id` removes.
    pub open spec fn deleted_count(self, id: int) -> nat {
        if self.has_id(id) {
            1
        } else {
            0
        }
    }

    /// The table after the row with identifier `id`, if any, was deleted.
    pub open spec fn delete(self, id: int) -> TableState {
        if self.has_id(id) {
            TableState { rows: self.rows.remove(self.index_of_id(id)), last_id: self.last_id }
        } else {
            self
        }
    }
}

/// A position that meets `is_slot` is the slot: there is only one.
pub proof fn lemma_slot_is(rows: Seq<HistoryView>, now: int, k: int)
    requires
        is_slot(rows, now, k),
    ensures
        slot(rows, now) == k,
{
    let s = slot(rows, now);
    if s < k {
        assert(rows[s].updated_at > now);
    } else if k < s {
        assert(rows[k].updated_at > now);
    }
}

/// Rows that are newest first have a slot for every time.
pub proof fn lemma_slot_exists(rows: Seq<HistoryView>, now: int)
    requires
        newest_first(rows),
    ensures
        is_slot(rows, now, slot(rows, now)),
    decreases rows.len(),
{
    if rows.len() == 0 {
        assert(is_slot(rows, now, 0));
    } else if rows.last().updated_at > now {
        assert(is_slot(rows, now, rows.len() as int));
    } else {
        let front = rows.drop_last();
        lemma_slot_exists(front, now);
        let k = slot(front, now);
        assert forall|j: int| 0 <= j < rows.len() implies if j < k {
            (#[trigger] rows[j]).updated_at > now
        } else {
            rows[j].updated_at <= now
        } by {
            if j < front.len() {
                assert(front[j] == rows[j]);
            }
        }
        assert(is_slot(rows, now, k));
    }
}

/// Where position `j` of a sequence without its element `i` lay before the
/// removal.
pub open spec fn skip_over(i: int, j: int) -> int {
    if j < i {
        j
    } else {
        j + 1
    }
}

/// Where position `j` of a sequence with an element put in at `k` lay before
/// the insertion, for `j` other than `k`.
pub open spec fn close_up(k: int, j: int) -> int {
    if j < k {
        j
    } else {
        j - 1
    }
}

/// Taking a row out keeps what holds of the rows.
pub proof fn lemma_remove_keeps(rows: Seq<HistoryView>, last_id: int, i: int)
    requires
        0 <= i < rows.len(),
        rows_well_formed(rows, last_id),
        ids_unique(rows),
        identities_unique(rows),
        newest_first(rows),
    ensures
        rows_well_formed(rows.remove(i), last_id),
        ids_unique(rows.remove(i)),
        identities_unique(rows.remove(i)),
        newest_first(rows.remove(i)),
        forall|j: int|
            0 <= j < rows.remove(i).len() ==> (#[trigger] rows.remove(i)[j]).id != rows[i].id
                && !rows.remove(i)[j].same_identity(rows[i]),
{
    let rest = rows.remove(i);
    assert forall|j: int| 0 <= j < rest.len() implies #[trigger] rest[j] == rows[skip_over(i, j)] by {}
}

/// Putting a row that is new to the table into its slot keeps what holds of
/// the rows.
pub proof fn lemma_insert_keeps(rows: Seq<HistoryView>, last_id: int, k: int, row: HistoryView)
    requires
        rows_well_formed(rows, last_id),
        ids_unique(rows),
        identities_unique(rows),
        newest_first(rows),
        is_slot(rows, row.updated_at, k),
        1 <= row.id <= last_id,
        row.working_directory is Some,
        forall|j: int|
            0 <= j < rows.len() ==> (#[trigger] rows[j]).id != row.id && !rows[j].same_identity(row),
    ensures
        rows_well_formed(rows.insert(k, row), last_id),
        ids_unique(rows.insert(k, row)),
        identities_unique(rows.insert(k, row)),
        newest_first(rows.insert(k, row)),
{
    let next = rows.insert(k, row);
    assert forall|j: int| 0 <= j < next.len() implies #[trigger] next[j] == if j == k {
        row
    } else {
        rows[close_up(k, j)]
    } by {}
}

impl TableState {
    /// In a valid table the row at position `i` is the one its identifier
    /// and its identity find.
    pub proof fn lemma_positions(self, i: int)
        requires
            self.valid(),
            0 <= i < self.rows.len(),
        ensures
            self.has_id(self.rows[i].id),
            self.index_of_id(self.rows[i].id) == i,
            forall|key: IdentityKey| #[trigger]
                self.rows[i].has_key(key) ==> self.has_key(key) && self.index_of_key(key) == i,
    {
    }

    /// Recording keeps the table valid.
    pub proof fn lemma_record_valid(self, key: IdentityKey, now: int)
        requires
            self.valid(),
            self.can_record(key),
        ensures
            self.record(key, now).valid(),
    {
        if self.has_key(key) {
            let i = self.index_of_key(key);
            let rest = self.rows.remove(i);
            lemma_remove_keeps(self.rows, self.last_id, i);
            lemma_slot_exists(rest, now);
            lemma_insert_keeps(rest, self.last_id, slot(rest, now), self.rows[i].refreshed(now));
        } else {
            let row = HistoryView::fresh(self.last_id + 1, key, now);
            lemma_slot_exists(self.rows, now);
            lemma_insert_keeps(self.rows, self.last_id + 1, slot(self.rows, now), row);
        }
    }

    /// Deleting keeps the table valid.
    pub proof fn lemma_delete_valid(self, id: int)
        requires
            self.valid(),
        ensures
            self.delete(id).valid(),
    {
        if self.has_id(id) {
            lemma_remove_keeps(self.rows, self.last_id, self.index_of_id(id));
        }
    }
}

} // verus!

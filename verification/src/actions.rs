//! The store: a table of history entries and the four operations on it.

use vstd::prelude::*;
use crate::clock::utc_now_micros;
use crate::models::{
    views, DeletedHistoryCount, History, HistoryView, IdentityKey, NewHistory, SearchFilter,
    SearchPlan, StoreError,
};
use crate::table::{
    is_slot, lemma_insert_keeps, lemma_remove_keeps, lemma_slot_is, newest_first, recorded_in,
    selected, TableState, MAX_ID, SEARCH_LIMIT,
};

verus! {

/// The table that the operations work on.
///
/// Its rows are private: whatever a caller holds is a valid table.
pub struct Table {
    rows: Vec<History>,
    last_id: i32,
}

impl View for Table {
    type V = TableState;

    closed spec fn view(&self) -> TableState {
        TableState { rows: views(self.rows@), last_id: self.last_id as int }
    }
}

impl Table {
    #[verifier::type_invariant]
    spec fn well_formed(self) -> bool {
        self@.valid()
    }

    /// An empty table.
    pub fn new() -> (table: Table)
        ensures
            table@ == TableState::empty(),
    {
        let table = Table { rows: Vec::new(), last_id: 0 };
        assert(table@.rows =~= Seq::empty());
        table
    }

    /// An empty table that numbers its rows from `last_id + 1` on, as one
    /// does that takes the place of an earlier table.
    ///
    /// Returns `None` for a negative `last_id`: identifiers start at 1.
    pub fn with_last_id(last_id: i32) -> (table: Option<Table>)
        ensures
            match table {
                Some(table) => last_id >= 0 && table@ == (TableState {
                    rows: Seq::empty(),
                    last_id: last_id as int,
                }),
                None => last_id < 0,
            },
    {
        if last_id < 0 {
            return None;
        }
        let table = Table { rows: Vec::new(), last_id };
        assert(table@.rows =~= Seq::empty());
        Some(table)
    }

    /// The number of rows.
    pub fn len(&self) -> (n: usize)
        ensures
            n == self@.rows.len(),
    {
        self.rows.len()
    }
}

/// The identity that the three fields of a request name.
pub open spec fn identity(hostname: Seq<char>, working_directory: Seq<char>, command: Seq<char>)
    -> IdentityKey {
    IdentityKey { hostname, working_directory, command }
}

/// Whether `entry` is the row that `wanted` identifies.
fn is_entry_for(entry: &History, wanted: &NewHistory) -> (yes: bool)
    ensures
        yes == entry@.has_key(wanted@),
{
    match &entry.working_directory {
        Some(dir) => entry.hostname == wanted.hostname && *dir == wanted.working_directory
            && entry.command == wanted.command,
        None => false,
    }
}

/// The position of the row with identifier `id`.
fn position_of_id(rows: &Vec<History>, id: i32) -> (found: Option<usize>)
    ensures
        match found {
            Some(i) => i < rows.len() && rows[i as int].id == id,
            None => forall|j: int| 0 <= j < rows.len() ==> (#[trigger] rows[j]).id != id,
        },
{
    let mut i: usize = 0;
    while i < rows.len()
        invariant
            i <= rows.len(),
            forall|j: int| 0 <= j < i ==> (#[trigger] rows[j]).id != id,
        decreases rows.len() - i,
    {
        if rows[i].id == id {
            return Some(i);
        }
        i += 1;
    }
    None
}

/// The position of the row that `wanted` identifies.
fn position_of_key(rows: &Vec<History>, wanted: &NewHistory) -> (found: Option<usize>)
    ensures
        match found {
            Some(i) => i < rows.len() && rows[i as int]@.has_key(wanted@),
            None => forall|j: int| 0 <= j < rows.len() ==> !(#[trigger] rows[j])@.has_key(wanted@),
        },
{
    let mut i: usize = 0;
    while i < rows.len()
        invariant
            i <= rows.len(),
            forall|j: int| 0 <= j < i ==> !(#[trigger] rows[j])@.has_key(wanted@),
        decreases rows.len() - i,
    {
        if is_entry_for(&rows[i], wanted) {
            return Some(i);
        }
        i += 1;
    }
    None
}

/// The position at which a row touched at `now` enters `rows`.
fn slot_for(rows: &Vec<History>, now: i64) -> (k: usize)
    requires
        newest_first(views(rows@)),
    ensures
        is_slot(views(rows@), now as int, k as int),
{
    let mut k: usize = 0;
    while k < rows.len() && rows[k].updated_at > now
        invariant
            k <= rows.len(),
            forall|j: int| 0 <= j < k ==> (#[trigger] views(rows@)[j]).updated_at > now,
        decreases rows.len() - k,
    {
        k += 1;
    }
    proof {
        let all = views(rows@);
        assert forall|j: int| k <= j < all.len() implies (#[trigger] all[j]).updated_at <= now by {
            assert(all[k as int].updated_at >= all[j].updated_at);
        }
    }
    k
}

/// Looks up the entry with identifier `history_id`.
///
/// Returns `Ok(None)` where no row has it: an absent entry is no failure.
pub fn find(table: &Table, history_id: i32) -> (found: Result<Option<History>, StoreError>)
    ensures
        table@.valid(),
        match found {
            Ok(Some(entry)) => table@.find(history_id as int) == Some(entry@),
            Ok(None) => table@.find(history_id as int) is None,
            Err(_) => false,
        },
{
    proof {
        use_type_invariant(table);
    }
    match position_of_id(&table.rows, history_id) {
        Some(i) => {
            proof {
                table@.lemma_positions(i as int);
            }
            Ok(Some(table.rows[i].clone()))
        },
        None => {
            Ok(None)
        },
    }
}

/// Decides how a search for `q` is carried out: restricted to the directory
/// and without a limit where `q` names one, over all rows and stopped after
/// `SEARCH_LIMIT` of them where it names none.
pub fn search_plan(q: &SearchFilter) -> (plan: SearchPlan)
    ensures
        match q@ {
            Some(dir) => plan.directory is Some && plan.directory->Some_0@ == dir
                && plan.limit is None,
            None => plan.directory is None && plan.limit == Some(SEARCH_LIMIT),
        },
{
    match &q.pwd {
        Some(dir) => SearchPlan { directory: Some(dir.clone()), limit: None },
        None => SearchPlan { directory: None, limit: Some(SEARCH_LIMIT) },
    }
}

/// Whether `entry` falls under the directory restriction of a plan.
fn is_in_directory(entry: &History, directory: &Option<String>) -> (yes: bool)
    ensures
        yes == match directory {
            Some(dir) => entry@.in_directory(dir@),
            None => true,
        },
{
    match directory {
        Some(dir) => match &entry.working_directory {
            Some(recorded) => *recorded == *dir,
            None => false,
        },
        None => true,
    }
}

/// The rows before position `i` that fall under `directory`.
spec fn matching_before(all: Seq<HistoryView>, directory: Option<Seq<char>>, i: int) -> Seq<
    HistoryView,
> {
    match directory {
        Some(dir) => all.take(i).filter(recorded_in(dir)),
        None => all.take(i),
    }
}

/// Carries out `plan` on `rows`.
fn select(rows: &Vec<History>, plan: &SearchPlan) -> (entries: Vec<History>)
    ensures
        views(entries@) == selected(views(rows@), plan.directory_view(), plan.limit),
{
    let ghost all = views(rows@);
    let ghost directory = plan.directory_view();
    let n = rows.len();
    let most = match plan.limit {
        Some(most) => most,
        None => usize::MAX,
    };
    let mut entries: Vec<History> = Vec::new();
    let mut i: usize = 0;
    assert(matching_before(all, directory, 0) =~= Seq::empty()) by {
        reveal(Seq::filter);
    }
    while i < n && entries.len() < most
        invariant
            i <= n,
            n == rows.len(),
            all == views(rows@),
            directory == plan.directory_view(),
            entries.len() <= i,
            entries.len() <= most,
            views(entries@) == matching_before(all, directory, i as int),
        decreases n - i,
    {
        let keep = is_in_directory(&rows[i], &plan.directory);
        proof {
            all.lemma_take_succ_push(i as int);
            if let Some(dir) = directory {
                all.take(i as int).lemma_filter_push(all[i as int], recorded_in(dir));
            }
        }
        if keep {
            entries.push(rows[i].clone());
        }
        i += 1;
    }
    proof {
        let taken = all.take(i as int);
        let left = all.skip(i as int);
        assert(all =~= taken + left);
        if let Some(dir) = directory {
            Seq::filter_distributes_over_add(taken, left, recorded_in(dir));
        }
        if i == n {
            assert(taken =~= all);
        }
    }
    entries
}

/// Lists the entries that `q` admits, most recently touched first.
///
/// With a directory, every entry recorded in exactly that directory is
/// returned. Without one, the list stops after `SEARCH_LIMIT` entries,
/// however many the table holds.
pub fn search(table: &Table, q: &SearchFilter) -> (found: Result<Vec<History>, StoreError>)
    ensures
        table@.valid(),
        match found {
            Ok(entries) => views(entries@) == table@.search(q@),
            Err(_) => false,
        },
{
    proof {
        use_type_invariant(table);
    }
    let plan = search_plan(q);
    Ok(select(&table.rows, &plan))
}

/// What recording `key` at `now` may leave behind: the echoed fields and the
/// table after the upsert, or a refusal and the table as it was.
pub open spec fn is_record_outcome(
    before: TableState,
    after: TableState,
    outcome: Result<NewHistory, StoreError>,
    key: IdentityKey,
    now: int,
) -> bool {
    match outcome {
        Ok(echo) => {
            &&& before.can_record(key)
            &&& echo@ == key
            &&& after == before.record(key, now)
        },
        Err(e) => {
            &&& !before.can_record(key)
            &&& e == StoreError::IdentifiersExhausted
            &&& after == before
        },
    }
}

/// Records the command `c`, run in directory `w` on host `h`, at the time `now`.
///
/// Where the table holds the triple already, that row is refreshed: it takes
/// `now` as `updated_at` and keeps everything else. Otherwise a new row is
/// created. The submitted fields are echoed back.
///
/// Fails only where a new row is needed and no identifier is left; the table
/// is then unchanged.
pub fn create_history_at(table: &mut Table, h: &str, w: &str, c: &str, now: i64) -> (outcome: Result<
    NewHistory,
    StoreError,
>)
    ensures
        final(table)@.valid(),
        is_record_outcome(
            old(table)@,
            final(table)@,
            outcome,
            identity(h@, w@, c@),
            now as int,
        ),
{
    proof {
        use_type_invariant(&*table);
    }
    let new_history = NewHistory {
        hostname: h.to_owned(),
        working_directory: w.to_owned(),
        command: c.to_owned(),
    };
    let ghost key = new_history@;
    let ghost before = table@;
    match position_of_key(&table.rows, &new_history) {
        Some(i) => {
            proof {
                before.lemma_positions(i as int);
                lemma_remove_keeps(before.rows, before.last_id, i as int);
            }
            let mut rows: Vec<History> = Vec::new();
            std::mem::swap(&mut rows, &mut table.rows);
            let mut row = rows.remove(i);
            assert(views(rows@) =~= before.rows.remove(i as int));
            row.updated_at = now;
            let k = slot_for(&rows, now);
            proof {
                lemma_slot_is(views(rows@), now as int, k as int);
                lemma_insert_keeps(views(rows@), before.last_id, k as int, row@);
            }
            let ghost rest = rows@;
            rows.insert(k, row);
            assert(views(rows@) =~= views(rest).insert(k as int, row@));
            table.rows = rows;
        },
        None => {
            if table.last_id >= MAX_ID {
                return Err(StoreError::IdentifiersExhausted);
            }
            let id = table.last_id + 1;
            let row = History {
                id,
                hostname: new_history.hostname.clone(),
                working_directory: Some(new_history.working_directory.clone()),
                command: new_history.command.clone(),
                created_at: now,
                updated_at: now,
            };
            let k = slot_for(&table.rows, now);
            proof {
                lemma_slot_is(before.rows, now as int, k as int);
                before.lemma_record_valid(key, now as int);
            }
            let mut rows: Vec<History> = Vec::new();
            std::mem::swap(&mut rows, &mut table.rows);
            let ghost rest = rows@;
            rows.insert(k, row);
            assert(views(rows@) =~= views(rest).insert(k as int, row@));
            *table = Table { rows, last_id: id };
        },
    }
    Ok(new_history)
}

/// Records the command `c`, run in directory `w` on host `h`, at the time the
/// clock shows.
///
/// Does what [`create_history_at`] does, for a time that the caller does not
/// choose.
pub fn create_history(table: &mut Table, h: &str, w: &str, c: &str) -> (outcome: Result<
    NewHistory,
    StoreError,
>)
    ensures
        final(table)@.valid(),
        exists|now: int|
            i64::MIN <= now <= i64::MAX && #[trigger] is_record_outcome(
                old(table)@,
                final(table)@,
                outcome,
                identity(h@, w@, c@),
                now,
            ),
{
    let now = utc_now_micros();
    create_history_at(table, h, w, c, now)
}

/// Deletes the entry with identifier `history_id`, if there is one.
///
/// The count is 1 where a row was removed and 0 where none had the
/// identifier, which is no failure.
pub fn delete_history(table: &mut Table, history_id: i32) -> (removed: Result<
    DeletedHistoryCount,
    StoreError,
>)
    ensures
        final(table)@.valid(),
        final(table)@ == old(table)@.delete(history_id as int),
        match removed {
            Ok(report) => {
                &&& report.count == old(table)@.deleted_count(history_id as int)
                &&& report.message@ == "Successfully deleted"@
            },
            Err(_) => false,
        },
{
    proof {
        use_type_invariant(&*table);
    }
    let ghost before = table@;
    let count: usize = match position_of_id(&table.rows, history_id) {
        Some(i) => {
            proof {
                before.lemma_positions(i as int);
                before.lemma_delete_valid(history_id as int);
            }
            let mut rows: Vec<History> = Vec::new();
            std::mem::swap(&mut rows, &mut table.rows);
            rows.remove(i);
            assert(views(rows@) =~= before.rows.remove(i as int));
            table.rows = rows;
            1
        },
        None => {
            0
        },
    };
    Ok(DeletedHistoryCount::new(count))
}

} // verus!

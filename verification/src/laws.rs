//! What holds of the store whatever it is asked to do.
//!
//! Each statement is over the table as a mathematical value, in the terms in
//! which the operations' own contracts are written.

use vstd::prelude::*;
use crate::models::{HistoryView, IdentityKey};
use crate::table::{
    identities_unique, ids_unique, lemma_remove_keeps, lemma_slot_exists, newest_first,
    recorded_in, skip_over, slot, TableState, SEARCH_LIMIT,
};

verus! {

impl TableState {
    /// Whether exactly one row is identified by `key`.
    pub open spec fn identified_once(self, key: IdentityKey) -> bool {
        exists|i: int|
            {
                &&& 0 <= i < self.rows.len()
                &&& (#[trigger] self.rows[i]).has_key(key)
                &&& forall|j: int|
                    0 <= j < self.rows.len() && (#[trigger] self.rows[j]).has_key(key) ==> j == i
            }
    }

    /// The row that recording `key` at `now` writes.
    pub open spec fn written(self, key: IdentityKey, now: int) -> HistoryView {
        match self.lookup(key) {
            Some(row) => row.refreshed(now),
            None => HistoryView::fresh(self.last_id + 1, key, now),
        }
    }
}

/// A row is in the sequence with `row` put in at `k` exactly if it is `row`
/// or was there before.
proof fn lemma_insert_contains(rows: Seq<HistoryView>, k: int, row: HistoryView, other: HistoryView)
    requires
        0 <= k <= rows.len(),
    ensures
        rows.insert(k, row).contains(other) <==> other == row || rows.contains(other),
{
    let next = rows.insert(k, row);
    assert(next[k] == row);
    if rows.contains(other) {
        let j = choose|j: int| 0 <= j < rows.len() && rows[j] == other;
        assert(next[if j < k { j } else { j + 1 }] == rows[j]);
    }
}

/// Where no other position holds the element at `i`, a row is in the
/// sequence without that element exactly if it was there before and is not
/// that element.
proof fn lemma_remove_contains(rows: Seq<HistoryView>, i: int, other: HistoryView)
    requires
        0 <= i < rows.len(),
        ids_unique(rows),
    ensures
        rows.remove(i).contains(other) <==> other != rows[i] && rows.contains(other),
{
    let rest = rows.remove(i);
    assert forall|j: int| 0 <= j < rest.len() implies #[trigger] rest[j] == rows[skip_over(i, j)] by {}
    if other != rows[i] && rows.contains(other) {
        let j = choose|j: int| 0 <= j < rows.len() && rows[j] == other;
        assert(rest[if j < i { j } else { j - 1 }] == rows[j]);
    }
}

/// What recording does to the table: the written row is there, once; the
/// table grows by one row exactly if the triple was new; every other row is
/// as it was.
pub proof fn law_record(table: TableState, key: IdentityKey, now: int)
    requires
        table.valid(),
        table.can_record(key),
    ensures
        table.record(key, now).valid(),
        table.record(key, now).identified_once(key),
        table.record(key, now).lookup(key) == Some(table.written(key, now)),
        table.record(key, now).find(table.written(key, now).id) == Some(table.written(key, now)),
        table.record(key, now).rows.len() == table.rows.len() + if table.has_key(key) {
            0int
        } else {
            1int
        },
        table.record(key, now).last_id == table.last_id + if table.has_key(key) {
            0int
        } else {
            1int
        },
        forall|row: HistoryView|
            !row.has_key(key) ==> (#[trigger] table.record(key, now).rows.contains(row)
                <==> table.rows.contains(row)),
{
    let after = table.record(key, now);
    let row = table.written(key, now);
    table.lemma_record_valid(key, now);
    if table.has_key(key) {
        let i = table.index_of_key(key);
        let rest = table.rows.remove(i);
        lemma_remove_keeps(table.rows, table.last_id, i);
        lemma_slot_exists(rest, now);
        let k = slot(rest, now);
        after.lemma_positions(k);
        assert forall|other: HistoryView| !other.has_key(key) implies (
        #[trigger] after.rows.contains(other) <==> table.rows.contains(other)) by {
            lemma_insert_contains(rest, k, row, other);
            lemma_remove_contains(table.rows, i, other);
        }
    } else {
        lemma_slot_exists(table.rows, now);
        let k = slot(table.rows, now);
        after.lemma_positions(k);
        assert forall|other: HistoryView| !other.has_key(key) implies (
        #[trigger] after.rows.contains(other) <==> table.rows.contains(other)) by {
            lemma_insert_contains(table.rows, k, row, other);
        }
    }
}

/// Upsert idempotence. Recording the same triple a second time adds no row:
/// the one row for the triple keeps its identifier and `created_at` and takes
/// the second time as `updated_at`, which is strictly later than before where
/// the clock advanced. No other row changes.
pub proof fn law_upsert_idempotent(table: TableState, key: IdentityKey, first: int, second: int)
    requires
        table.valid(),
        table.can_record(key),
    ensures
        ({
            let once = table.record(key, first);
            let twice = once.record(key, second);
            &&& once.can_record(key)
            &&& once.identified_once(key)
            &&& twice.identified_once(key)
            &&& twice.rows.len() == once.rows.len()
            &&& once.lookup(key) is Some
            &&& twice.lookup(key) == Some(once.lookup(key).unwrap().refreshed(second))
            &&& once.lookup(key).unwrap().updated_at == first
            &&& first < second ==> twice.lookup(key).unwrap().updated_at > once.lookup(
                key,
            ).unwrap().updated_at
            &&& forall|row: HistoryView|
                !row.has_key(key) ==> (#[trigger] twice.rows.contains(row) <==> once.rows.contains(
                    row,
                ))
        }),
{
    law_record(table, key, first);
    law_record(table.record(key, first), key, second);
}

/// Identity key uniqueness. The empty table is valid, recording and deleting
/// keep a table valid, and in a valid table two rows that share host name,
/// working directory and command are one row.
pub proof fn law_identity_unique(table: TableState, key: IdentityKey, now: int, id: int)
    requires
        table.valid(),
    ensures
        TableState::empty().valid(),
        table.can_record(key) ==> table.record(key, now).valid(),
        table.delete(id).valid(),
        identities_unique(table.rows),
        forall|i: int, j: int|
            0 <= i < table.rows.len() && 0 <= j < table.rows.len() && (#[trigger] table.rows[i]).same_identity(
            #[trigger] table.rows[j]) ==> i == j,
{
    if table.can_record(key) {
        table.lemma_record_valid(key, now);
    }
    table.lemma_delete_valid(id);
}

/// Whether `earlier` stands ahead of `later` in `rows`.
pub open spec fn stands_before(rows: Seq<HistoryView>, earlier: HistoryView, later: HistoryView)
    -> bool {
    exists|i: int, j: int|
        #![trigger rows[i], rows[j]]
        0 <= i < j < rows.len() && rows[i] == earlier && rows[j] == later
}

/// Whether `found` lists rows of `rows` in the order in which `rows` holds
/// them.
pub open spec fn in_table_order(found: Seq<HistoryView>, rows: Seq<HistoryView>) -> bool {
    forall|a: int, b: int|
        0 <= a < b < found.len() ==> #[trigger] stands_before(rows, found[a], found[b])
}

/// Filtering keeps the order of the rows.
proof fn lemma_filter_in_order(rows: Seq<HistoryView>, wanted: spec_fn(HistoryView) -> bool)
    ensures
        in_table_order(rows.filter(wanted), rows),
        forall|a: int|
            0 <= a < rows.filter(wanted).len() ==> rows.contains(#[trigger] rows.filter(wanted)[a]),
    decreases rows.len(),
{
    reveal(Seq::filter);
    if rows.len() > 0 {
        let front = rows.drop_last();
        let kept = front.filter(wanted);
        let found = rows.filter(wanted);
        lemma_filter_in_order(front, wanted);
        assert forall|a: int| 0 <= a < found.len() implies rows.contains(#[trigger] found[a]) by {
            if a < kept.len() {
                let i = choose|i: int| 0 <= i < front.len() && front[i] == kept[a];
                assert(rows[i] == found[a]);
            }
        }
        assert forall|a: int, b: int| 0 <= a < b < found.len() implies #[trigger] stands_before(
            rows,
            found[a],
            found[b],
        ) by {
            if b < kept.len() {
                assert(stands_before(front, kept[a], kept[b]));
                let (i, j) = choose|i: int, j: int|
                    #![trigger front[i], front[j]]
                    0 <= i < j < front.len() && front[i] == kept[a] && front[j] == kept[b];
                assert(rows[i] == found[a] && rows[j] == found[b]);
            } else {
                let i = choose|i: int| 0 <= i < front.len() && front[i] == kept[a];
                assert(rows[i] == found[a] && rows[rows.len() - 1] == found[b]);
            }
        }
    }
}

/// A sequence that agrees with `rows` position by position lists them in
/// order.
proof fn lemma_prefix_in_order(rows: Seq<HistoryView>, found: Seq<HistoryView>)
    requires
        found.len() <= rows.len(),
        forall|a: int| 0 <= a < found.len() ==> #[trigger] found[a] == rows[a],
    ensures
        in_table_order(found, rows),
{
    assert forall|a: int, b: int| 0 <= a < b < found.len() implies #[trigger] stands_before(
        rows,
        found[a],
        found[b],
    ) by {
        assert(rows[a] == found[a] && rows[b] == found[b]);
    }
}

/// Search ordering. Whatever the filter, a search lists its rows newest
/// first, and two rows stand in the list as they stand in the table: rows
/// with equal `updated_at` keep one order from search to search.
pub proof fn law_search_ordered(table: TableState, pwd: Option<Seq<char>>)
    requires
        table.valid(),
    ensures
        newest_first(table.search(pwd)),
        in_table_order(table.search(pwd), table.rows),
        ids_unique(table.search(pwd)),
{
    let found = table.search(pwd);
    match pwd {
        Some(dir) => {
            lemma_filter_in_order(table.rows, recorded_in(dir));
        },
        None => {
            lemma_prefix_in_order(table.rows, found);
        },
    }
    assert forall|a: int, b: int| 0 <= a < b < found.len() implies (#[trigger] found[a]).updated_at
        >= (#[trigger] found[b]).updated_at && found[a].id != found[b].id by {
        assert(stands_before(table.rows, found[a], found[b]));
    }
}

/// Search filter correctness. With a directory, a search returns the rows
/// recorded in exactly that directory, all of them and no others. Without
/// one, it returns the table's rows from the newest on, all of them up to
/// `SEARCH_LIMIT` and never more.
pub proof fn law_search_filtered(table: TableState, dir: Seq<char>)
    ensures
        forall|row: HistoryView|
            #[trigger] table.search(Some(dir)).contains(row) <==> table.rows.contains(row)
                && row.working_directory == Some(dir),
        table.search(None).len() == if table.rows.len() <= SEARCH_LIMIT {
            table.rows.len()
        } else {
            SEARCH_LIMIT as nat
        },
        forall|i: int|
            0 <= i < table.search(None).len() ==> #[trigger] table.search(None)[i] == table.rows[i],
{
    let wanted = recorded_in(dir);
    let found = table.search(Some(dir));
    assert forall|row: HistoryView| #[trigger]
        found.contains(row) <==> table.rows.contains(row) && row.working_directory == Some(
            dir,
        ) by {
        if found.contains(row) {
            let a = choose|a: int| 0 <= a < found.len() && found[a] == row;
            table.rows.lemma_filter_pred(wanted, a);
            table.rows.lemma_filter_contains_rev(wanted, row);
        }
        if table.rows.contains(row) && row.working_directory == Some(dir) {
            let i = choose|i: int| 0 <= i < table.rows.len() && table.rows[i] == row;
            table.rows.lemma_filter_contains(wanted, i);
        }
    }
}

/// Delete idempotence. Deleting an identifier that no row has removes
/// nothing and leaves the table as it was. Deleting one that a row has
/// removes that row alone, after which the identifier is absent: a second
/// deletion removes nothing, and a lookup finds nothing.
pub proof fn law_delete_idempotent(table: TableState, id: int)
    requires
        table.valid(),
    ensures
        table.delete(id).valid(),
        !table.has_id(id) ==> table.deleted_count(id) == 0 && table.delete(id) == table,
        table.has_id(id) ==> table.deleted_count(id) == 1 && table.delete(id).rows.len()
            == table.rows.len() - 1,
        !table.delete(id).has_id(id),
        table.delete(id).deleted_count(id) == 0,
        table.delete(id).delete(id) == table.delete(id),
        table.delete(id).find(id) is None,
        forall|other: int| other != id ==> #[trigger] table.delete(id).find(other) == table.find(other),
{
    let after = table.delete(id);
    table.lemma_delete_valid(id);
    if table.has_id(id) {
        let i = table.index_of_id(id);
        lemma_remove_keeps(table.rows, table.last_id, i);
        assert forall|other: int| other != id implies #[trigger] after.find(other) == table.find(
            other,
        ) by {
            if table.has_id(other) {
                let j = table.index_of_id(other);
                after.lemma_positions(if j < i { j } else { j - 1 });
            }
            if after.has_id(other) {
                let j = after.index_of_id(other);
                table.lemma_positions(skip_over(i, j));
            }
        }
    }
}

} // verus!

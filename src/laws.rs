use vstd::prelude::*;

use crate::global_config::{
    has_row, is_first_row, lemma_row_index, release_fails, release_rows, row_index, upsert_rows, RowView,
};
use crate::handler::{add_local, add_registers, path_registered};
use crate::path::tokens;
use crate::resource::{has_sub_dir, is_first_free_dir_name, sub_dir_names, sub_dir_names_unique, DirectoryListing};

verus! {

/// The ids that the local cache maps to `path`.
pub open spec fn ids_with_path(local: Map<Seq<u8>, Seq<char>>, path: Seq<char>) -> Set<Seq<u8>> {
    Set::new(|k: Seq<u8>| local.contains_key(k) && local[k] == path)
}

/// Exactly one row of the list is for `id`.
pub open spec fn exactly_one_row(rows: Seq<RowView>, id: Seq<u8>) -> bool {
    exists|i: int|
        0 <= i < rows.len() && rows[i].app_id == id && forall|j: int|
            0 <= j < rows.len() && j != i ==> (#[trigger] rows[j]).app_id != id
}

/// Adding the same launch path twice registers it once: after the first
/// add the path counts as registered, so the second add registers nothing
/// (it leaves the local cache as the first left it, and no directory or
/// row follows it); the path is held by the first id alone, and the single
/// shared row written by the first add is the only row for that id.
pub proof fn lemma_add_same_path_twice(
    local: Map<Seq<u8>, Seq<char>>,
    rows: Seq<RowView>,
    path: Seq<char>,
    id1: Seq<u8>,
    id2: Seq<u8>,
    row: RowView,
)
    requires
        !path_registered(local, path),
        tokens(path).len() > 0,
        !has_row(rows, id1),
        row.app_id == id1,
    ensures
        add_registers(local, path),
        !add_registers(add_local(local, path, id1), path),
        add_local(add_local(local, path, id1), path, id2) == add_local(local, path, id1),
        ids_with_path(add_local(local, path, id1), path) == set![id1],
        exactly_one_row(upsert_rows(rows, row), id1),
{
    let once = add_local(local, path, id1);
    assert(once == local.insert(id1, path));
    assert(once.contains_key(id1) && once[id1] == path);
    assert(path_registered(once, path));
    assert(ids_with_path(once, path) =~= set![id1]);
    let after = upsert_rows(rows, row);
    assert(after == rows.push(row));
    assert(after[rows.len() as int].app_id == id1);
    assert forall|j: int| 0 <= j < after.len() && j != rows.len() implies (#[trigger] after[j]).app_id
        != id1 by {
        assert(after[j] == rows[j]);
    }
}

/// The name chosen for a new root directory is taken by no sibling, so
/// creating it keeps the sub-directory names of the root distinct.
pub proof fn lemma_new_dir_name_keeps_names_unique(l: DirectoryListing, app_name: Seq<char>, name: Seq<char>)
    requires
        sub_dir_names_unique(l),
        is_first_free_dir_name(l, app_name, name),
    ensures
        !has_sub_dir(l, name),
        sub_dir_names(l).push(name).no_duplicates(),
{
    let s = sub_dir_names(l);
    let t = s.push(name);
    assert forall|i: int, j: int| 0 <= i < t.len() && 0 <= j < t.len() && i != j implies t[i] != t[j] by {
        if i < s.len() && j < s.len() {
        } else if i < s.len() {
            assert(s.contains(s[i]));
        } else {
            assert(s.contains(s[j]));
        }
    }
}

/// Deleting a sub-directory keeps the names of the others distinct.
pub proof fn lemma_delete_dir_keeps_names_unique(names: Seq<Seq<char>>, i: int)
    requires
        names.no_duplicates(),
        0 <= i < names.len(),
    ensures
        names.remove(i).no_duplicates(),
{
    let t = names.remove(i);
    assert forall|a: int, b: int| 0 <= a < t.len() && 0 <= b < t.len() && a != b implies t[a] != t[b] by {
        let sa = if a < i { a } else { a + 1 };
        let sb = if b < i { b } else { b + 1 };
        assert(t[a] == names[sa]);
        assert(t[b] == names[sb]);
    }
}

/// The list after `n` releases of the application `id`.
pub open spec fn release_n(rows: Seq<RowView>, id: Seq<u8>, n: nat) -> Seq<RowView>
    decreases n,
{
    if n == 0 {
        rows
    } else {
        release_rows(release_n(rows, id, (n - 1) as nat), id)
    }
}

/// The list with the count of the row at `i` set to `c`.
pub open spec fn with_count(rows: Seq<RowView>, i: int, c: nat) -> Seq<RowView> {
    rows.update(i, RowView { reference_count: c, ..rows[i] })
}

proof fn lemma_release_prefix(rows: Seq<RowView>, id: Seq<u8>, i: int, k: nat, n: nat)
    requires
        is_first_row(rows, id, i),
        rows[i].reference_count == k,
        n < k,
    ensures
        release_n(rows, id, n) == with_count(rows, i, (k - n) as nat),
        is_first_row(release_n(rows, id, n), id, i),
    decreases n,
{
    if n == 0 {
        assert(with_count(rows, i, k) =~= rows);
    } else {
        lemma_release_prefix(rows, id, i, k, (n - 1) as nat);
        let prev = with_count(rows, i, (k - (n - 1)) as nat);
        lemma_row_index(prev, id, i);
        assert(prev[i].reference_count == k - (n - 1));
        assert(release_rows(prev, id) =~= with_count(rows, i, (k - n) as nat));
    }
    assert(is_first_row(with_count(rows, i, (k - n) as nat), id, i));
}

/// Reference counting: for a row whose count is `k >= 1`, each of the
/// first `k` releases succeeds and the count after `n` of them is `k - n`;
/// after `k - 1` releases the count is one, so the `k`-th release removes
/// the row (and reclaims its directory).
pub proof fn lemma_release_k_times(rows: Seq<RowView>, id: Seq<u8>, k: nat)
    requires
        has_row(rows, id),
        rows[row_index(rows, id)].reference_count == k,
        k >= 1,
    ensures
        forall|n: nat|
            n < k ==> {
                let cur = #[trigger] release_n(rows, id, n);
                &&& !release_fails(cur, id)
                &&& row_index(cur, id) == row_index(rows, id)
                &&& cur[row_index(cur, id)].reference_count == k - n
            },
        release_n(rows, id, k) == release_n(rows, id, (k - 1) as nat).remove(row_index(rows, id)),
{
    let i = row_index(rows, id);
    let a = choose|a: int| 0 <= a < rows.len() && rows[a].app_id == id;
    let first = choose|f: int| is_first_row(rows, id, f);
    assert(exists|f: int| is_first_row(rows, id, f)) by {
        lemma_first_exists(rows, id, a);
    }
    lemma_row_index(rows, id, first);
    assert forall|n: nat| n < k implies {
        let cur = #[trigger] release_n(rows, id, n);
        &&& !release_fails(cur, id)
        &&& row_index(cur, id) == i
        &&& cur[row_index(cur, id)].reference_count == k - n
    } by {
        lemma_release_prefix(rows, id, i, k, n);
        lemma_row_index(release_n(rows, id, n), id, i);
    }
    lemma_release_prefix(rows, id, i, k, (k - 1) as nat);
    let last = release_n(rows, id, (k - 1) as nat);
    lemma_row_index(last, id, i);
    assert(release_n(rows, id, k) == release_rows(last, id));
}

/// Some row for `id` gives a first one.
proof fn lemma_first_exists(rows: Seq<RowView>, id: Seq<u8>, a: int)
    requires
        0 <= a < rows.len(),
        rows[a].app_id == id,
    ensures
        exists|f: int| is_first_row(rows, id, f),
    decreases a,
{
    if exists|b: int| 0 <= b < a && rows[b].app_id == id {
        let b = choose|b: int| 0 <= b < a && rows[b].app_id == id;
        lemma_first_exists(rows, id, b);
    } else {
        assert(is_first_row(rows, id, a));
    }
}

} // verus!

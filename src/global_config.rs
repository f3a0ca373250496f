use vstd::prelude::*;

use crate::model::{AppId, DirKey};

verus! {

/// Errors of the lifecycle operations.
#[derive(Clone, Copy, Debug, PartialEq, Eq, Structural)]
pub enum LauncherError {
    /// A well-known remote directory or file is missing.
    NotFound,
    /// An invariant between the stores does not hold.
    LogicError,
}

/// One row of the shared configuration list.
#[derive(Debug)]
pub struct LauncherConfiguration {
    pub app_id: AppId,
    pub app_name: String,
    pub reference_count: u64,
    pub app_root_dir_key: DirKey,
    pub safe_drive_access: bool,
}

/// The mathematical value of a row.
pub struct RowView {
    pub app_id: Seq<u8>,
    pub app_name: Seq<char>,
    pub reference_count: nat,
    pub app_root_dir_key: Seq<u8>,
    pub safe_drive_access: bool,
}

impl View for LauncherConfiguration {
    type V = RowView;

    open spec fn view(&self) -> RowView {
        RowView {
            app_id: self.app_id@,
            app_name: self.app_name@,
            reference_count: self.reference_count as nat,
            app_root_dir_key: self.app_root_dir_key@,
            safe_drive_access: self.safe_drive_access,
        }
    }
}

/// The values of a list of rows.
pub open spec fn rows_view(v: Seq<LauncherConfiguration>) -> Seq<RowView> {
    v.map_values(|c: LauncherConfiguration| c@)
}

/// `i` is the first position of a row for `id`.
pub open spec fn is_first_row(rows: Seq<RowView>, id: Seq<u8>, i: int) -> bool {
    0 <= i < rows.len() && rows[i].app_id == id && forall|k: int| 0 <= k < i ==> rows[k].app_id != id
}

/// Whether some row is for `id`.
pub open spec fn has_row(rows: Seq<RowView>, id: Seq<u8>) -> bool {
    exists|i: int| 0 <= i < rows.len() && (#[trigger] rows[i]).app_id == id
}

/// The first position of a row for `id` (meaningful when `has_row`).
pub open spec fn row_index(rows: Seq<RowView>, id: Seq<u8>) -> int {
    choose|i: int| is_first_row(rows, id, i)
}

/// The list after writing `row`: it replaces the first row with the same
/// application id, or is appended when there is none.
pub open spec fn upsert_rows(rows: Seq<RowView>, row: RowView) -> Seq<RowView> {
    if has_row(rows, row.app_id) {
        rows.update(row_index(rows, row.app_id), row)
    } else {
        rows.push(row)
    }
}

/// The list after releasing one reference of the application `id`, whose
/// row must be present with a positive count: the row goes when its count
/// is one, else its count drops by one.
pub open spec fn release_rows(rows: Seq<RowView>, id: Seq<u8>) -> Seq<RowView> {
    let i = row_index(rows, id);
    if rows[i].reference_count == 1 {
        rows.remove(i)
    } else {
        rows.update(i, RowView { reference_count: (rows[i].reference_count - 1) as nat, ..rows[i] })
    }
}

/// Whether releasing `id` is a logic error: no row, or a row whose count is
/// already zero.
pub open spec fn release_fails(rows: Seq<RowView>, id: Seq<u8>) -> bool {
    !has_row(rows, id) || rows[row_index(rows, id)].reference_count == 0
}

/// A first row exists exactly when some row does, and it is unique.
pub proof fn lemma_row_index(rows: Seq<RowView>, id: Seq<u8>, i: int)
    requires
        is_first_row(rows, id, i),
    ensures
        has_row(rows, id),
        row_index(rows, id) == i,
{
    let j = row_index(rows, id);
    assert(is_first_row(rows, id, j));
    if j < i {
        assert(rows[j].app_id == id);
    } else if i < j {
        assert(rows[i].app_id == id);
    }
}

/// Position of the first row for `app_id`, if any.
pub fn find_config(configs: &Vec<LauncherConfiguration>, app_id: &AppId) -> (r: Option<usize>)
    ensures
        match r {
            Some(i) => is_first_row(rows_view(configs@), app_id@, i as int),
            None => !has_row(rows_view(configs@), app_id@),
        },
{
    let ghost rows = rows_view(configs@);
    let mut i: usize = 0;
    while i < configs.len()
        invariant
            rows == rows_view(configs@),
            i <= configs@.len(),
            forall|k: int| 0 <= k < i ==> rows[k].app_id != app_id@,
        decreases configs@.len() - i,
    {
        if configs[i].app_id.same_as(app_id) {
            return Some(i);
        }
        i = i + 1;
    }
    None
}

/// Writes `config` into the list: over the first row with the same
/// application id, or at the end.
pub fn upsert_to_launcher_global_config(
    global_configs: &mut Vec<LauncherConfiguration>,
    config: LauncherConfiguration,
)
    ensures
        rows_view(final(global_configs)@) == upsert_rows(rows_view(old(global_configs)@), config@),
{
    let ghost rows = rows_view(global_configs@);
    let ghost row = config@;
    match find_config(global_configs, &config.app_id) {
        Some(pos) => {
            proof {
                lemma_row_index(rows, row.app_id, pos as int);
            }
            let _ = global_configs.remove(pos);
            global_configs.insert(pos, config);
            assert(rows_view(global_configs@) =~= rows.update(pos as int, row));
        },
        None => {
            global_configs.push(config);
            assert(rows_view(global_configs@) =~= rows.push(row));
        },
    }
}

/// Releases one reference of the application `app_id`. When its count was
/// one the row is removed and the key of the directory to reclaim is
/// returned; otherwise the count drops by one and `None` is returned. A
/// missing row, or one whose count is already zero, is a logic error and
/// leaves the list as it was.
pub fn remove_from_launcher_global_config(
    global_configs: &mut Vec<LauncherConfiguration>,
    app_id: &AppId,
) -> (r: Result<Option<DirKey>, LauncherError>)
    ensures
        release_fails(rows_view(old(global_configs)@), app_id@) ==> r == Err::<Option<DirKey>, LauncherError>(
            LauncherError::LogicError,
        ) && final(global_configs)@ == old(global_configs)@,
        !release_fails(rows_view(old(global_configs)@), app_id@) ==> {
            let rows = rows_view(old(global_configs)@);
            let i = row_index(rows, app_id@);
            &&& rows_view(final(global_configs)@) == release_rows(rows, app_id@)
            &&& r is Ok
            &&& (rows[i].reference_count == 1 <==> r->Ok_0 is Some)
            &&& (r->Ok_0 matches Some(k) ==> k@ == rows[i].app_root_dir_key)
        },
{
    let ghost rows = rows_view(global_configs@);
    match find_config(global_configs, app_id) {
        None => Err(LauncherError::LogicError),
        Some(pos) => {
            proof {
                lemma_row_index(rows, app_id@, pos as int);
            }
            if global_configs[pos].reference_count == 0 {
                return Err(LauncherError::LogicError);
            }
            let mut row = global_configs.remove(pos);
            if row.reference_count == 1 {
                assert(rows_view(global_configs@) =~= rows.remove(pos as int));
                Ok(Some(row.app_root_dir_key))
            } else {
                row.reference_count = row.reference_count - 1;
                global_configs.insert(pos, row);
                assert(rows_view(global_configs@) =~= release_rows(rows, app_id@));
                Ok(None)
            }
        },
    }
}

} // verus!

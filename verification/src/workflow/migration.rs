//! Moving the status tables from integer ids to UUID ids.
//!
//! Each status gets the fixed id of its label (`status_uuid_v5`); each entry
//! status follows its status to the new id, and one whose status no longer
//! exists is dropped.
use crate::workflow::types::{status_uuid_v5, uuid_v5_dns};
use vstd::prelude::*;

verus! {

/// A status row of the old schema, keyed by an integer.
#[derive(Debug, Clone)]
pub struct LegacyStatusRow {
    pub id: i64,
    pub label: String,
    pub color: String,
    pub sort_order: i64,
    pub is_default: i64,
    pub remote_id: Option<String>,
}

/// A status row of the new schema, keyed by a UUID.
#[derive(Debug, Clone)]
pub struct StatusRow {
    pub id: String,
    pub label: String,
    pub color: String,
    pub sort_order: i64,
    pub is_default: i64,
    pub remote_id: Option<String>,
}

/// An entry's status in the old schema.
#[derive(Debug, Clone)]
pub struct LegacyEntryStatus {
    pub archive_path: String,
    pub entry_path: String,
    pub status_id: i64,
}

/// An entry's status in the new schema.
#[derive(Debug, Clone)]
pub struct EntryStatusRow {
    pub archive_path: String,
    pub entry_path: String,
    pub status_id: String,
}

/// The UUID that a status with this label gets.
pub open spec fn new_status_id(label: Seq<char>) -> Seq<char> {
    uuid_v5_dns(vstd::utf8::encode_utf8("hehel-zip:status:"@ + label))
}

/// The new id of old status `old`: that of the last row carrying it (a later
/// row overrides an earlier one), or none when no row carries it.
pub open spec fn mapped_id(rows: Seq<LegacyStatusRow>, old: i64) -> Option<Seq<char>>
    decreases rows.len(),
{
    if rows.len() == 0 {
        None
    } else if rows.last().id == old {
        Some(new_status_id(rows.last().label@))
    } else {
        mapped_id(rows.drop_last(), old)
    }
}

/// Whether a new row is the old one under its new id.
pub open spec fn migrated_row(old: LegacyStatusRow, new: StatusRow) -> bool {
    &&& new.id@ == new_status_id(old.label@)
    &&& new.label@ == old.label@
    &&& new.color@ == old.color@
    &&& new.sort_order == old.sort_order
    &&& new.is_default == old.is_default
    &&& same_remote(old.remote_id, new.remote_id)
}

/// Whether two optional remote ids hold the same text.
pub open spec fn same_remote(a: Option<String>, b: Option<String>) -> bool {
    match (a, b) {
        (None, None) => true,
        (Some(x), Some(y)) => x@ == y@,
        _ => false,
    }
}

/// The entry statuses of the new schema: each old one whose status maps to a
/// new id, in order, with that id.
pub open spec fn migrated_entries(
    rows: Seq<LegacyStatusRow>,
    entries: Seq<LegacyEntryStatus>,
) -> Seq<(Seq<char>, Seq<char>, Seq<char>)>
    decreases entries.len(),
{
    if entries.len() == 0 {
        Seq::empty()
    } else {
        let e = entries.last();
        let before = migrated_entries(rows, entries.drop_last());
        match mapped_id(rows, e.status_id) {
            Some(id) => before.push((e.archive_path@, e.entry_path@, id)),
            None => before,
        }
    }
}

/// The views of new entry rows.
pub open spec fn entry_rows_view(v: Seq<EntryStatusRow>) -> Seq<(Seq<char>, Seq<char>, Seq<char>)> {
    v.map_values(|r: EntryStatusRow| (r.archive_path@, r.entry_path@, r.status_id@))
}

fn copy_remote(r: &Option<String>) -> (res: Option<String>)
    ensures
        same_remote(*r, res),
{
    match r {
        Some(s) => Some(s.clone()),
        None => None,
    }
}

/// Each status row under its new id, in the same order.
pub fn migrate_status_rows(rows: &Vec<LegacyStatusRow>) -> (res: Vec<StatusRow>)
    ensures
        res.len() == rows.len(),
        forall|i: int| 0 <= i < rows.len() ==> migrated_row(#[trigger] rows@[i], res@[i]),
{
    let mut out: Vec<StatusRow> = Vec::new();
    let mut i: usize = 0;
    while i < rows.len()
        invariant
            i <= rows.len(),
            out.len() == i,
            forall|j: int| 0 <= j < i ==> migrated_row(#[trigger] rows@[j], out@[j]),
        decreases rows.len() - i,
    {
        let r = &rows[i];
        let id = status_uuid_v5(r.label.as_str());
        let row = StatusRow {
            id,
            label: r.label.clone(),
            color: r.color.clone(),
            sort_order: r.sort_order,
            is_default: r.is_default,
            remote_id: copy_remote(&r.remote_id),
        };
        out.push(row);
        i = i + 1;
    }
    out
}

/// The new id of old status `old`, read from the migrated rows.
fn lookup_new_id(rows: &Vec<LegacyStatusRow>, migrated: &Vec<StatusRow>, old: i64) -> (res: Option<
    String,
>)
    requires
        migrated.len() == rows.len(),
        forall|i: int| 0 <= i < rows.len() ==> migrated_row(#[trigger] rows@[i], migrated@[i]),
    ensures
        match (res, mapped_id(rows@, old)) {
            (None, None) => true,
            (Some(s), Some(id)) => s@ == id,
            _ => false,
        },
{
    let mut k: usize = rows.len();
    assert(rows@.subrange(0, k as int) =~= rows@);
    while k > 0
        invariant
            k <= rows.len(),
            migrated.len() == rows.len(),
            forall|i: int| 0 <= i < rows.len() ==> migrated_row(#[trigger] rows@[i], migrated@[i]),
            mapped_id(rows@, old) == mapped_id(rows@.subrange(0, k as int), old),
        decreases k,
    {
        let ghost pre = rows@.subrange(0, k as int);
        assert(pre.drop_last() =~= rows@.subrange(0, k - 1));
        if rows[k - 1].id == old {
            assert(migrated_row(rows@[k - 1], migrated@[k - 1]));
            return Some(migrated[k - 1].id.clone());
        }
        k = k - 1;
    }
    None
}

/// The entry statuses of the new schema: each old one follows its status to
/// the status's new id; one whose status is gone is dropped.
pub fn migrate_entry_statuses(
    rows: &Vec<LegacyStatusRow>,
    entries: &Vec<LegacyEntryStatus>,
) -> (res: Vec<EntryStatusRow>)
    ensures
        entry_rows_view(res@) == migrated_entries(rows@, entries@),
{
    let migrated = migrate_status_rows(rows);
    let mut out: Vec<EntryStatusRow> = Vec::new();
    let mut i: usize = 0;
    while i < entries.len()
        invariant
            i <= entries.len(),
            migrated.len() == rows.len(),
            forall|j: int| 0 <= j < rows.len() ==> migrated_row(#[trigger] rows@[j], migrated@[j]),
            entry_rows_view(out@) == migrated_entries(rows@, entries@.subrange(0, i as int)),
        decreases entries.len() - i,
    {
        let e = &entries[i];
        let ghost upto = entries@.subrange(0, i + 1);
        assert(upto.drop_last() =~= entries@.subrange(0, i as int));
        match lookup_new_id(rows, &migrated, e.status_id) {
            Some(id) => {
                let ghost before = out@;
                out.push(
                    EntryStatusRow {
                        archive_path: e.archive_path.clone(),
                        entry_path: e.entry_path.clone(),
                        status_id: id,
                    },
                );
                assert(entry_rows_view(out@) =~= entry_rows_view(before).push(
                    (e.archive_path@, e.entry_path@, out@.last().status_id@),
                ));
            },
            None => {},
        }
        i = i + 1;
    }
    assert(entries@.subrange(0, entries.len() as int) =~= entries@);
    out
}

} // verus!

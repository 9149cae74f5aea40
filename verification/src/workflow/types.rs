//! Workflow records.
use crate::text::{append_str, chars_of};
use vstd::prelude::*;

verus! {

/// A status an entry can be in.
#[derive(Debug, Clone)]
pub struct WorkflowStatus {
    pub id: String,
    pub label: String,
    pub color: String,
    pub sort_order: i64,
    pub is_default: bool,
}

/// One recorded action.
#[derive(Debug, Clone)]
pub struct ActionLogEntry {
    pub id: i64,
    pub archive_id: String,
    pub archive_path: Option<String>,
    pub action_type: String,
    pub entry_path: Option<String>,
    pub from_status_id: Option<String>,
    pub to_status_id: Option<String>,
    pub detail: Option<String>,
    pub created_at: String,
}

/// What the UUID v5 (DNS namespace) of `name` is, as `uuid` writes it.
pub uninterp spec fn uuid_v5_dns(name: Seq<u8>) -> Seq<char>;

/// `Uuid::new_v5(&Uuid::NAMESPACE_DNS, name).to_string()`: the result is named
/// `uuid_v5_dns`.
#[verifier::external_body]
fn uuid_v5_text(name: &[u8]) -> (res: String)
    ensures
        res@ == uuid_v5_dns(name@),
{
    uuid::Uuid::new_v5(&uuid::Uuid::NAMESPACE_DNS, name).to_string()
}

/// The fixed id of the status with a given label: the UUID v5 of
/// `hehel-zip:status:<label>`.
pub fn status_uuid_v5(label: &str) -> (res: String)
    ensures
        res@ == uuid_v5_dns(vstd::utf8::encode_utf8("hehel-zip:status:"@ + label@)),
{
    let mut v = chars_of("hehel-zip:status:");
    append_str(&mut v, label);
    let s = crate::text::string_of(&v);
    let bytes = vstd::slice::slice_to_vec(s.as_str().as_bytes());
    uuid_v5_text(bytes.as_slice())
}

/// The label of the status given to entries that were sent to the printer.
pub const LABEL_SENT_TO_PRINT: &'static str = "Отправлено в печать";

/// The statuses every workflow starts with, in their order: label, colour and
/// sort order of the `i`-th.
pub open spec fn canonical_status(i: int) -> (Seq<char>, Seq<char>, i64) {
    if i == 0 {
        ("Предпродакшен"@, "#64748b"@, 0)
    } else if i == 1 {
        (LABEL_SENT_TO_PRINT@, "#3b82f6"@, 1)
    } else if i == 2 {
        ("Отпечатано"@, "#22c55e"@, 2)
    } else if i == 3 {
        ("Загрунтовано"@, "#a855f7"@, 3)
    } else if i == 4 {
        ("Брак"@, "#ef4444"@, 4)
    } else {
        ("Перепечатать"@, "#f97316"@, 5)
    }
}

/// How many statuses a workflow starts with.
pub const CANONICAL_STATUS_COUNT: usize = 6;

fn canonical_entry(label: &str, color: &str, sort_order: i64) -> (res: WorkflowStatus)
    ensures
        res.id@ == uuid_v5_dns(vstd::utf8::encode_utf8("hehel-zip:status:"@ + label@)),
        res.label@ == label@,
        res.color@ == color@,
        res.sort_order == sort_order,
        res.is_default,
{
    WorkflowStatus {
        id: status_uuid_v5(label),
        label: String::from_str(label),
        color: String::from_str(color),
        sort_order,
        is_default: true,
    }
}

/// The statuses every workflow starts with: each is a default status whose
/// id is the fixed id of its label.
pub fn canonical_statuses() -> (res: Vec<WorkflowStatus>)
    ensures
        res.len() == CANONICAL_STATUS_COUNT,
        forall|i: int|
            0 <= i < res.len() ==> {
                let s = #[trigger] res@[i];
                &&& s.label@ == canonical_status(i).0
                &&& s.color@ == canonical_status(i).1
                &&& s.sort_order == canonical_status(i).2
                &&& s.is_default
                &&& s.id@ == uuid_v5_dns(vstd::utf8::encode_utf8("hehel-zip:status:"@ + s.label@))
            },
{
    let mut v: Vec<WorkflowStatus> = Vec::new();
    v.push(canonical_entry("Предпродакшен", "#64748b", 0));
    v.push(canonical_entry(LABEL_SENT_TO_PRINT, "#3b82f6", 1));
    v.push(canonical_entry("Отпечатано", "#22c55e", 2));
    v.push(canonical_entry("Загрунтовано", "#a855f7", 3));
    v.push(canonical_entry("Брак", "#ef4444", 4));
    v.push(canonical_entry("Перепечатать", "#f97316", 5));
    v
}

} // verus!

//! The sidecar file beside an archive that keeps its id.
use crate::text::{append_str, chars_of, string_of};
use vstd::prelude::*;

verus! {

/// The sidecar of an archive: its path with `.hehel`.
pub fn sidecar_path_for(archive_path: &str) -> (res: String)
    ensures
        res@ == archive_path@ + ".hehel"@,
{
    let mut v = chars_of(archive_path);
    append_str(&mut v, ".hehel");
    string_of(&v)
}

} // verus!

//! Which previews get a thumbnail.
use crate::text::{chars_of, str_eq_chars};
use vstd::prelude::*;

verus! {

/// Whether a MIME type is a raster image a thumbnail can be made of.
pub open spec fn is_raster_spec(mime: Seq<char>) -> bool {
    mime == "image/png"@ || mime == "image/jpeg"@ || mime == "image/jpg"@ || mime == "image/gif"@
        || mime == "image/webp"@ || mime == "image/bmp"@
}

pub fn is_raster_image(mime: &str) -> (res: bool)
    ensures
        res == is_raster_spec(mime@),
{
    let m = chars_of(mime);
    str_eq_chars("image/png", &m) || str_eq_chars("image/jpeg", &m) || str_eq_chars("image/jpg", &m)
        || str_eq_chars("image/gif", &m) || str_eq_chars("image/webp", &m) || str_eq_chars(
        "image/bmp",
        &m,
    )
}

} // verus!

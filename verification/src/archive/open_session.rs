//! What opening an archive decides: whether it carries HEHE metadata, which
//! id it is known by, and what the user is warned of.
use crate::archive::hehe_format::{archive_id_of, HeheFormat};
use crate::archive::hehe_paths::opt_string;
use vstd::prelude::*;

verus! {

/// What a first look at an archive found.
pub struct ArchiveOpenProbe {
    pub is_hehe: bool,
    pub hehe_metadata: Option<String>,
    pub has_hehestl: bool,
    pub metadata_warning: Option<String>,
}

/// The probe of an archive: for a HEHE archive (`is_hehe`), its metadata
/// (`hehe_metadata`), with a warning where there is none; for another, only
/// whether a `metadata.hehestl` was found in it (`other_has_hehestl`).
pub fn probe_archive_open_meta(is_hehe: bool, hehe_metadata: Option<String>, other_has_hehestl: bool) -> (res: ArchiveOpenProbe)
    ensures
        res.is_hehe == is_hehe,
        is_hehe ==> opt_string(res.hehe_metadata) == opt_string(hehe_metadata),
        is_hehe ==> res.has_hehestl == (hehe_metadata is Some),
        is_hehe ==> opt_string(res.metadata_warning) == if hehe_metadata is Some {
            None
        } else {
            Some("архив .hehe без metadata.hehestl"@)
        },
        !is_hehe ==> res.hehe_metadata is None && res.has_hehestl == other_has_hehestl
            && res.metadata_warning is None,
{
    if is_hehe {
        match hehe_metadata {
            Some(m) => ArchiveOpenProbe {
                is_hehe: true,
                hehe_metadata: Some(m),
                has_hehestl: true,
                metadata_warning: None,
            },
            None => ArchiveOpenProbe {
                is_hehe: true,
                hehe_metadata: None,
                has_hehestl: false,
                metadata_warning: Some(String::from_str("архив .hehe без metadata.hehestl")),
            },
        }
    } else {
        ArchiveOpenProbe { is_hehe: false, hehe_metadata: None, has_hehestl: other_has_hehestl, metadata_warning: None }
    }
}

/// How an opened archive is known.
pub struct OpenIdentity {
    /// The id its metadata names, where it is a HEHE archive whose metadata
    /// names a valid one; else `None`, and the id kept beside it is used.
    pub metadata_id: Option<String>,
    /// The warning shown to the user, if any.
    pub metadata_warning: Option<String>,
}

/// Which id an opened archive is known by, and the warning: a HEHE archive
/// whose metadata names a valid id is known by it; another HEHE archive by the
/// id kept beside it, with a warning (the probe's, else that the id is not
/// valid); any other archive by the id kept beside it, with the probe's
/// warning.
pub fn open_identity(probe: ArchiveOpenProbe) -> (res: OpenIdentity)
    ensures
        ({
            let named = match probe.hehe_metadata {
                Some(m) => if probe.is_hehe { archive_id_of(m@) } else { None },
                None => None,
            };
            &&& opt_string(res.metadata_id) == named
            &&& opt_string(res.metadata_warning) == if probe.is_hehe && named is None && probe.metadata_warning is None {
                Some("metadata.hehestl без валидного ArchiveId"@)
            } else {
                opt_string(probe.metadata_warning)
            }
        }),
{
    if probe.is_hehe {
        match &probe.hehe_metadata {
            Some(meta) => {
                match HeheFormat::parse_archive_id_from_metadata(meta.as_str()) {
                    Some(id) => {
                        return OpenIdentity { metadata_id: Some(id), metadata_warning: probe.metadata_warning };
                    },
                    None => {},
                }
            },
            None => {},
        }
        let warning = match probe.metadata_warning {
            Some(w) => Some(w),
            None => Some(String::from_str("metadata.hehestl без валидного ArchiveId")),
        };
        return OpenIdentity { metadata_id: None, metadata_warning: warning };
    }
    OpenIdentity { metadata_id: None, metadata_warning: probe.metadata_warning }
}

} // verus!

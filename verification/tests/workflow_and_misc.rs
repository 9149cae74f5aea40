use hehel_zip::archive::backend::{BackendKind, ExtractResult};
use hehel_zip::archive::hehe_format::{HeheCompression, HeheFormat};
use hehel_zip::archive::hehe_toc::METHOD_STORE;
use hehel_zip::archive::open_session::{open_identity, probe_archive_open_meta};
use hehel_zip::archive::registry::{probe_and_create, probe_archive};
use hehel_zip::archive::seven_zip::SevenZipAdapter;
use hehel_zip::archive::thumb_disk_cache::{thumb_path, thumb_root};
use hehel_zip::archive::zip_backend::{zip_entry_dto, ZipEntryInfo};
use hehel_zip::clipboard::{copy_files_to_clipboard, read_clipboard_files};
use hehel_zip::error::AppError;
use hehel_zip::workflow::sidecar::sidecar_path_for;
use hehel_zip::workflow::migration::{migrate_entry_statuses, migrate_status_rows, LegacyEntryStatus, LegacyStatusRow};
use hehel_zip::workflow::types::{canonical_statuses, status_uuid_v5, LABEL_SENT_TO_PRINT};

#[test]
fn status_ids_are_uuid_v5_of_the_label() {
    let id = status_uuid_v5("Предпродакшен");
    let expected = uuid::Uuid::new_v5(&uuid::Uuid::NAMESPACE_DNS, "hehel-zip:status:Предпродакшен".as_bytes()).to_string();
    assert_eq!(id, expected);
    assert_ne!(status_uuid_v5("a"), status_uuid_v5("b"));
}

#[test]
fn sidecar_sits_beside_the_archive() {
    assert_eq!(sidecar_path_for("/x/a.zip"), "/x/a.zip.hehel");
}

#[test]
fn clipboard_needs_windows() {
    match copy_files_to_clipboard(&["a".to_string()]) {
        Err(AppError::Archive(m)) => assert_eq!(m, "Копирование файлов в буфер поддерживается только на Windows"),
        _ => panic!("expected refusal"),
    }
    assert!(read_clipboard_files().unwrap().is_empty());
}

#[test]
fn error_messages() {
    assert_eq!(AppError::Validation("x".into()).message(), "Ошибка валидации: x");
    assert_eq!(
        AppError::ArchiveZipSlip { entry: "e".into(), reason: "r".into() }.message(),
        "Zip Slip: e — r"
    );
}

#[test]
fn backend_choice() {
    assert!(matches!(probe_and_create(b"HEHE....", "bin", Ok(false), true), Ok(BackendKind::Hehe)));
    assert!(matches!(probe_and_create(b"xx", "hehe", Err(AppError::Archive("io".into())), true), Ok(BackendKind::Hehe)));
    assert!(matches!(probe_and_create(b"xx", "bin", Err(AppError::Archive("io".into())), true), Err(AppError::Archive(m)) if m == "io"));
    assert!(matches!(probe_and_create(b"PK\x03\x04", "zip", Ok(false), true), Ok(BackendKind::Zip)));
    assert!(matches!(probe_and_create(b"PK\x03\x04", "zip", Ok(false), false), Ok(BackendKind::SevenZ)));
    assert!(matches!(probe_and_create(b"xx", "bin", Ok(true), false), Ok(BackendKind::Hehe)));
    let adapter = SevenZipAdapter::with_path("7z".to_string());
    assert!(probe_archive("a.bin", true, Ok(true), &adapter).unwrap());
    assert!(probe_archive("a.rar", true, Ok(false), &adapter).unwrap());
    assert!(!probe_archive("a.rar", false, Ok(false), &adapter).unwrap());
}

#[test]
fn opening_decides_identity_and_warning() {
    let items = vec![("metadata.hehestl".to_string(), b"x".to_vec())];
    let _ = HeheFormat::write_archive(&items, METHOD_STORE, HeheCompression::balanced()).unwrap();
    let probe = probe_archive_open_meta(true, Some("ArchiveId: 550e8400-e29b-41d4-a716-446655440000\n".to_string()), false);
    assert!(probe.has_hehestl);
    let ident = open_identity(probe);
    assert_eq!(ident.metadata_id.as_deref(), Some("550e8400-e29b-41d4-a716-446655440000"));
    assert!(ident.metadata_warning.is_none());

    let probe = probe_archive_open_meta(true, None, true);
    assert!(!probe.has_hehestl);
    let ident = open_identity(probe);
    assert!(ident.metadata_id.is_none());
    assert_eq!(ident.metadata_warning.as_deref(), Some("архив .hehe без metadata.hehestl"));

    let ident = open_identity(probe_archive_open_meta(true, Some("Tags: x\n".to_string()), false));
    assert_eq!(ident.metadata_warning.as_deref(), Some("metadata.hehestl без валидного ArchiveId"));

    let probe = probe_archive_open_meta(false, None, true);
    assert!(probe.has_hehestl);
    let ident = open_identity(probe);
    assert!(ident.metadata_id.is_none() && ident.metadata_warning.is_none());
}

#[test]
fn extract_results_merge() {
    let a = ExtractResult::from_written(vec!["a".into()]);
    let b = ExtractResult::from_written(vec!["b".into()]);
    let m = a.merge(b);
    assert_eq!(m.written, vec!["a".to_string(), "b".to_string()]);
    assert!(m.skipped.is_empty());
}

#[test]
fn thumbnails_live_beside_the_extract_cache() {
    assert_eq!(thumb_root("/data/Hehel-Zip/extract-cache"), "/data/Hehel-Zip/thumb-cache");
    let p = thumb_path("/t", "h", "img\\photo.png");
    assert!(p.starts_with("/t/h/") && p.ends_with(".webp"));
    assert_eq!(p, thumb_path("/t", "h", "img/photo.png"));
}

#[test]
fn zip_members_become_entries() {
    let dto = zip_entry_dto(ZipEntryInfo {
        name: "dir/part.STL".to_string(),
        is_dir: false,
        size: 10,
        compressed_size: 4,
        last_modified: Some((2025, 4, 1, 9, 5, 0)),
    });
    assert_eq!(dto.path, "dir/part.STL");
    assert_eq!(dto.name, "part.STL");
    assert_eq!(dto.size, 10);
    assert_eq!(dto.packed_size, 4);
    assert!(!dto.is_dir);
    assert_eq!(dto.extension, "stl");
    assert_eq!(dto.modified.as_deref(), Some("2025-04-01 09:05:00"));
}

fn legacy(id: i64, label: &str, remote: Option<&str>) -> LegacyStatusRow {
    LegacyStatusRow {
        id,
        label: label.to_string(),
        color: "#fff".to_string(),
        sort_order: id * 10,
        is_default: if id == 1 { 1 } else { 0 },
        remote_id: remote.map(|s| s.to_string()),
    }
}

fn legacy_entry(archive: &str, entry: &str, status: i64) -> LegacyEntryStatus {
    LegacyEntryStatus { archive_path: archive.to_string(), entry_path: entry.to_string(), status_id: status }
}

#[test]
fn migrated_statuses_take_the_uuid_of_their_label() {
    let rows = vec![legacy(1, "Done", None), legacy(2, "New", Some("r-2"))];
    let out = migrate_status_rows(&rows);
    assert_eq!(out.len(), 2);
    assert_eq!(out[0].id, "d583fa61-5d8c-5cbc-8906-bd27fa2ae928");
    assert_eq!(out[1].id, "661bfaf8-d09b-5299-a02b-90a95d78faf7");
    assert_eq!(out[1].label, "New");
    assert_eq!(out[1].sort_order, 20);
    assert_eq!(out[0].is_default, 1);
    assert_eq!(out[1].remote_id.as_deref(), Some("r-2"));
}

#[test]
fn migrated_entries_follow_their_status_and_orphans_are_dropped() {
    let rows = vec![legacy(1, "Done", None), legacy(2, "New", None)];
    let entries = vec![legacy_entry("a.zip", "x.png", 1), legacy_entry("a.zip", "y.png", 3), legacy_entry("b.zip", "z.png", 2)];
    let out = migrate_entry_statuses(&rows, &entries);
    assert_eq!(out.len(), 2);
    assert_eq!((out[0].archive_path.as_str(), out[0].entry_path.as_str()), ("a.zip", "x.png"));
    assert_eq!(out[0].status_id, "d583fa61-5d8c-5cbc-8906-bd27fa2ae928");
    assert_eq!((out[1].archive_path.as_str(), out[1].entry_path.as_str()), ("b.zip", "z.png"));
    assert_eq!(out[1].status_id, "661bfaf8-d09b-5299-a02b-90a95d78faf7");
}

#[test]
fn a_later_status_row_with_the_same_old_id_wins() {
    let rows = vec![legacy(1, "Done", None), legacy(1, "B", None)];
    let out = migrate_entry_statuses(&rows, &[legacy_entry("p", "q", 1)].to_vec());
    assert_eq!(out.len(), 1);
    assert_eq!(out[0].status_id, "6e4c74d9-9874-5253-bd8b-762e3f2a5fb3");
}

#[test]
fn canonical_statuses_are_six_defaults_in_order() {
    let statuses = canonical_statuses();
    assert_eq!(statuses.len(), 6);
    assert_eq!(statuses[0].label, "Предпродакшен");
    assert_eq!(statuses[1].label, LABEL_SENT_TO_PRINT);
    assert_eq!(statuses[5].label, "Перепечатать");
    assert_eq!(statuses[4].color, "#ef4444");
    for (i, s) in statuses.iter().enumerate() {
        assert_eq!(s.sort_order, i as i64);
        assert!(s.is_default);
        assert_eq!(s.id, status_uuid_v5(&s.label));
    }
}

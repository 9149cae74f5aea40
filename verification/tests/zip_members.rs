use hehel_zip::archive::zip_read::{zip_entry_bytes, zip_extract_plan, zip_list_range};
use hehel_zip::error::AppError;
use std::io::{Cursor, Write};

fn zip_of(members: &[(&str, &[u8])]) -> Vec<u8> {
    let mut zip = zip::ZipWriter::new(Cursor::new(Vec::new()));
    for (name, data) in members {
        if name.ends_with('/') {
            zip.add_directory(name.trim_end_matches('/'), zip::write::SimpleFileOptions::default()).unwrap();
        } else {
            zip.start_file(*name, zip::write::SimpleFileOptions::default()).unwrap();
            zip.write_all(data).unwrap();
        }
    }
    zip.finish().unwrap().into_inner()
}

fn fixture() -> Vec<u8> {
    zip_of(&[("part.stl", b"solid test\nendsolid test\n")])
}

#[test]
fn zip_list_paginated_returns_slice() {
    let (total, page) = zip_list_range(fixture(), 0, 1).unwrap();
    assert_eq!(total, 1);
    assert_eq!(page.len(), 1);
    assert_eq!(page[0].name, "part.stl");
}

#[test]
fn zip_backend_lists_and_extracts() {
    let (_, list) = zip_list_range(fixture(), 0, usize::MAX).unwrap();
    assert!(!list.is_empty());
    let plan = zip_extract_plan(Ok(fixture()), "/out", &["part.stl".to_string()], false).unwrap();
    assert!(!plan.files.is_empty());
    assert_eq!(plan.files[0].0, "/out/part.stl");
    assert_eq!(plan.files[0].1, b"solid test\nendsolid test\n");
}

#[test]
fn zip_extract_all_skips_folders_and_keeps_paths() {
    let bytes = zip_of(&[("models/", b""), ("models/a.stl", b"a"), ("b.stl", b"bb")]);
    let plan = zip_extract_plan(Ok(bytes), "/out", &[], true).unwrap();
    let paths: Vec<&str> = plan.files.iter().map(|(p, _)| p.as_str()).collect();
    assert_eq!(paths, vec!["/out/models/a.stl", "/out/b.stl"]);
    assert!(plan.skipped.is_empty());
}

#[test]
fn zip_extract_reports_missing_and_unsafe_names() {
    let bytes = zip_of(&[("../evil.stl", b"x"), ("ok.stl", b"y")]);
    let plan = zip_extract_plan(Ok(bytes), "/out", &["nope.stl".to_string(), "../evil.stl".to_string()], true).unwrap();
    assert!(plan.files.is_empty());
    assert_eq!(plan.skipped.len(), 2);
    assert_eq!(plan.skipped[0].path, "nope.stl");
    assert_eq!(plan.skipped[0].reason, "Запись не найдена: nope.stl");
    assert_eq!(plan.skipped[1].path, "../evil.stl");
    assert!(plan.skipped[1].reason.starts_with("Zip Slip"));
}

#[test]
fn zip_reads_one_entry_by_either_slash() {
    let bytes = zip_of(&[("dir/x.txt", b"hello")]);
    assert_eq!(zip_entry_bytes(bytes.clone(), "dir\\x.txt").unwrap(), b"hello");
    match zip_entry_bytes(bytes, "dir/y.txt") {
        Err(AppError::ArchiveEntryNotFound(p)) => assert_eq!(p, "dir/y.txt"),
        _ => panic!("expected not found"),
    }
}

#[test]
fn zip_refuses_bytes_that_are_no_archive() {
    assert!(zip_extract_plan(Ok(b"not a zip".to_vec()), "/out", &[], false).is_err());
    assert!(matches!(zip_list_range(b"nope".to_vec(), 0, 5), Err(AppError::Archive(_))));
}

#[test]
fn zip_unreadable_archive_skips_every_named_entry() {
    let plan = zip_extract_plan(Ok(b"not a zip".to_vec()), "/out", &["a.stl".to_string(), "dir/".to_string(), "../x".to_string()], true).unwrap();
    assert!(plan.files.is_empty());
    assert_eq!(plan.skipped.len(), 2);
    assert_eq!(plan.skipped[0].path, "a.stl");
    assert!(plan.skipped[0].reason.starts_with("Ошибка архива: zip open"));
    assert!(plan.skipped[1].reason.starts_with("Zip Slip"));
    let missing = zip_extract_plan(Err(AppError::Archive("gone".to_string())), "/out", &["a.stl".to_string()], false).unwrap();
    assert_eq!(missing.skipped[0].reason, "Ошибка архива: gone");
    match zip_extract_plan(Err(AppError::Archive("gone".to_string())), "/out", &[], false) {
        Err(m) => assert_eq!(m, "Ошибка архива: gone"),
        Ok(_) => panic!("expected an error"),
    }
}

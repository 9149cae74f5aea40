use hehel_zip::archive::hehe_format::{merge_metadata_hehestl, HeheCompression, HeheCreateOptions, HeheFormat};
use hehel_zip::archive::hehe_sources::{collect_local_sources, FoundSource};
use hehel_zip::archive::hehe_toc::{METHOD_DEFLATE, METHOD_STORE, METHOD_ZSTD};
use hehel_zip::archive::image_webp::apply_webp_conversion;
use hehel_zip::error::AppError;
use image::{ImageBuffer, Rgb, RgbImage};
use std::io::Cursor;

fn create_from(paths: &[String], found: Vec<FoundSource>, options: HeheCreateOptions) -> (Vec<u8>, hehel_zip::archive::hehe_format::HeheCreateResult) {
    let (files, meta) = collect_local_sources(paths, found).unwrap();
    let (bytes, result, _) = HeheFormat::create(files, meta, paths, options).unwrap();
    (bytes, result)
}

#[test]
fn roundtrip_store_and_deflate() {
    let items = vec![("hello.txt".to_string(), b"hello".to_vec())];
    let store = HeheFormat::write_archive(&items, METHOD_STORE, HeheCompression::balanced()).unwrap();
    let deflate = HeheFormat::write_archive(&items, METHOD_DEFLATE, HeheCompression::balanced()).unwrap();
    for archive in [&store, &deflate] {
        let bytes = HeheFormat::read_entry_bytes(archive, "hello.txt").unwrap();
        assert_eq!(bytes, b"hello");
    }
}

#[test]
fn fuzzish_paths() {
    let big = vec![0u8; 64 * 1024];
    let items = vec![
        ("empty.bin".to_string(), vec![]),
        ("nested/deep/file.bin".to_string(), big.clone()),
    ];
    let archive = HeheFormat::write_archive(&items, METHOD_ZSTD, HeheCompression::balanced()).unwrap();
    let got = HeheFormat::read_entry_bytes(&archive, "nested/deep/file.bin").unwrap();
    assert_eq!(got.len(), big.len());
}

#[test]
fn merge_metadata_strips_bom() {
    let merged = merge_metadata_hehestl(
        Some("\u{FEFF}Tags: saved\nName: test\n"),
        "550e8400-e29b-41d4-a716-446655440000",
        &[],
        "zstd:12",
    );
    assert!(merged.contains("Tags: saved"));
    assert!(merged.contains("Name: test"));
    assert!(merged.contains("FormatVersion: 1"));
}

#[test]
fn converts_png_when_smaller() {
    let mut img: RgbImage = ImageBuffer::new(64, 64);
    for p in img.pixels_mut() {
        *p = Rgb([120, 40, 200]);
    }
    let mut png = Vec::new();
    img.write_to(&mut Cursor::new(&mut png), image::ImageFormat::Png).unwrap();

    let mut files = vec![("ref.png".to_string(), png.clone())];
    let map = apply_webp_conversion(&mut files).unwrap();
    assert_eq!(map[0], ("ref.png".to_string(), "ref.webp".to_string()));
    assert!(files.iter().any(|(p, _)| p == "ref.webp"));
    assert!(!files.iter().any(|(p, _)| p == "ref.png"));
    let webp = &files.iter().find(|(p, _)| p == "ref.webp").unwrap().1;
    assert!(webp.len() < png.len());
}

#[test]
fn roundtrip_zstd_in_memory() {
    let paths = vec!["/in/part.stl".to_string()];
    let (archive, result) = create_from(&paths, vec![FoundSource::File(b"solid test cube".to_vec())], HeheCreateOptions::from_api(None, None));
    assert!(uuid::Uuid::parse_str(&result.archive_id).is_ok());
    assert_eq!(result.entry_count, 2);
    assert!(HeheFormat::probe(&archive));
    let list = HeheFormat::list(&archive).unwrap();
    assert!(list.iter().any(|e| e.path == "metadata.hehestl"));
    assert!(list.iter().any(|e| e.name == "part.stl"));
    let meta = HeheFormat::read_entry_bytes(&archive, "metadata.hehestl").unwrap();
    let meta_str = String::from_utf8_lossy(&meta);
    assert_eq!(HeheFormat::parse_archive_id_from_metadata(&meta_str), Some(result.archive_id.clone()));
    assert!(meta_str.contains("Compression: zstd:12"));
    assert_eq!(HeheFormat::read_entry_bytes(&archive, "part.stl").unwrap(), b"solid test cube");
}

#[test]
fn stl_created_as_store_in_memory() {
    let paths = vec!["part.stl".to_string()];
    let (archive, _) = create_from(&paths, vec![FoundSource::File(b"solid test cube".to_vec())], HeheCreateOptions::from_api(None, None));
    let list = HeheFormat::list(&archive).unwrap();
    let stl = list.iter().find(|e| e.name == "part.stl").expect("stl");
    assert_eq!(stl.size, stl.packed_size);
}

#[test]
fn create_from_directory_in_memory() {
    let paths = vec!["/tmp/project".to_string()];
    let found = vec![FoundSource::Dir(vec![
        ("part.stl".to_string(), b"solid x".to_vec()),
        ("metadata.hehestl".to_string(), b"Tags: keep-me\nArchiveId: old\n".to_vec()),
        ("refs/photo.png".to_string(), b"png".to_vec()),
    ])];
    let (archive, result) = create_from(&paths, found, HeheCreateOptions::from_api(None, None));
    let meta_bytes = HeheFormat::read_entry_bytes(&archive, "metadata.hehestl").unwrap();
    let meta = String::from_utf8_lossy(&meta_bytes);
    assert!(meta.contains("Tags: keep-me"));
    assert!(!meta.contains("old"));
    assert_eq!(HeheFormat::parse_archive_id_from_metadata(&meta), Some(result.archive_id));
    assert_eq!(HeheFormat::read_entry_bytes(&archive, "part.stl").unwrap(), b"solid x");
    assert_eq!(HeheFormat::read_entry_bytes(&archive, "refs/photo.png").unwrap(), b"png");
}

#[test]
fn create_empty_directory_in_memory() {
    let paths = vec!["/tmp/empty".to_string()];
    let (archive, result) = create_from(&paths, vec![FoundSource::Dir(vec![])], HeheCreateOptions::from_api(None, None));
    assert_eq!(result.entry_count, 1);
    assert!(HeheFormat::read_metadata(&archive).is_some());
}

#[test]
fn create_cyrillic_paths_in_memory() {
    let paths = vec!["/tmp/проект".to_string()];
    let (archive, _) = create_from(&paths, vec![FoundSource::Dir(vec![("деталь.stl".to_string(), b"stl".to_vec())])], HeheCreateOptions::from_api(None, None));
    assert_eq!(HeheFormat::read_entry_bytes(&archive, "деталь.stl").unwrap(), b"stl");
}

#[test]
fn multi_root_avoids_basename_collision_in_memory() {
    let paths = vec!["/src/a".to_string(), "/src/b".to_string()];
    let found = vec![
        FoundSource::Dir(vec![("x.txt".to_string(), b"1".to_vec())]),
        FoundSource::Dir(vec![("x.txt".to_string(), b"2".to_vec())]),
    ];
    let (files, meta) = collect_local_sources(&paths, found).unwrap();
    assert!(meta.is_none());
    assert!(files.iter().any(|(p, d)| p == "a/x.txt" && d == b"1"));
    assert!(files.iter().any(|(p, d)| p == "b/x.txt" && d == b"2"));
}

#[test]
fn single_root_collision_is_refused() {
    let paths = vec!["/one/x.txt".to_string()];
    let found = vec![FoundSource::Dir(vec![
        ("x.txt".to_string(), b"1".to_vec()),
        ("x.txt".to_string(), b"2".to_vec()),
    ])];
    match collect_local_sources(&paths, found) {
        Err(AppError::Validation(m)) => assert_eq!(m, "Коллизия имён: x.txt"),
        _ => panic!("expected a collision"),
    }
}

#[test]
fn missing_and_unsupported_sources_are_refused() {
    match collect_local_sources(&["/nope".to_string()], vec![FoundSource::Missing]) {
        Err(AppError::Validation(m)) => assert_eq!(m, "Путь не найден: /nope"),
        _ => panic!("expected missing"),
    }
    match collect_local_sources(&["/dev/x".to_string()], vec![FoundSource::Other]) {
        Err(AppError::Validation(m)) => assert_eq!(m, "Неподдерживаемый путь: /dev/x"),
        _ => panic!("expected unsupported"),
    }
    match collect_local_sources(&["/m/metadata.hehestl".to_string()], vec![FoundSource::File(vec![0xff, 0xfe])]) {
        Err(AppError::Archive(m)) => assert_eq!(m, "stream did not contain valid UTF-8"),
        _ => panic!("expected bad metadata"),
    }
}

#[test]
fn create_without_sources_is_refused() {
    match HeheFormat::create(vec![], None, &[], HeheCreateOptions::from_api(None, None)) {
        Err(AppError::Validation(m)) => assert_eq!(m, "Нет файлов для архива"),
        _ => panic!("expected refusal"),
    }
}

#[test]
fn create_from_archive_subset_in_memory() {
    let paths = vec!["/tmp/src".to_string()];
    let found = vec![FoundSource::Dir(vec![
        ("a.stl".to_string(), b"a".to_vec()),
        ("sub/b.stl".to_string(), b"b".to_vec()),
    ])];
    let (source, _) = create_from(&paths, found, HeheCreateOptions::from_api(None, None));
    let (out, result, _) = HeheFormat::create_from_archive(
        &source,
        "/tmp/source.hehe",
        &["sub/".to_string()],
        Some("sub"),
        HeheCreateOptions::from_api(None, None),
    )
    .unwrap();
    assert_eq!(HeheFormat::read_entry_bytes(&out, "b.stl").unwrap(), b"b");
    let list = HeheFormat::list(&out).unwrap();
    assert!(!list.iter().any(|e| e.path == "a.stl"));
    let meta = HeheFormat::read_metadata(&out).unwrap();
    assert_eq!(HeheFormat::parse_archive_id_from_metadata(&meta), Some(result.archive_id));
}

#[test]
fn targeted_extract_plans_one_file() {
    let mut items: Vec<(String, Vec<u8>)> = (0..100).map(|i| (format!("bulk/f{i:04}.bin"), vec![0u8; 16])).collect();
    items.push(("target.stl".to_string(), b"solid target".to_vec()));
    items.push(("metadata.hehestl".to_string(), b"ArchiveId: x\n".to_vec()));
    let archive = HeheFormat::write_archive(&items, METHOD_ZSTD, HeheCompression::balanced()).unwrap();
    let plan = HeheFormat::extract(&archive, "/dest", &["target.stl".to_string()], false).unwrap();
    assert_eq!(plan.files.len(), 1);
    assert_eq!(plan.files[0].0, "/dest/target.stl");
    assert_eq!(plan.files[0].1, b"solid target");
    assert!(plan.skipped.is_empty());
}

#[test]
fn missing_entry_is_an_error() {
    let items = vec![("a.txt".to_string(), b"a".to_vec())];
    let archive = HeheFormat::write_archive(&items, METHOD_STORE, HeheCompression::balanced()).unwrap();
    assert!(HeheFormat::read_entry_bytes(&archive, "b.txt").is_err());
    assert!(HeheFormat::list(b"not an archive").is_err());
    assert!(!HeheFormat::probe(b"HEH"));
}

#[test]
fn paginated_listing_returns_a_slice() {
    let items: Vec<(String, Vec<u8>)> = (0..5).map(|i| (format!("f{i}.bin"), vec![i as u8])).collect();
    let archive = HeheFormat::write_archive(&items, METHOD_STORE, HeheCompression::balanced()).unwrap();
    let (page, total) = HeheFormat::list_paginated(&archive, 1, 2).unwrap();
    assert_eq!(total, 5);
    assert_eq!(page.len(), 2);
    assert_eq!(page[0].path, "f1.bin");
    assert_eq!(page[1].path, "f2.bin");
}

#[test]
fn repack_sorts_entries_behind_the_metadata() {
    let items = vec![
        ("metadata.hehestl".to_string(), b"ArchiveId: x\n".to_vec()),
        ("a/z.stl".to_string(), b"z".to_vec()),
        ("b.stl".to_string(), b"b".to_vec()),
    ];
    let source = HeheFormat::write_archive(&items, METHOD_STORE, HeheCompression::balanced()).unwrap();
    let (out, result, written) =
        HeheFormat::create_from_archive(&source, "/s.hehe", &[], Some("a"), HeheCreateOptions::from_api(None, None)).unwrap();
    let paths: Vec<String> = HeheFormat::list(&out).unwrap().into_iter().map(|e| e.path).collect();
    assert_eq!(paths, vec!["metadata.hehestl", "b.stl", "z.stl"]);
    assert_eq!(written.len(), 3);
    assert_eq!(result.entry_count, 3);
    assert!(HeheFormat::verify_archive_entries(&out, &written).is_ok());
}

#[test]
fn created_archive_reports_order_totals_and_a_v4_id() {
    let paths = vec!["/tmp/p".to_string()];
    let found = vec![FoundSource::Dir(vec![
        ("z.stl".to_string(), b"zz".to_vec()),
        ("a.stl".to_string(), b"aaa".to_vec()),
    ])];
    let (files, meta) = collect_local_sources(&paths, found).unwrap();
    let (out, result, written) = HeheFormat::create(files, meta, &paths, HeheCreateOptions::from_api(None, None)).unwrap();
    let listed: Vec<String> = HeheFormat::list(&out).unwrap().into_iter().map(|e| e.path).collect();
    assert_eq!(listed, vec!["metadata.hehestl", "a.stl", "z.stl"]);
    assert_eq!(result.entry_count as usize, listed.len());
    let total: u64 = written.iter().map(|(_, d)| d.len() as u64).sum();
    assert_eq!(result.total_bytes, total);
    let id = uuid::Uuid::parse_str(&result.archive_id).unwrap();
    assert_eq!(id.get_version_num(), 4);
    let meta_text = HeheFormat::read_metadata(&out).unwrap();
    assert!(meta_text.starts_with(&format!("FormatVersion: 1\nArchiveId: {}\nCreated: ", result.archive_id)));
    let created_line = meta_text.lines().nth(2).unwrap();
    let stamp = &created_line["Created: ".len()..];
    assert!(stamp.ends_with("+00:00"));
    let b = stamp.as_bytes();
    assert_eq!((b[4], b[7], b[10], b[13], b[16]), (b'-', b'-', b'T', b':', b':'));
    assert!(matches!(stamp.len(), 25 | 29 | 32 | 35));
}

#[test]
fn verify_refuses_a_damaged_copy() {
    let paths = vec!["/tmp/p.stl".to_string()];
    let (files, meta) = collect_local_sources(&paths, vec![FoundSource::File(vec![7u8; 200])]).unwrap();
    let (out, _, written) = HeheFormat::create(files, meta, &paths, HeheCreateOptions::from_api(None, None)).unwrap();
    assert!(HeheFormat::verify_archive_entries(&out, &written).is_ok());
    let mut damaged = out.clone();
    let n = damaged.len();
    damaged.truncate(n - 1);
    match HeheFormat::verify_archive_entries(&damaged, &written) {
        Err(AppError::Archive(m)) => assert!(m.starts_with("Проверка целостности не пройдена")),
        _ => panic!("expected the check to fail"),
    }
}

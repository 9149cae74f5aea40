use hehel_zip::archive::extract::{collect_extracted_paths, passes_filter};
use hehel_zip::archive::extract_cache::{cache_file_path_with_hash, part_path_for, session_out_path, CacheRootSetting};
use hehel_zip::archive::hehe_paths::{normalize_entry_path, normalize_toc_path, remap_entry_path};
use hehel_zip::archive::path_safety::resolve_safe_extract_path;
use hehel_zip::archive::preview_cache::mime_from_path;
use hehel_zip::archive::preview_uri::parse_preview_uri;
use hehel_zip::archive::seven_zip::{ExtractOptions, OverwriteMode};
use hehel_zip::archive::temp_session::{is_stale_session, session_path};
use hehel_zip::error::AppError;

const DEST: &str = "/tmp/hehel-dest";

#[test]
fn rejects_parent_traversal() {
    assert!(resolve_safe_extract_path(DEST, "../../../etc/passwd").is_err());
    assert!(resolve_safe_extract_path(DEST, "subdir/../../../evil.exe").is_err());
}

#[test]
fn rejects_absolute_windows_path() {
    assert!(resolve_safe_extract_path(DEST, r"C:\Windows\System32\calc.exe").is_err());
}

#[test]
fn rejects_reserved_con() {
    let err = resolve_safe_extract_path(DEST, "CON.txt").unwrap_err();
    assert!(matches!(err, AppError::ArchiveReservedName(_)));
}

#[test]
fn accepts_normal_path() {
    let out = resolve_safe_extract_path(DEST, "normal/part.stl").unwrap();
    assert!(out.ends_with("normal/part.stl"));
    assert!(out.starts_with(DEST));
    assert_eq!(out, "/tmp/hehel-dest/normal/part.stl");
}

#[test]
fn rejects_null_byte() {
    assert!(resolve_safe_extract_path(DEST, "a\0b.stl").is_err());
}

#[test]
fn zip_slip_reasons_are_reported() {
    match resolve_safe_extract_path(DEST, "a/../b") {
        Err(AppError::ArchiveZipSlip { entry, reason }) => {
            assert_eq!(entry, "a/../b");
            assert_eq!(reason, "parent traversal (..)");
        }
        _ => panic!("expected zip slip"),
    }
    match resolve_safe_extract_path(DEST, "   ") {
        Err(AppError::ArchiveZipSlip { reason, .. }) => assert_eq!(reason, "empty entry path"),
        _ => panic!("expected zip slip"),
    }
    match resolve_safe_extract_path(DEST, "./.") {
        Err(AppError::ArchiveZipSlip { reason, .. }) => assert_eq!(reason, "path resolves to root"),
        _ => panic!("expected zip slip"),
    }
    match resolve_safe_extract_path(DEST, "dir./x") {
        Err(AppError::ArchiveZipSlip { reason, .. }) => assert_eq!(reason, "trailing dots or spaces (Windows)"),
        _ => panic!("expected zip slip"),
    }
    assert_eq!(resolve_safe_extract_path(DEST, "a\\b.stl").unwrap(), "/tmp/hehel-dest/a/b.stl");
}

#[test]
fn parses_hehe_scheme() {
    let (id, path) = parse_preview_uri("hehe://preview/abc-123/folder%2Fphoto.png").unwrap();
    assert_eq!(id, "abc-123");
    assert_eq!(path, "folder/photo.png");
}

#[test]
fn parses_windows_localhost_scheme() {
    let (id, path) = parse_preview_uri("http://hehe.localhost/preview%2Fabc-123%2Ffolder%252Fphoto.png").unwrap();
    assert_eq!(id, "abc-123");
    assert_eq!(path, "folder/photo.png");
}

#[test]
fn preview_uri_without_entry_is_refused() {
    assert!(matches!(parse_preview_uri("hehe://preview/abc"), Err(AppError::Archive(_))));
    assert!(matches!(parse_preview_uri("hehe://other/abc/x"), Err(AppError::Archive(_))));
    let (id, path) = parse_preview_uri("hehe://preview/id/a.png?x=1").unwrap();
    assert_eq!((id.as_str(), path.as_str()), ("id", "a.png"));
}

#[test]
fn mime_types_by_extension() {
    assert_eq!(mime_from_path("a/b.PNG"), "image/png");
    assert_eq!(mime_from_path("x.jpeg"), "image/jpeg");
    assert_eq!(mime_from_path("x.webp"), "image/webp");
    assert_eq!(mime_from_path("x.stl"), "application/octet-stream");
    assert_eq!(mime_from_path("gif"), "image/gif");
}

#[test]
fn entry_paths_normalize() {
    assert_eq!(normalize_entry_path("a\\b\\c/"), "a/b/c");
    assert_eq!(normalize_toc_path("./a//b\\c"), "a/b/c");
    assert_eq!(remap_entry_path("sub/b.stl", Some("sub")).unwrap(), "b.stl");
    assert!(remap_entry_path("sub", Some("sub")).is_err());
}

#[test]
fn cache_paths() {
    assert_eq!(part_path_for("/c/abc/key"), "/c/abc/key.part");
    let p = cache_file_path_with_hash("/cache", "hash", "a/b.stl", false);
    assert!(p.starts_with("/cache/hash/"));
    assert_eq!(p.len(), "/cache/hash/".len() + 64);
    assert_ne!(p, cache_file_path_with_hash("/cache", "hash", "a/b.stl", true));
    assert_eq!(p, cache_file_path_with_hash("/cache", "hash", "a\\b.stl/", false));
    assert_eq!(session_out_path("/s", "a/b.stl", false), "/s/b.stl");
    assert_eq!(session_out_path("/s", "a/b.stl", true), "/s/a\\b.stl");
    assert_eq!(session_path("/tmp/Hehel-Zip", "42"), "/tmp/Hehel-Zip/session-42");
}

#[test]
fn cache_root_choice() {
    let mut setting = CacheRootSetting::new();
    setting.set_custom_root(Some("   ".to_string()));
    assert!(setting.custom_root.is_none());
    assert_eq!(setting.cache_root_from(Some("/data".to_string()), "/tmp"), "/data/Hehel-Zip/extract-cache");
    assert_eq!(setting.cache_root_from(None, "/tmp"), "/tmp/Hehel-Zip/extract-cache");
    setting.set_custom_root(Some("/mine".to_string()));
    assert_eq!(setting.cache_root("/tmp"), "/mine");
    setting.set_custom_root(None);
    assert!(setting.cache_root("/tmp").ends_with("Hehel-Zip/extract-cache"));
}

#[test]
fn stale_sessions() {
    assert!(is_stale_session("session-1", 10, 100_000, 1));
    assert!(!is_stale_session("session-1", 100_000 - 10, 100_000, 1));
    assert!(!is_stale_session("other", 10, 100_000, 1));
    assert!(is_stale_session("session-x", 99, 100, 0));
}

fn options(preserve: bool, filter: Option<Vec<&str>>) -> ExtractOptions {
    ExtractOptions {
        preserve_paths: preserve,
        overwrite: OverwriteMode::Replace,
        extensions_filter: filter.map(|v| v.into_iter().map(String::from).collect()),
    }
}

#[test]
fn extension_filter() {
    assert!(passes_filter("a/b.STL", &options(true, Some(vec!["stl"]))));
    assert!(!passes_filter("a/b.txt", &options(true, Some(vec!["stl"]))));
    assert!(passes_filter("a/b.txt", &options(true, Some(vec![]))));
    assert!(passes_filter("a/b.txt", &options(true, None)));
    assert!(passes_filter("noext", &options(true, Some(vec![""]))));
    let d = ExtractOptions::default();
    assert!(d.preserve_paths);
    assert_eq!(d.extensions_filter.unwrap(), vec!["stl", "obj", "zip", "rar", "7z"]);
}

#[test]
fn collects_reported_files() {
    let files: Vec<String> = vec!["/d/a.stl".into(), "/d/sub/b.stl".into(), "/d/sub/c.txt".into(), "/d/subx.stl".into()];
    let all = collect_extracted_paths("/d", &[], &options(false, Some(vec!["stl"])), &files);
    assert_eq!(all, vec!["/d/a.stl", "/d/sub/b.stl", "/d/subx.stl"]);
    let picked = collect_extracted_paths("/d", &["x/a.stl".to_string(), "sub".to_string(), "missing".to_string()], &options(false, None), &files);
    assert_eq!(picked, vec!["/d/a.stl", "/d/sub/b.stl", "/d/sub/c.txt"]);
    let filtered_out = collect_extracted_paths("/d", &["sub/c.txt".to_string()], &options(true, Some(vec!["stl"])), &files);
    assert!(filtered_out.is_empty());
}

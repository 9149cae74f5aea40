use hehel_zip::archive::extract_cache::{LruState, MAX_CACHE_BYTES};
use hehel_zip::archive::preview_cache::{PreviewCache, PREVIEW_MAX_BYTES, PREVIEW_TTL_MS};
use hehel_zip::archive::temp_session::{SessionTable, SESSION_IDLE_TTL_MS};

#[test]
fn extract_cache_tracks_and_evicts_least_recent() {
    let mut lru = LruState::new();
    assert!(lru.register_and_evict("/c/a", 3 * 1024 * 1024 * 1024).is_empty());
    assert!(lru.register_and_evict("/c/b", 1024 * 1024 * 1024).is_empty());
    assert_eq!(lru.total_bytes, 4 * 1024 * 1024 * 1024);
    // "a" becomes the most recent, so "b" goes first
    assert!(lru.touch("/c/a", Some(1)).is_empty());
    let evicted = lru.register_and_evict("/c/d", 2 * 1024 * 1024 * 1024);
    assert_eq!(evicted, vec!["/c/b".to_string()]);
    assert_eq!(lru.total_bytes, 5 * 1024 * 1024 * 1024);
    assert!(lru.total_bytes <= MAX_CACHE_BYTES);
}

#[test]
fn extract_cache_replaces_a_registered_size() {
    let mut lru = LruState::new();
    lru.register_and_evict("/c/a", 10);
    lru.register_and_evict("/c/a", 4);
    assert_eq!(lru.total_bytes, 4);
    // an untracked file whose size is unknown is not registered
    assert!(lru.touch("/c/x", None).is_empty());
    assert_eq!(lru.total_bytes, 4);
    lru.touch("/c/y", Some(6));
    assert_eq!(lru.total_bytes, 10);
}

#[test]
fn extract_cache_drops_everything_for_an_oversized_file() {
    let mut lru = LruState::new();
    lru.register_and_evict("/c/a", 1);
    let evicted = lru.register_and_evict("/c/huge", MAX_CACHE_BYTES + 1);
    assert_eq!(evicted, vec!["/c/a".to_string(), "/c/huge".to_string()]);
    assert_eq!(lru.total_bytes, 0);
}

#[test]
fn preview_cache_reads_back_while_fresh() {
    let mut cache = PreviewCache::new();
    cache.put("arch", "a.png", vec![1, 2, 3], "image/png".to_string(), 1_000);
    let (bytes, mime) = cache.get("arch", "a.png", 1_000 + PREVIEW_TTL_MS).unwrap();
    assert_eq!(*bytes, vec![1, 2, 3]);
    assert_eq!(mime, "image/png");
    assert!(cache.get("arch", "a.png", 1_001 + PREVIEW_TTL_MS).is_none());
    assert!(cache.get("arch", "b.png", 1_000).is_none());
    assert!(cache.get("other", "a.png", 1_000).is_none());
    assert_eq!(cache.total_bytes, 3);
}

#[test]
fn preview_cache_evicts_to_stay_under_limit() {
    let mut cache = PreviewCache::new();
    let half = (PREVIEW_MAX_BYTES / 2) as usize;
    cache.put("a", "1", vec![0; half], "x".to_string(), 0);
    cache.put("a", "2", vec![0; half], "x".to_string(), 0);
    assert_eq!(cache.total_bytes, PREVIEW_MAX_BYTES);
    cache.put("a", "3", vec![0; 10], "x".to_string(), 0);
    assert!(cache.get("a", "1", 0).is_none());
    assert!(cache.get("a", "2", 0).is_some());
    assert!(cache.get("a", "3", 0).is_some());
    assert_eq!(cache.total_bytes, PREVIEW_MAX_BYTES / 2 + 10);
    // replacing a preview takes its old size out
    cache.put("a", "3", vec![0; 4], "y".to_string(), 5);
    assert_eq!(cache.total_bytes, PREVIEW_MAX_BYTES / 2 + 4);
    assert_eq!(cache.get("a", "3", 5).unwrap().1, "y");
}

#[test]
fn sessions_are_recorded_and_pruned() {
    let mut table = SessionTable::new();
    table.record("h1", "s1", 0);
    table.record("h2", "s2", 10);
    assert_eq!(table.session_of("h1"), Some("s1".to_string()));
    table.record("h1", "s3", 20);
    assert_eq!(table.session_of("h1"), Some("s3".to_string()));
    assert_eq!(table.sessions.len(), 2);
    let dropped = table.prune_idle_sessions(10 + SESSION_IDLE_TTL_MS + 1);
    assert_eq!(dropped, vec!["s2".to_string()]);
    assert_eq!(table.session_of("h2"), None);
    assert_eq!(table.session_of("h1"), Some("s3".to_string()));
    table.forget_session("s3");
    assert!(table.sessions.is_empty());
}

#[test]
fn sessions_stay_until_idle_past_ttl() {
    let mut table = SessionTable::new();
    table.record("h", "s", 5);
    assert!(table.prune_idle_sessions(5 + SESSION_IDLE_TTL_MS).is_empty());
    assert!(table.prune_idle_sessions(0).is_empty());
    assert_eq!(table.sessions.len(), 1);
}

use hehel_zip::archive::archive_service::{
    hehestl_text, is_whole_listing, missing_entries, page, populate_plan, ListingCache, PopulatePlan,
};
use hehel_zip::archive::backend::BackendKind;
use hehel_zip::archive::hehe_paths::entry_dto;
use hehel_zip::error::AppError;

fn listing(n: u64) -> Vec<hehel_zip::archive::seven_zip::ArchiveEntryDto> {
    (0..n).map(|i| entry_dto(&format!("f{i}.stl"), i, i)).collect()
}

#[test]
fn pages_of_a_listing() {
    let all = listing(5);
    let p = page(&all, 1, 2);
    assert_eq!(p.iter().map(|e| e.path.as_str()).collect::<Vec<_>>(), vec!["f1.stl", "f2.stl"]);
    assert_eq!(page(&all, 4, 10).len(), 1);
    assert!(page(&all, 7, 2).is_empty());
    assert_eq!(page(&all, 0, usize::MAX).len(), 5);
    assert!(is_whole_listing(0, 5, 5));
    assert!(!is_whole_listing(1, 4, 5));
}

#[test]
fn listing_cache_reads_back_while_the_file_is_unchanged() {
    let mut cache = ListingCache::new();
    cache.put_listing_cache("/a.zip", (10, 0, 100), listing(3));
    cache.put_listing_cache("/b.zip", (11, 0, 7), listing(1));
    assert_eq!(cache.get_cached_listing("/a.zip", (10, 0, 100)).unwrap().len(), 3);
    assert!(cache.get_cached_listing("/a.zip", (10, 1, 100)).is_none());
    assert!(cache.get_cached_listing("/c.zip", (10, 0, 100)).is_none());
    cache.put_listing_cache("/a.zip", (12, 0, 100), listing(2));
    assert_eq!(cache.get_cached_listing("/a.zip", (12, 0, 100)).unwrap().len(), 2);
    assert!(cache.get_cached_listing("/a.zip", (10, 0, 100)).is_none());
    assert_eq!(cache.get_cached_listing("/b.zip", (11, 0, 7)).unwrap()[0].path, "f0.stl");
    assert_eq!(cache.listings.len(), 2);
}

#[test]
fn cache_population_plans() {
    assert_eq!(populate_plan(BackendKind::SevenZ, 0), PopulatePlan::Nothing);
    assert_eq!(populate_plan(BackendKind::SevenZ, 3), PopulatePlan::SevenZipBatch);
    assert_eq!(populate_plan(BackendKind::SevenZ, 1), PopulatePlan::Single);
    assert_eq!(populate_plan(BackendKind::Zip, 1), PopulatePlan::Single);
    assert_eq!(populate_plan(BackendKind::Hehe, 2), PopulatePlan::Parallel);
    let entries = vec!["a".to_string(), "b".to_string(), "c".to_string()];
    assert_eq!(missing_entries(&entries, &[true, false, false]), vec!["b".to_string(), "c".to_string()]);
    assert!(missing_entries(&entries, &[true, true, true]).is_empty());
}

#[test]
fn metadata_text_from_a_read() {
    assert_eq!(hehestl_text(Ok(b"Tags: x".to_vec())).unwrap(), Some("Tags: x".to_string()));
    assert_eq!(hehestl_text(Ok(vec![0x66, 0xff])).unwrap(), Some("f\u{FFFD}".to_string()));
    assert_eq!(hehestl_text(Err(AppError::ArchiveEntryNotFound("m".into()))).unwrap(), None);
    assert!(matches!(hehestl_text(Err(AppError::Archive("io".into()))), Err(AppError::Archive(m)) if m == "io"));
}

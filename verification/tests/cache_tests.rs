use manhuaviewer::cache_budget::{evict_cover_dirs, evict_dirs_by_mtime, newest_first_order, CacheDir};
use manhuaviewer::http::FileTime;
use manhuaviewer::scan::worker_count as scan_workers;
use manhuaviewer::convert::worker_count as convert_workers;

fn dir(id: i64, secs: i64, size: u64) -> CacheDir {
    CacheDir { path: format!("/cache/page_thumbs/{id}"), mtime: FileTime { secs, nanos: 0 }, size }
}

fn names(paths: &[String]) -> Vec<String> {
    paths.iter().map(|p| p.rsplit('/').next().unwrap().to_string()).collect()
}

#[test]
fn evicts_oldest_page_thumb_dirs_over_budget() {
    // 1 KB each, 1 oldest and 3 newest; a 2.5 KB budget keeps 3 and 2.
    let evicted = evict_dirs_by_mtime(vec![dir(1, 100, 1000), dir(2, 101, 1000), dir(3, 102, 1000)], 2500, None);
    assert_eq!(evicted.len(), 1);
    assert_eq!(names(&evicted), vec!["1".to_string()]);
}

#[test]
fn always_keeps_the_most_recent_dir_even_over_budget() {
    let evicted = evict_dirs_by_mtime(vec![dir(1, 100, 5000)], 100, None);
    assert!(evicted.is_empty());
}

#[test]
fn excluded_dir_is_never_evicted() {
    let evicted = evict_dirs_by_mtime(vec![dir(1, 100, 1000), dir(2, 101, 1000), dir(3, 102, 1000)], 1000, Some(1));
    assert_eq!(evicted.len(), 1);
    assert_eq!(names(&evicted), vec!["2".to_string()]);
}

#[test]
fn eviction_order_ignores_input_order() {
    let evicted = evict_dirs_by_mtime(vec![dir(3, 102, 1000), dir(1, 100, 1000), dir(2, 101, 1000)], 1000, None);
    assert_eq!(names(&evicted), vec!["2".to_string(), "1".to_string()]);
}

#[test]
fn newest_first_is_stable_and_descending() {
    let sorted = newest_first_order(&vec![dir(1, 5, 1), dir(2, 9, 1), dir(3, 5, 1), dir(4, 7, 1)]);
    let ids: Vec<String> = sorted.iter().map(|d| d.path.rsplit('/').next().unwrap().to_string()).collect();
    assert_eq!(ids, vec!["2", "4", "1", "3"]);
}

#[test]
fn cover_eviction_respects_budget() {
    // most recently used first
    let ids = vec![10, 11, 12, 13];
    let sizes = vec![400, 400, 400, 400];
    assert_eq!(evict_cover_dirs(&ids, &sizes, 1000, None), vec![12, 13]);
    assert_eq!(evict_cover_dirs(&ids, &sizes, 1000, Some(13)), vec![12]);
    assert!(evict_cover_dirs(&ids, &sizes, 10_000, None).is_empty());
}

#[test]
fn worker_count_is_bounded() {
    assert_eq!(scan_workers(0, None), 1);
    assert!((1..=3).contains(&scan_workers(3, None)));
    assert!(scan_workers(10_000, None) <= 8);
    assert_eq!(scan_workers(10_000, Some(64)), 8);
    assert_eq!(scan_workers(2, Some(64)), 2);
}

#[test]
fn worker_count_is_small_and_bounded() {
    assert_eq!(convert_workers(0, None), 1);
    assert_eq!(convert_workers(1, None), 1);
    assert!((1..=3).contains(&convert_workers(1000, None)));
    assert_eq!(convert_workers(1000, Some(16)), 3);
}

#[test]
fn evict_cover_dirs_budget_for_two_of_three_evicts_the_oldest() {
    let ids = vec![1, 2, 3];
    let sizes = vec![1000, 1000, 1000];
    assert_eq!(evict_cover_dirs(&ids, &sizes, 2000, None), vec![3]);
}

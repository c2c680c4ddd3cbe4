use manhuaviewer::grouping::{archive_group_key, auto_group_key, group_archives, shuffle_by_seed, stable_random_key};
use manhuaviewer::models::ArchiveRow;

fn row(id: i64, title: &str, path: &str, group_id: Option<i64>) -> ArchiveRow {
    ArchiveRow {
        id,
        title: title.to_string(),
        path: path.to_string(),
        archive_type: "folder".to_string(),
        page_count: 10,
        cover_image: None,
        file_size: 0,
        thumbnail_path: None,
        group_id,
        created_at: String::new(),
        updated_at: String::new(),
    }
}

#[test]
fn group_archives_merges_same_title_and_parent() {
    let items = group_archives(vec![
        row(1, "海贼王", "/manhua/海贼王/01", None),
        row(2, "海贼王", "/manhua/海贼王/02", None),
    ]);
    assert_eq!(items.len(), 1);
    assert!(items[0].is_group);
    assert_eq!(items[0].chapter_count, Some(2));
    assert_eq!(items[0].auto_group, Some(true));
    assert_eq!(items[0].parent_dir.as_deref(), Some("/manhua/海贼王"));
}

#[test]
fn group_archives_keeps_single_archive_as_plain() {
    let items = group_archives(vec![row(1, "海贼王", "/manhua/海贼王/01", None)]);
    assert_eq!(items.len(), 1);
    assert!(!items[0].is_group);
}

#[test]
fn group_archives_does_not_merge_different_parents() {
    let items = group_archives(vec![
        row(1, "海贼王", "/manhua/海贼王/01", None),
        row(2, "海贼王", "/other/海贼王/02", None),
    ]);
    assert_eq!(items.len(), 2);
    assert!(items.iter().all(|i| !i.is_group));
}

#[test]
fn group_archives_merges_case_insensitive_titles() {
    let items = group_archives(vec![
        row(1, "One Piece", "/manhua/one-piece/01", None),
        row(2, "one piece", "/manhua/one-piece/02", None),
    ]);
    assert_eq!(items.len(), 1);
    assert!(items[0].is_group);
    assert_eq!(items[0].chapter_count, Some(2));
}

#[test]
fn group_archives_merges_permanent_group() {
    let items = group_archives(vec![
        row(1, "海贼王", "/manhua/海贼王/01", Some(1)),
        row(2, "海贼王", "/manhua/海贼王/02", Some(1)),
    ]);
    assert_eq!(items.len(), 1);
    assert!(items[0].is_group);
    assert_eq!(items[0].chapter_count, Some(2));
    assert_eq!(items[0].auto_group, None);
    assert_eq!(items[0].archive.id, 1);
}

#[test]
fn stable_random_key_is_deterministic_and_seed_sensitive() {
    assert_eq!(stable_random_key(42, 7), stable_random_key(42, 7));
    assert_ne!(stable_random_key(42, 7), stable_random_key(42, 8));
    assert_ne!(stable_random_key(1, 7), stable_random_key(2, 7));

    let mut ids: Vec<i64> = (1..=50).collect();
    ids.sort_by_key(|id| stable_random_key(*id, 12345));
    let page1: Vec<i64> = ids[..20].to_vec();
    let page2: Vec<i64> = ids[20..40].to_vec();
    let page3: Vec<i64> = ids[40..].to_vec();
    let mut union: Vec<i64> = page1.iter().chain(&page2).chain(&page3).copied().collect();
    union.sort_unstable();
    union.dedup();
    assert_eq!(union, (1..=50).collect::<Vec<i64>>());
}

#[test]
fn every_row_lands_in_exactly_one_card() {
    let items = group_archives(vec![
        row(1, "A", "/m/a/01", None),
        row(2, "B", "/m/b/01", Some(9)),
        row(3, "a", "/m/a/02", None),
        row(4, "C", "/m/c/01", Some(9)),
        row(5, "D", "/m/d/01", None),
    ]);
    let total: i64 = items
        .iter()
        .map(|i| if i.is_group { i.chapter_count.unwrap() } else { 1 })
        .sum();
    assert_eq!(total, 5);
    assert_eq!(items.len(), 3);
}

#[test]
fn group_keys_distinguish_manual_and_automatic_groups() {
    assert_eq!(archive_group_key("/m/x/01", "X", Some(3)), "G3");
    let auto = auto_group_key("/m/x/01", "One Piece");
    assert_eq!(auto, "/m/x\0one piece");
    assert_eq!(archive_group_key("/m/x/01", "One Piece", None), format!("A{auto}"));
    assert_eq!(auto_group_key("/m/x/02", "ONE PIECE"), auto);
    assert_ne!(auto_group_key("/n/x/02", "One Piece"), auto);
}

#[test]
fn random_key_formula_exact_value() {
    // splitmix-style mixing of id * golden ratio ^ seed
    let mut h: u64 = (5i64 as u64).wrapping_mul(0x9E37_79B9_7F4A_7C15) ^ (9i64 as u64);
    h ^= h >> 30;
    h = h.wrapping_mul(0xBF58_476D_1CE4_E5B9);
    h ^= h >> 27;
    h = h.wrapping_mul(0x94D0_49BB_1331_11EB);
    h ^= h >> 31;
    assert_eq!(stable_random_key(5, 9), h);
}

#[test]
fn shuffle_by_seed_orders_by_key_and_keeps_rows() {
    let rows: Vec<ArchiveRow> = (1..=20).map(|i| row(i, "t", "/p", None)).collect();
    let out = shuffle_by_seed(rows, 77);
    assert_eq!(out.len(), 20);
    for w in out.windows(2) {
        assert!(stable_random_key(w[0].id, 77) <= stable_random_key(w[1].id, 77));
    }
    let mut ids: Vec<i64> = out.iter().map(|r| r.id).collect();
    ids.sort();
    assert_eq!(ids, (1..=20).collect::<Vec<i64>>());
}

#[test]
fn shuffle_by_seed_keeps_equal_keys_in_order_and_repeats() {
    let make = || vec![row(5, "first", "/a", None), row(3, "b", "/b", None), row(5, "second", "/c", None)];
    let out = shuffle_by_seed(make(), 11);
    let fives: Vec<&str> = out.iter().filter(|r| r.id == 5).map(|r| r.title.as_str()).collect();
    assert_eq!(fives, vec!["first", "second"]);
    let again = shuffle_by_seed(make(), 11);
    let ids: Vec<(i64, String)> = out.iter().map(|r| (r.id, r.title.clone())).collect();
    let ids_again: Vec<(i64, String)> = again.iter().map(|r| (r.id, r.title.clone())).collect();
    assert_eq!(ids, ids_again);
}

use manhuaviewer::listing::{
    added_tree, archive_tags, decorate_page, keep_in_folder, list_window, page_slice, plain_list_items,
    progress_for,
};
use manhuaviewer::models::{ArchiveRow, ListItem, TagRow};
use manhuaviewer::requests::{list_source, ArchiveQuery, ListSource};

fn row(id: i64, path: &str) -> ArchiveRow {
    ArchiveRow {
        id,
        title: "t".to_string(),
        path: path.to_string(),
        archive_type: "cbz".to_string(),
        page_count: 1,
        cover_image: None,
        file_size: 0,
        thumbnail_path: None,
        group_id: None,
        created_at: String::new(),
        updated_at: String::new(),
    }
}

fn tag(id: i64, name: &str) -> TagRow {
    TagRow { id, namespace: String::new(), name: name.to_string(), color: "#fff".to_string(), archive_count: 0 }
}

fn query() -> ArchiveQuery {
    ArchiveQuery {
        sort: None,
        order: None,
        page: None,
        limit: None,
        search: None,
        tag: None,
        category_id: None,
        read: None,
        group_id: None,
        seed: None,
        title: None,
        parent: None,
    }
}

#[test]
fn list_window_defaults_clamps_and_overflow() {
    assert_eq!(list_window(None, None), (0, 20));
    assert_eq!(list_window(Some(3), Some(10)), (20, 10));
    assert_eq!(list_window(Some(0), Some(0)), (0, 1));
    assert_eq!(list_window(Some(-4), Some(9999)), (0, 500));
    assert_eq!(list_window(Some(i64::MAX), Some(500)), (0, 500));
}

#[test]
fn page_slice_skips_and_takes() {
    let items = plain_list_items(&(1..=5).map(|i| row(i, "/a/x")).collect(), &vec![], &vec![]);
    let page = page_slice(items, 2, 2);
    assert_eq!(page.iter().map(|i| i.archive.id).collect::<Vec<_>>(), vec![3, 4]);
    let items = plain_list_items(&(1..=5).map(|i| row(i, "/a/x")).collect(), &vec![], &vec![]);
    assert!(page_slice(items, 9, 2).is_empty());
}

#[test]
fn keep_in_folder_compares_trimmed_parents() {
    let rows = vec![row(1, "/manhua/海贼王/01"), row(2, "/other/海贼王/02"), row(3, "/manhua/海贼王/03/")];
    let kept = keep_in_folder(rows, "/manhua/海贼王/");
    assert_eq!(kept.iter().map(|r| r.id).collect::<Vec<_>>(), vec![1, 3]);
    let kept = keep_in_folder(vec![row(4, "/"), row(5, "/x")], "/");
    assert_eq!(kept.iter().map(|r| r.id).collect::<Vec<_>>(), vec![5]);
}

#[test]
fn progress_and_tags_take_the_last_record() {
    let progress = vec![(1, 3), (2, 5), (1, 7)];
    assert_eq!(progress_for(&progress, 1), Some(7));
    assert_eq!(progress_for(&progress, 9), None);
    let tags = vec![(1, vec![tag(1, "a")]), (1, vec![tag(2, "b"), tag(3, "c")])];
    assert_eq!(archive_tags(&tags, 1).len(), 2);
    assert!(archive_tags(&tags, 2).is_empty());
}

#[test]
fn plain_cards_carry_progress_and_tags() {
    let items = plain_list_items(&vec![row(1, "/a"), row(2, "/b")], &vec![(2, 4)], &vec![(1, vec![tag(1, "x")])]);
    assert_eq!(items[0].read_page, None);
    assert_eq!(items[1].read_page, Some(4));
    assert_eq!(items[0].tags.as_ref().unwrap().len(), 1);
    assert!(items[1].tags.as_ref().unwrap().is_empty());
    assert!(!items[0].is_group);
}

#[test]
fn decorate_page_keeps_cards_and_known_progress() {
    let mut card = ListItem {
        archive: row(3, "/c"),
        is_group: true,
        chapter_count: Some(4),
        auto_group: Some(true),
        auto_key: Some("k".to_string()),
        parent_dir: Some("/".to_string()),
        read_page: Some(1),
        tags: None,
    };
    card.read_page = Some(1);
    let out = decorate_page(vec![card], &vec![(9, 9)], &vec![]);
    assert_eq!(out[0].read_page, Some(1));
    assert!(out[0].is_group);
    assert_eq!(out[0].chapter_count, Some(4));
    assert_eq!(out[0].tags.as_ref().map(|t| t.len()), Some(0));
    let out = decorate_page(out, &vec![(3, 8)], &vec![]);
    assert_eq!(out[0].read_page, Some(8));
}

#[test]
fn added_tree_buckets_by_year_and_month() {
    // (year, month, count) as the database groups them: years newest first, months ascending
    let rows = vec![("2026".to_string(), 3, 1), ("2026".to_string(), 7, 1), ("2025".to_string(), 12, 1)];
    let years = added_tree(&rows);
    assert_eq!(years.len(), 2);
    assert_eq!(years[0].year, 2026);
    assert_eq!(years[0].count, 2);
    assert_eq!(years[0].months, vec![(3, 1), (7, 1)]);
    assert_eq!(years[1].year, 2025);
    assert_eq!(years[1].count, 1);
}

#[test]
fn added_tree_empty_db_returns_empty_years() {
    assert!(added_tree(&vec![]).is_empty());
    assert!(added_tree(&vec![("bad".to_string(), 1, 4)]).is_empty());
}

#[test]
fn list_source_follows_the_query() {
    let mut q = query();
    q.title = Some("海贼王".to_string());
    q.parent = Some("".to_string());
    match list_source(&q) {
        ListSource::ByTitle { title, parent } => {
            assert_eq!(title, "海贼王");
            assert_eq!(parent, None);
        }
        _ => panic!("expected a title listing"),
    }
    let mut q = query();
    q.title = Some(String::new());
    q.group_id = Some(5);
    assert!(matches!(list_source(&q), ListSource::GroupChapters(5)));
    let mut q = query();
    q.sort = Some("random".to_string());
    q.page = Some(2);
    match list_source(&q) {
        ListSource::Paged { offset, limit, sort, order, shuffle_seed } => {
            assert_eq!((offset, limit), (20, 20));
            assert_eq!(sort, "random");
            assert_eq!(order, "desc");
            assert_eq!(shuffle_seed, Some(0));
        }
        _ => panic!("expected a page"),
    }
    match list_source(&query()) {
        ListSource::Paged { sort, shuffle_seed, .. } => {
            assert_eq!(sort, "updated");
            assert_eq!(shuffle_seed, None);
        }
        _ => panic!("expected a page"),
    }
}

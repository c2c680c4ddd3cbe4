use manhuaviewer::cbz::{
    cbz_file_name, cbz_output_dir, is_cbz_file, newest_cbz_first, pack_error_message, select_images, CbzFile,
    FolderEntry, PackError,
};
use manhuaviewer::cleanup::{legacy_leftovers, log_expired, orphan_dirs, DirEntry};
use manhuaviewer::extract::{
    audit_error_message, check_page_name, sevenz_extract_all_args, sevenz_extract_one_args, sevenz_list_args,
    unrar_extract_all_args, unrar_extract_one_args, unrar_list_args, AuditError, TreeAudit,
};
use manhuaviewer::http::FileTime;
use manhuaviewer::ip::{dotted_ipv4, dotted_list, lan_ipv4_order};
use manhuaviewer::models::PageRow;
use manhuaviewer::page_cache::{use_stored_list, PageListCache, PAGE_LIST_CACHE_MAX};
use manhuaviewer::requests::{
    check_assign_ids, check_open_file, no_pages_message, BatchAssignCategoryRequest, BatchDeleteRequest,
    BookmarkRequest, CoverError, CreateCategory, HistoryQuery, MergeRequest, OpenFileRequest,
    RemoteCoverRequest, SearchParams, SetCoverRequest, TagQuery, UpdateConfig, UpdateSettings,
};
use manhuaviewer::requests::{ConvertStartRequest, OpdsQuery, PackCbzRequest, ScanRequest, SyncStartRequest};
use manhuaviewer::sync::SyncRequestError;

fn entry(name: &str, is_file: bool) -> FolderEntry {
    FolderEntry { name: name.to_string(), is_file }
}

fn page(i: i64, path: &str) -> PageRow {
    PageRow { id: i, archive_id: 1, filename: path.to_string(), filepath: path.to_string(), sort_order: i }
}

fn ip(a: u8, b: u8, c: u8, d: u8) -> u32 {
    u32::from_be_bytes([a, b, c, d])
}

#[test]
fn test_pack_empty_folder() {
    let r = select_images(true, true, &vec![]);
    assert_eq!(r.clone().unwrap_err(), PackError::Empty);
    assert!(pack_error_message(r.unwrap_err(), "/tmp/x").contains("该文件夹为空"));
}

#[test]
fn test_pack_nonexistent_folder() {
    let r = select_images(false, false, &vec![]);
    assert_eq!(r.clone().unwrap_err(), PackError::Missing);
    assert!(pack_error_message(r.unwrap_err(), "/nonexistent/path").contains("路径不存在"));
}

#[test]
fn test_pack_folder_no_images() {
    let r = select_images(true, true, &vec![entry("readme.txt", true), entry("subdir", false)]);
    assert_eq!(r.clone().unwrap_err(), PackError::NoImages);
    assert!(pack_error_message(r.unwrap_err(), "/d").contains("未在当前目录找到有效的漫画图片"));
    assert_eq!(select_images(true, false, &vec![]).unwrap_err(), PackError::NotAFolder);
}

#[test]
fn test_pack_folder_success() {
    let r = select_images(
        true,
        true,
        &vec![entry("page01.jpg", true), entry("page02.png", true), entry("notes.txt", true)],
    )
    .unwrap();
    assert_eq!(r.len(), 2);
    assert!(cbz_file_name("/lib/My Book", 0).ends_with(".cbz"));
}

#[test]
fn test_pack_folder_duplicate_name() {
    let first = cbz_file_name("/lib/book", 0);
    let second = cbz_file_name("/lib/book", 1);
    assert_ne!(first, second);
    assert_eq!(first, "book.cbz");
    assert_eq!(second, "book_1.cbz");
}

#[test]
fn pack_selects_images_in_natural_order() {
    let r = select_images(
        true,
        true,
        &vec![entry("page10.jpg", true), entry("notes.txt", true), entry("page2.PNG", true), entry("d.jpg", false)],
    )
    .unwrap();
    assert_eq!(r, vec!["page2.PNG".to_string(), "page10.jpg".to_string()]);
}

#[test]
fn cbz_names_and_output_dir() {
    assert_eq!(cbz_file_name("/m/海贼王", 0), "海贼王.cbz");
    assert_eq!(cbz_file_name("/m/海贼王/", 2), "海贼王_2.cbz");
    assert_eq!(cbz_output_dir(Some("/out"), Some("/set")), Some("/out".to_string()));
    assert_eq!(cbz_output_dir(Some(""), Some("/set")), Some("/set".to_string()));
    assert_eq!(cbz_output_dir(None, Some("")), None);
    assert!(is_cbz_file("a.cbz", true));
    assert!(!is_cbz_file("a.CBZ", true));
    assert!(!is_cbz_file("a.cbz", false));
}

#[test]
fn cbz_listing_is_newest_first_and_stable() {
    let f = |n: &str, m: u64| CbzFile { name: n.to_string(), path: format!("/o/{n}"), size: 1, modified: m };
    let sorted = newest_cbz_first(&vec![f("a", 5), f("b", 9), f("c", 5)]);
    assert_eq!(sorted.iter().map(|x| x.name.as_str()).collect::<Vec<_>>(), vec!["b", "a", "c"]);
}

#[test]
fn open_file_request_checks() {
    let req = |p: &str| OpenFileRequest { file_path: p.to_string() };
    assert_eq!(check_open_file(&req("  /m/a.cbz ")).unwrap(), "/m/a.cbz");
    assert_eq!(check_open_file(&req("   ")).unwrap_err(), "无效的文件路径");
    assert_eq!(check_open_file(&req("/m/a\0.cbz")).unwrap_err(), "无效的文件路径");
    assert!(check_open_file(&req("m/a.cbz")).unwrap_err().starts_with("路径必须是绝对路径"));
    assert_eq!(no_pages_message("folder"), "文件夹中没有找到图片文件");
    assert_eq!(no_pages_message("zip"), "压缩包中没有图片");
}

#[test]
fn batch_and_single_request_checks() {
    assert!(BatchDeleteRequest { ids: vec![] }.check().is_err());
    assert!(BatchDeleteRequest { ids: vec![1] }.check().is_ok());
    assert_eq!(MergeRequest { archive_ids: vec![1] }.check().unwrap_err(), "需要至少选择 2 个档案进行合并");
    assert!(MergeRequest { archive_ids: vec![1, 2] }.check().is_ok());
    assert!(BookmarkRequest { page_index: -1 }.check().is_err());
    assert!(BookmarkRequest { page_index: 0 }.check().is_ok());
    assert!(BatchAssignCategoryRequest { archive_ids: vec![], category_id: 1 }.check().is_err());
    assert_eq!(check_assign_ids(Some(1), Some(2)).unwrap(), (1, 2));
    assert_eq!(check_assign_ids(Some(0), Some(2)).unwrap_err(), "Invalid archive_id");
    assert_eq!(check_assign_ids(Some(1), None).unwrap_err(), "Invalid category_id");
}

#[test]
fn cover_choice_by_page() {
    let pages = vec![page(0, "a.jpg"), page(1, "b.jpg")];
    assert_eq!(SetCoverRequest { page_index: None }.cover_choice(&pages).ok(), Some(None));
    assert_eq!(SetCoverRequest { page_index: Some(1) }.cover_choice(&pages).ok(), Some(Some("b.jpg".to_string())));
    match (SetCoverRequest { page_index: Some(2) }).cover_choice(&pages) {
        Err(CoverError::BadRequest(m)) => assert_eq!(m, "Page index 2 out of range (total: 2)"),
        _ => panic!("expected a refusal"),
    }
    match (SetCoverRequest { page_index: Some(-1) }).cover_choice(&pages) {
        Err(CoverError::BadRequest(m)) => assert_eq!(m, "page_index 不能为负"),
        _ => panic!("expected a refusal"),
    }
}

#[test]
fn remote_cover_urls() {
    let r = |u: Option<&str>| RemoteCoverRequest { url: u.map(|s| s.to_string()) }.target();
    assert_eq!(r(None), Ok(None));
    assert_eq!(r(Some("  ")), Ok(None));
    assert_eq!(r(Some(" https://img.example/c.jpg ")), Ok(Some("https://img.example/c.jpg".to_string())));
    assert!(r(Some("http://127.0.0.1/c.jpg")).is_err());
}

#[test]
fn category_and_tag_defaults() {
    let c = CreateCategory { name: "n".to_string(), color: None, pinned: None, search: None };
    assert_eq!(c.fields(), ("n".to_string(), "#4a86e8".to_string(), false, String::new()));
    let t = TagQuery { namespace: None, name: "x".to_string(), color: Some("#000".to_string()) };
    assert_eq!(t.fields(), (String::new(), "x".to_string(), "#000".to_string()));
}

#[test]
fn history_window_and_settings_checks() {
    assert_eq!(HistoryQuery { page: None, limit: None, search: None }.window(), (30, 0));
    assert_eq!(HistoryQuery { page: Some(3), limit: Some(1000), search: None }.window(), (200, 400));
    let s = UpdateSettings {
        settings: vec![("theme".to_string(), "dark".to_string()), ("server_bind".to_string(), "0.0.0.0".to_string())],
    };
    assert_eq!(s.check(false).unwrap_err(), "设置 server_bind 仅限本机修改");
    assert!(s.check(true).is_ok());
    assert_eq!(UpdateConfig { root_dir: "/m".to_string() }.settings(), vec![("root_dir".to_string(), "/m".to_string())]);
    assert_eq!(SearchParams { q: " 海贼王 ".to_string() }.term(), Ok("海贼王".to_string()));
    assert_eq!(SearchParams { q: " ".to_string() }.term(), Err("q 不能为空".to_string()));
}

#[test]
fn page_list_cache_remembers_by_mtime_and_evicts_when_full() {
    let mut cache = PageListCache::new();
    assert!(cache.get(1, 10).is_none());
    cache.put(1, 10, vec![page(0, "a.jpg")]);
    assert_eq!(cache.get(1, 10).map(|v| v.len()), Some(1));
    assert!(cache.get(1, 11).is_none());
    cache.put(1, 11, vec![page(0, "a.jpg"), page(1, "b.jpg")]);
    assert_eq!(cache.get(1, 11).map(|v| v.len()), Some(2));
    for id in 2..=(PAGE_LIST_CACHE_MAX as i64 + 1) {
        cache.put(id, 0, vec![]);
    }
    // one earlier list made room for the last one
    let kept = (1..=(PAGE_LIST_CACHE_MAX as i64 + 1))
        .filter(|id| cache.get(*id, if *id == 1 { 11 } else { 0 }).is_some())
        .count();
    assert_eq!(kept, PAGE_LIST_CACHE_MAX);
    assert!(cache.get(PAGE_LIST_CACHE_MAX as i64 + 1, 0).is_some());
    assert!(use_stored_list(true, Some(5), 5));
    assert!(!use_stored_list(true, Some(4), 5));
    assert!(!use_stored_list(false, Some(5), 5));
}

#[test]
fn prune_orphans_removes_stale_only() {
    let d = |n: &str| DirEntry { name: n.to_string(), is_dir: true };
    let orphans = orphan_dirs(&vec![d("1"), d("2"), d("3"), d("not-a-number")], &vec![2, 3]);
    assert_eq!(orphans, vec!["1".to_string()]);
}

#[test]
fn purge_legacy_cover_dir_keeps_only_cover() {
    let f = |n: &str| DirEntry { name: n.to_string(), is_dir: false };
    let victims = legacy_leftovers(&vec![f("cover.jpg"), f("0.jpg"), f("archive.mtime")]);
    assert_eq!(victims, vec!["0.jpg".to_string(), "archive.mtime".to_string()]);
}

#[test]
fn log_retention_is_seven_days() {
    let now = FileTime { secs: 1_700_000_000, nanos: 0 };
    assert!(!log_expired(now, FileTime { secs: now.secs - 7 * 86400, nanos: 0 }));
    assert!(log_expired(now, FileTime { secs: now.secs - 7 * 86400 - 1, nanos: 0 }));
    assert!(!log_expired(now, FileTime { secs: now.secs + 100, nanos: 0 }));
}

#[test]
fn extractor_command_lines() {
    assert_eq!(unrar_list_args("/a.rar"), vec!["lb", "/a.rar"]);
    assert_eq!(unrar_extract_all_args("/a.rar", "/c"), vec!["x", "-o+", "-y", "/a.rar", "/c"]);
    assert_eq!(unrar_extract_one_args("/a.rar", "p/1.jpg", "/t"), vec!["x", "/a.rar", "p/1.jpg", "/t", "-o+"]);
    assert_eq!(sevenz_list_args("/a.7z"), vec!["l", "/a.7z"]);
    assert_eq!(sevenz_extract_all_args("/a.7z", "/c"), vec!["x", "-y", "/a.7z", "-o/c"]);
    assert_eq!(sevenz_extract_one_args("/a.7z", "/t", "1.jpg"), vec!["x", "/a.7z", "-o/t", "1.jpg", "-y"]);
    assert_eq!(check_page_name("-o+").unwrap_err(), "Unsafe page name rejected: -o+");
    assert!(check_page_name("a/b.jpg").is_ok());
}

#[test]
fn extraction_audit_rejects_escapes_and_oversize_trees() {
    let mut audit = TreeAudit::new();
    assert!(audit.visit("/cache/7", "/cache/7/a.jpg", false, 10).is_ok());
    match audit.visit("/cache/7", "/etc/passwd", false, 10) {
        Err(e) => assert_eq!(audit_error_message(&e), "extracted entry escapes cache dir: /etc/passwd"),
        Ok(()) => panic!("escape accepted"),
    }
    assert_eq!(audit.checked, 1);
    assert_eq!(audit.total_bytes, 10);
    match audit.visit("/cache/7", "/cache/7/big", false, 34359738368) {
        Err(AuditError::TooLarge(t)) => assert_eq!(t, 34359738378),
        _ => panic!("oversize accepted"),
    }
}

#[test]
fn enumerate_lan_ipv4_filters_loopback_and_link_local() {
    let addrs = vec![
        ip(192, 168, 1, 5),
        ip(127, 0, 0, 1),
        ip(10, 0, 0, 2),
        ip(169, 254, 3, 4),
        ip(0, 0, 0, 0),
        ip(172, 16, 0, 9),
        ip(100, 64, 0, 1),
        ip(10, 0, 0, 2),
        ip(10, 0, 0, 1),
    ];
    let order = lan_ipv4_order(&addrs);
    assert_eq!(
        dotted_list(&order),
        vec!["10.0.0.1", "10.0.0.2", "172.16.0.9", "192.168.1.5", "100.64.0.1"]
    );
    assert_eq!(dotted_ipv4(ip(1, 2, 3, 4)), "1.2.3.4");
}

#[test]
fn scan_request_picks_root_and_depth() {
    let r = ScanRequest { path: None, depth: None };
    assert_eq!(r.target("/books".to_string(), Some("3")), Some(("/books".to_string(), 3)));
    assert_eq!(r.target(String::new(), Some("3")), None);
    let r = ScanRequest { path: Some("/other".to_string()), depth: Some(0) };
    assert_eq!(r.target("/books".to_string(), Some("3")), Some(("/other".to_string(), 0)));
    let r = ScanRequest { path: None, depth: None };
    assert_eq!(r.target("/books".to_string(), Some("deep")), Some(("/books".to_string(), 1)));
}

#[test]
fn pack_request_destination_prefers_the_request() {
    let r = PackCbzRequest { folder_path: "/f".to_string(), output_dir: Some("/out".to_string()) };
    assert_eq!(r.destination(Some("/setting")), Some("/out".to_string()));
    let r = PackCbzRequest { folder_path: "/f".to_string(), output_dir: Some(String::new()) };
    assert_eq!(r.destination(Some("/setting")), Some("/setting".to_string()));
    assert_eq!(r.destination(Some("")), None);
}

#[test]
fn convert_request_selection() {
    assert_eq!(ConvertStartRequest { ids: Some(vec![3, 4]) }.selection(), Some(vec![3, 4]));
    assert_eq!(ConvertStartRequest { ids: Some(vec![]) }.selection(), None);
    assert_eq!(ConvertStartRequest { ids: None }.selection(), None);
}

#[test]
fn sync_request_check_and_token() {
    let r = SyncStartRequest { url: " http://192.168.1.5:5002 ".to_string(), token: None, dir: " /data/sync ".to_string() };
    assert_eq!(r.check(), Ok(("http://192.168.1.5:5002".to_string(), "/data/sync".to_string())));
    assert_eq!(r.token_text(), "");
    let r = SyncStartRequest { url: "http://127.0.0.1:5002".to_string(), token: Some("t".to_string()), dir: "/d".to_string() };
    assert_eq!(r.check(), Err(SyncRequestError::BadTarget));
    assert_eq!(r.token_text(), "t");
    let r = SyncStartRequest { url: "http://192.168.1.5".to_string(), token: None, dir: "data".to_string() };
    assert_eq!(r.check(), Err(SyncRequestError::RelativeDirectory));
}

#[test]
fn opds_query_window() {
    assert_eq!(OpdsQuery { page: None, limit: None }.window(), (20, 0));
    assert_eq!(OpdsQuery { page: Some(3), limit: Some(10) }.window(), (10, 20));
}

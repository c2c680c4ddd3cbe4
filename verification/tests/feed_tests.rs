use manhuaviewer::convert::ConvertJob;
use manhuaviewer::http::{
    etag_for_cover, etag_for_page, etag_for_thumb, is_not_modified, last_modified_value, not_modified_headers,
    ok_headers, page_content_type, FileTime,
};
use manhuaviewer::json::{bool_member, get_member, int_member, str_member, JsonValue};
use manhuaviewer::models::{ArchiveRow, CategoryRow, HistoryRow, PageRow, TagRow};
use manhuaviewer::opds::{
    append_token_to_links, catalog_feed, categories_feed, category_archives_feed, opds_error_xml, pages_feed,
    recent_feed, tag_archives_feed, tags_feed, xml_escape,
};
use manhuaviewer::scan::ScanJob;
use manhuaviewer::sync::SyncJob;

fn archive(id: i64, title: &str) -> ArchiveRow {
    ArchiveRow {
        id,
        title: title.to_string(),
        path: format!("/m/{id}.cbz"),
        archive_type: "cbz".to_string(),
        page_count: 12,
        cover_image: None,
        file_size: 0,
        thumbnail_path: None,
        group_id: None,
        created_at: String::new(),
        updated_at: "2024-01-01".to_string(),
    }
}

#[test]
fn job_status_documents() {
    let mut job = SyncJob::new();
    job.set_plan(2, 1, 3);
    let doc = job.status();
    assert_eq!(bool_member(&doc, "running"), Some(false));
    assert_eq!(int_member(&doc, "total"), Some(3));
    assert_eq!(int_member(&doc, "new"), Some(2));
    assert_eq!(int_member(&doc, "changed"), Some(1));
    assert_eq!(int_member(&doc, "skipped"), Some(3));
    assert_eq!(str_member(&doc, "current"), Some(String::new()));
    assert!(matches!(get_member(&doc, "failed"), Some(JsonValue::Array(v)) if v.is_empty()));

    let doc = ScanJob::new().status();
    assert_eq!(int_member(&doc, "unchanged"), Some(0));
    assert_eq!(int_member(&doc, "removed"), Some(0));

    let doc = ConvertJob::new().status();
    assert_eq!(int_member(&doc, "converted"), Some(0));
    assert!(get_member(&doc, "errors").is_some());
}

#[test]
fn response_headers_and_validators() {
    let h = ok_headers("image/png".to_string(), "\"p-1-0-5\"".to_string(), Some("x".to_string()));
    assert_eq!(h[0], ("Content-Type".to_string(), "image/png".to_string()));
    assert_eq!(h[2].1, "private, max-age=3600, must-revalidate");
    assert_eq!(h[3], ("Last-Modified".to_string(), "x".to_string()));
    assert_eq!(not_modified_headers("e".to_string(), None).len(), 2);
    assert_eq!(etag_for_page(7, 2, Some(FileTime { secs: 99, nanos: 5 })), "\"p-7-2-99\"");
    assert_eq!(etag_for_page(7, 2, None), "\"p-7-2-0\"");
    assert_eq!(etag_for_cover(7, Some(FileTime { secs: 10, nanos: 0 }), Some("3.jpg")), "\"c-7-10-3.jpg\"");
    assert_eq!(etag_for_thumb(7, 10), "\"thumb-7-10\"");
}

#[test]
fn http_dates_come_from_chrono() {
    let t = FileTime { secs: 1_700_000_000, nanos: 0 };
    assert_eq!(last_modified_value(Some(t)), Some("Tue, 14 Nov 2023 22:13:20 GMT".to_string()));
    assert_eq!(last_modified_value(None), None);
    assert!(is_not_modified("\"e\"", None, Some("Tue, 14 Nov 2023 22:13:20 GMT"), Some(t)));
    assert!(!is_not_modified("\"e\"", None, Some("Tue, 14 Nov 2023 22:13:19 GMT"), Some(t)));
    assert!(is_not_modified("\"e\"", Some("\"e\""), None, None));
    assert!(!is_not_modified("\"e\"", None, Some("garbage"), Some(t)));
}

#[test]
fn content_types_come_from_mime_guess() {
    assert_eq!(page_content_type("a/b/01.png"), "image/png");
    assert_eq!(page_content_type("01.JPG"), "image/jpeg");
    assert_eq!(page_content_type("README"), "application/octet-stream");
}

#[test]
fn catalog_and_listing_feeds() {
    let feed = catalog_feed(&vec![archive(1, "A & B"), archive(2, "C")], "NOW");
    assert!(feed.starts_with("<?xml"));
    assert!(feed.contains("<id>manhuaviewer-catalog</id>"));
    assert!(feed.contains("<title>A &amp; B</title>"));
    assert!(feed.contains("href=\"/opds/archive/2\""));
    assert!(feed.contains("12 pages - cbz"));
    assert_eq!(feed.matches("<entry>").count(), 2);
    let feed = tag_archives_feed(4, "日常", &vec![archive(1, "A")], "NOW");
    assert!(feed.contains("<title>Archives with tag: 日常</title>"));
    assert!(feed.contains("<id>manhuaviewer-tag-4-archives</id>"));
    assert_eq!(category_archives_feed(5, "", &vec![], "NOW"), opds_error_xml("Category not found", "NOW"));
    assert!(category_archives_feed(5, "X", &vec![], "NOW").contains("<title>Category: X</title>"));
}

#[test]
fn recent_tags_categories_and_pages_feeds() {
    let h = HistoryRow { archive_id: 3, page_index: 4, total_pages: 10, updated_at: "T".to_string() };
    let feed = recent_feed(&vec![(h, "R".to_string())], "NOW");
    assert!(feed.contains("Page 5 of 10"));
    let tags = vec![
        TagRow { id: 1, namespace: "artist".to_string(), name: "x".to_string(), color: String::new(), archive_count: 0 },
        TagRow { id: 2, namespace: String::new(), name: "y".to_string(), color: String::new(), archive_count: 0 },
    ];
    let feed = tags_feed(&tags, "NOW");
    assert!(feed.contains("<title>artist:x</title>"));
    assert!(feed.contains("href=\"/opds/tag/2\""));
    let cats = vec![CategoryRow {
        id: 9,
        name: "C".to_string(),
        color: String::new(),
        pinned: false,
        search: String::new(),
        created_at: "D".to_string(),
        archive_count: 0,
    }];
    let feed = categories_feed(&cats, "NOW");
    assert!(feed.contains("<id>manhuaviewer-category-9</id>"));
    assert!(feed.contains("<updated>D</updated>"));
    let pages = vec![
        PageRow { id: 0, archive_id: 3, filename: "1.png".to_string(), filepath: "ch/1.png".to_string(), sort_order: 0 },
        PageRow { id: 1, archive_id: 3, filename: "2.webp".to_string(), filepath: "ch/2.webp".to_string(), sort_order: 1 },
    ];
    let feed = pages_feed(3, "T", &pages, "NOW");
    assert!(feed.contains("<title>T (2 pages)</title>"));
    assert!(feed.contains("href=\"/api/archives/3/pages/1\" type=\"image/webp\""));
    assert!(feed.contains("<title>1.png</title>"));
}

#[test]
fn escaped_feeds_keep_tokens_on_links() {
    assert_eq!(xml_escape("<a href='x'>&\""), "&lt;a href=&apos;x&apos;&gt;&amp;&quot;");
    let xml = catalog_feed(&vec![archive(1, "A")], "NOW");
    let with = append_token_to_links(&xml, "sec");
    assert!(with.contains("href=\"/opds/archive/1?token=sec\""));
    assert_eq!(append_token_to_links(&xml, ""), xml);
}

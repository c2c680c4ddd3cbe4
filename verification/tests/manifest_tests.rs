use manhuaviewer::manifest::{parse_manifest, ManifestError};

#[test]
fn manifest_reads_archives_and_metadata() {
    let body = r##"{
        "archives":[
            {"id":7,"title":"Alpha","archive_type":"zip","page_count":20,"file_size":1000,"file_mtime":1700000000,"extra":true},
            [8,"Beta","folder",3,0,-5]
        ],
        "tags":[{"namespace":"artist","name":"x","color":"#ff0000"},{"name":"y"}],
        "categories":[{"name":"Fav","color":"#00ff00","pinned":true,"search":"q"},{"name":"Other","pinned":"yes"}],
        "archive_tags":[{"title":"Alpha","namespace":"artist","name":"x"}],
        "archive_categories":[{"title":"Alpha","namespace":"ignored","name":"Fav"}],
        "history":[{"title":"Alpha","page_index":4,"total_pages":20},{"title":"Beta","page_index":1.5}]
    }"##;
    let m = parse_manifest(body).ok().unwrap();
    assert_eq!(m.archives.len(), 2);
    assert_eq!(m.archives[0].id, 7);
    assert_eq!(m.archives[0].title, "Alpha");
    assert_eq!(m.archives[0].archive_type, "zip");
    assert_eq!(m.archives[0].page_count, 20);
    assert_eq!(m.archives[0].file_size, 1000);
    assert_eq!(m.archives[0].file_mtime, 1700000000);
    assert_eq!(m.archives[1].id, 8);
    assert_eq!(m.archives[1].title, "Beta");
    assert_eq!(m.archives[1].file_mtime, -5);
    assert_eq!(m.tags.len(), 2);
    assert_eq!(m.tags[0].namespace.as_deref(), Some("artist"));
    assert_eq!(m.tags[0].color.as_deref(), Some("#ff0000"));
    assert_eq!(m.tags[1].namespace, None);
    assert_eq!(m.tags[1].name.as_deref(), Some("y"));
    assert_eq!(m.categories[0].pinned, Some(true));
    assert_eq!(m.categories[0].search.as_deref(), Some("q"));
    assert_eq!(m.categories[1].pinned, None);
    assert_eq!(m.archive_tags[0].namespace.as_deref(), Some("artist"));
    assert_eq!(m.archive_categories[0].namespace, None);
    assert_eq!(m.archive_categories[0].name.as_deref(), Some("Fav"));
    assert_eq!(m.history.len(), 2);
    assert_eq!(m.history[0].page_index, Some(4));
    assert_eq!(m.history[1].page_index, None);
    assert_eq!(m.history[1].total_pages, None);
}

#[test]
fn manifest_without_metadata_lists_reads_them_empty() {
    let m = parse_manifest(r#"{"archives":[],"tags":{"a":1}}"#).ok().unwrap();
    assert!(m.archives.is_empty());
    assert!(m.tags.is_empty());
    assert!(m.categories.is_empty());
    assert!(m.history.is_empty());
}

#[test]
fn manifest_refusals() {
    assert_eq!(parse_manifest("<html>").err(), Some(ManifestError::NotJson));
    assert_eq!(parse_manifest(r#"{"tags":[]}"#).err(), Some(ManifestError::BadArchives));
    assert_eq!(parse_manifest(r#"{"archives":null}"#).err(), Some(ManifestError::BadArchives));
    assert_eq!(parse_manifest(r#"[1,2]"#).err(), Some(ManifestError::BadArchives));
    // one entry without its modification time
    let body = r#"{"archives":[{"id":1,"title":"A","archive_type":"zip","page_count":1,"file_size":1}]}"#;
    assert_eq!(parse_manifest(body).err(), Some(ManifestError::BadArchives));
    // a size that is not an integer
    let body = r#"{"archives":[{"id":1,"title":"A","archive_type":"zip","page_count":1,"file_size":1.5,"file_mtime":0}]}"#;
    assert_eq!(parse_manifest(body).err(), Some(ManifestError::BadArchives));
    // a list entry with a field too many
    assert_eq!(parse_manifest(r#"{"archives":[[1,"A","zip",1,1,0,9]]}"#).err(), Some(ManifestError::BadArchives));
    // an id beyond i64
    let body = r#"{"archives":[{"id":9223372036854775808,"title":"A","archive_type":"zip","page_count":1,"file_size":1,"file_mtime":0}]}"#;
    assert_eq!(parse_manifest(body).err(), Some(ManifestError::BadArchives));
}

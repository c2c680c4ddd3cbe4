use std::cmp::Ordering;

use std::cell::Cell;

use manhuaviewer::archive::{extract_marker_text, read_extract_marker, resolve_tool_cached, ToolCache};
use manhuaviewer::backup::{
    backup_dir, backup_file_name, backup_listing, due, interval_hours, is_backup_name, keep_count,
    newest_backup_mtime, rotation_victims,
};
use manhuaviewer::media::{is_safe_page_name, magic_matches};
use manhuaviewer::metadata::{percent_encode, search_term};
use manhuaviewer::paths::derive_title;
use manhuaviewer::versions::{compare_versions, strip_v, update_available};

#[test]
fn compare_versions_basic() {
    assert_eq!(compare_versions("3.3.9", "3.3.10"), Ordering::Less);
    assert_eq!(compare_versions("3.4.0", "3.3.10"), Ordering::Greater);
    assert_eq!(compare_versions("3.3.9", "3.3.9"), Ordering::Equal);
    assert_eq!(compare_versions("v3.3.9", "3.3.9"), Ordering::Equal);
    assert_eq!(compare_versions("3.10", "3.9.1"), Ordering::Greater);
}

#[test]
fn version_order_is_antisymmetric_on_examples() {
    for (a, b) in [("1.2", "1.10"), ("v2", "1.9.9"), ("3.0", "3"), ("x.1", "0.1")] {
        assert_eq!(compare_versions(a, b), compare_versions(b, a).reverse());
    }
    assert_eq!(compare_versions("3.0", "3"), Ordering::Equal);
}

#[test]
fn trailing_zero_components_compare_equal() {
    for v in ["3.4", "v2", "1.2.3", "", "x", "3.4-rc.1"] {
        assert_eq!(compare_versions(v, &format!("{}.0", v)), Ordering::Equal, "{v}");
        assert_eq!(compare_versions(&format!("{}.0", v), v), Ordering::Equal, "{v}");
    }
}

#[test]
fn pre_release_and_build_suffixes_are_ignored() {
    assert_eq!(compare_versions("3.4.0-rc.1", "3.4.0"), Ordering::Equal);
    assert_eq!(compare_versions("3.4.0", "3.4.0-rc.1"), Ordering::Equal);
    assert_eq!(compare_versions("v3.4.0+build.7", "3.4.0"), Ordering::Equal);
    assert_eq!(compare_versions("3.4.1-beta.9", "3.4.0"), Ordering::Greater);
    assert!(!update_available("3.4.0-rc.2", "3.4.0"));
}

#[test]
fn update_check_and_tag_prefix() {
    assert!(update_available("v3.4.0", "3.3.10"));
    assert!(!update_available("3.3.10", "3.3.10"));
    assert_eq!(strip_v("vv1.2"), "1.2");
    assert_eq!(strip_v("1.2"), "1.2");
}

#[test]
fn magic_matches_archive_type() {
    assert!(magic_matches("zip", b"PK\x03\x04rest"));
    assert!(magic_matches("cbz", b"PK\x05\x06"));
    assert!(magic_matches("rar", b"Rar!\x1a\x07\x00"));
    assert!(magic_matches("cbr", b"Rar!\x1a\x07\x01\x00"));
    assert!(magic_matches("7z", b"7z\xBC\xAF\x27\x1C"));
    assert!(magic_matches("zip", b"MZ\x90\x00"));
    assert!(!magic_matches("zip", b"SQLite format 3\x00"));
    assert!(!magic_matches("cbz", b"-----BEGIN RSA-----"));
    assert!(!magic_matches("rar", b""));
    assert!(!magic_matches("7z", b"PK\x03\x04"));
    assert!(!magic_matches("folder", b"PK\x03\x04"));
}

#[test]
fn extract_marker_roundtrip_and_page_name_safety() {
    let text = extract_marker_text((1_700_000_000, 42));
    assert_eq!(read_extract_marker(&text), Some((1_700_000_000, 42)));

    assert!(is_safe_page_name("folder/img01.jpg"));
    assert!(is_safe_page_name("img01.jpg"));
    assert!(!is_safe_page_name("../evil.jpg"));
    assert!(!is_safe_page_name("/etc/passwd"));
    assert!(!is_safe_page_name("a/../../b.jpg"));
    assert!(!is_safe_page_name("..\\evil.jpg"));
    assert!(!is_safe_page_name("folder\\..\\evil.jpg"));
    assert!(!is_safe_page_name("a\\b.jpg"));
    assert!(!is_safe_page_name(""));
    assert!(!is_safe_page_name("-o+"));
    assert!(!is_safe_page_name("-y.jpg"));
    assert!(!is_safe_page_name("/abs.jpg"));
    assert!(is_safe_page_name("folder/-x.jpg"));
    assert!(is_safe_page_name("a-b.jpg"));
}

#[test]
fn extract_marker_text_format_and_garbage() {
    assert_eq!(extract_marker_text((-5, 7)), "-5:7");
    assert_eq!(read_extract_marker(" 12:34\n"), Some((12, 34)));
    assert_eq!(read_extract_marker("12"), None);
    assert_eq!(read_extract_marker("a:1"), None);
}

#[test]
fn backup_due_logic() {
    let now = 1_700_000_000i64;
    assert!(!due(Some(now - 100), now, 0));
    assert!(due(None, now, 24));
    assert!(!due(Some(now - 3600 * 10), now, 24));
    assert!(due(Some(now - 3600 * 24), now, 24));
    assert!(due(Some(now - 3600 * 30), now, 24));
}

#[test]
fn backup_settings_and_names() {
    assert_eq!(keep_count(None), 10);
    assert_eq!(keep_count(Some("3")), 3);
    assert_eq!(keep_count(Some("0")), 1);
    assert_eq!(keep_count(Some("many")), 10);
    assert_eq!(interval_hours(Some("24")), 24);
    assert_eq!(interval_hours(Some("x")), 0);
    assert_eq!(interval_hours(None), 0);
    assert_eq!(backup_dir("/data"), "/data/backups");
    let name = backup_file_name("20240101-000000");
    assert_eq!(name, "manhuaviewer-backup-20240101-000000.json");
    assert!(is_backup_name(&name));
    assert!(!is_backup_name("notes.txt"));
}

#[test]
fn backup_rotation_keeps_the_newest() {
    let names: Vec<String> = vec![
        "manhuaviewer-backup-3.json".into(),
        "other.json".into(),
        "manhuaviewer-backup-1.json".into(),
        "manhuaviewer-backup-2.json".into(),
    ];
    let listing = backup_listing(&names);
    assert_eq!(
        listing,
        vec![
            "manhuaviewer-backup-1.json".to_string(),
            "manhuaviewer-backup-2.json".to_string(),
            "manhuaviewer-backup-3.json".to_string(),
        ]
    );
    assert_eq!(rotation_victims(&listing, 2), vec!["manhuaviewer-backup-1.json".to_string()]);
    assert!(rotation_victims(&listing, 5).is_empty());
    assert_eq!(newest_backup_mtime(&vec![5, 9, 2]), Some(9));
    assert_eq!(newest_backup_mtime(&vec![]), None);
}

#[test]
fn percent_encode_keeps_safe_chars() {
    assert_eq!(percent_encode("海贼王"), "%E6%B5%B7%E8%B4%BC%E7%8E%8B");
    assert_eq!(percent_encode("one piece"), "one%20piece");
}

#[test]
fn percent_encode_output_is_url_safe() {
    let out = percent_encode("a-b_c.d~e/f?g=h&é");
    assert_eq!(out, "a-b_c.d~e%2Ff%3Fg%3Dh%26%C3%A9");
    assert!(out.chars().all(|c| c.is_ascii_alphanumeric() || "-_.~%".contains(c)));
}

#[test]
fn search_term_trims() {
    assert_eq!(search_term("  海贼王 "), Some("海贼王".to_string()));
    assert_eq!(search_term("   "), None);
}

#[test]
fn test_derive_title_level_1() {
    assert_eq!(derive_title("/path/to/manhua01/第一章", 1), "第一章");
}

#[test]
fn test_derive_title_level_2() {
    assert_eq!(derive_title("/path/to/manhua01/第一章", 2), "manhua01");
}

#[test]
fn test_derive_title_level_3() {
    assert_eq!(derive_title("/path/to/manhua01/第一章", 3), "to");
}

#[test]
fn test_derive_title_strips_extension() {
    assert_eq!(derive_title("/path/manhua01.cbz", 1), "manhua01");
}

#[test]
fn test_derive_title_deep_level_keeps_dir_name() {
    assert_eq!(derive_title("/path/manhua01.cbz", 2), "path");
}

#[test]
fn test_derive_title_exceeds_depth_falls_back() {
    assert_eq!(derive_title("/a/第一章", 3), "第一章");
}

#[test]
fn test_derive_title_single_component() {
    assert_eq!(derive_title("/第一章", 1), "第一章");
}

#[test]
fn test_derive_title_empty_path() {
    assert_eq!(derive_title("", 1), "");
}

#[test]
fn resolve_tool_cached_is_deterministic_for_missing_tool() {
    let mut cache = ToolCache::new();
    let probes = Cell::new(0);
    let name = "manga-viewer-no-such-tool-xyz";
    let probe = || {
        probes.set(probes.get() + 1);
        None
    };
    assert!(resolve_tool_cached(&mut cache, name, &probe).is_none());
    assert!(resolve_tool_cached(&mut cache, name, &probe).is_none());
    assert_eq!(probes.get(), 1);
}

#[test]
fn resolve_tool_cached_finds_real_tool_on_path() {
    let mut cache = ToolCache::new();
    let probes = Cell::new(0);
    let probe = || {
        probes.set(probes.get() + 1);
        Some("/usr/bin/true".to_string())
    };
    let a = resolve_tool_cached(&mut cache, "true", &probe);
    let b = resolve_tool_cached(&mut cache, "true", &probe);
    assert_eq!(a, b);
    assert!(a.is_some());
    assert_eq!(probes.get(), 1);
    assert_eq!(cache.lookup("true"), Some(Some("/usr/bin/true".to_string())));
    assert_eq!(cache.lookup("unrar"), None);
}

#[test]
fn derive_title_of_a_path_without_components_is_empty_at_any_level() {
    assert_eq!(derive_title("/", 0), "");
    assert_eq!(derive_title("", 0), "");
    assert_eq!(derive_title("/", 2), "");
}

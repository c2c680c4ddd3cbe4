use manhuaviewer::sync::{
    base_url, build_plan, check_sync_request, extension_for, plan_counts, plan_titles, source_mtime,
    sync_filename, validate_sync_url, ItemOutcome, LocalProbe, ManifestArchive, PlanStatus,
    SyncJob, SyncRequestError,
};

fn entry(id: i64, title: &str, archive_type: &str, page_count: i64, file_size: i64) -> ManifestArchive {
    ManifestArchive {
        id,
        title: title.into(),
        archive_type: archive_type.into(),
        page_count,
        file_size,
        file_mtime: 0,
    }
}

#[test]
fn sync_url_rejects_loopback_and_link_local() {
    assert!(!validate_sync_url("http://127.0.0.1:5002"));
    assert!(!validate_sync_url("http://localhost:5002"));
    assert!(!validate_sync_url("http://0.0.0.0:5002"));
    assert!(!validate_sync_url("http://169.254.1.1:5002"));
    assert!(!validate_sync_url("http://[::1]:5002"));
    assert!(!validate_sync_url("ftp://192.168.1.2"));
}

#[test]
fn sync_url_accepts_lan_private_ranges() {
    assert!(validate_sync_url("http://192.168.31.52:5002"));
    assert!(validate_sync_url("http://10.0.0.1:5002/"));
    assert!(validate_sync_url("http://172.16.0.9:5002"));
}

#[test]
fn sync_filename_sanitizes_and_avoids_windows_reserved_names() {
    assert_eq!(sync_filename("海贼王", "cbz", 0), "海贼王.cbz");
    assert_eq!(sync_filename("CON", "cbz", 0), "_CON.cbz");
    assert_eq!(sync_filename("NUL", "folder", 0), "_NUL.cbz");
    assert_eq!(sync_filename("a/b:c*?", "rar", 0), "a_b_c__.rar");
    assert_eq!(sync_filename("海贼王", "cbz", 0), "海贼王.cbz");
    assert_eq!(sync_filename("海贼王", "cbz", 1), "海贼王_2.cbz");
    assert_eq!(sync_filename("海贼王", "cbz", 2), "海贼王_3.cbz");
}

#[test]
fn build_plan_classifies_new_changed_up_to_date() {
    // On disk: 已同步.cbz (100 bytes) and 变化.cbz (10 bytes); no library rows.
    let entries = vec![
        entry(1, "新增", "cbz", 1, 50),
        entry(2, "已同步", "cbz", 1, 100),
        entry(3, "变化", "cbz", 1, 200),
    ];
    let probes = vec![
        LocalProbe { is_file: false, size: None, page_count: None },
        LocalProbe { is_file: true, size: Some(100), page_count: None },
        LocalProbe { is_file: true, size: Some(10), page_count: None },
    ];
    let plan = build_plan(&entries, &probes);
    assert_eq!(plan.len(), 3);
    assert_eq!(plan[0].status, PlanStatus::New);
    assert_eq!(plan[1].status, PlanStatus::UpToDate);
    assert_eq!(plan[2].status, PlanStatus::Changed);
    assert_eq!(plan[1].filename, "已同步.cbz");
    assert_eq!(plan_counts(&plan), (1, 1, 1));
}

#[test]
fn build_plan_names_repeated_titles_apart_and_compares_folders_by_pages() {
    let entries = vec![
        entry(1, "X", "folder", 12, 0),
        entry(2, "X", "zip", 3, 7),
        entry(3, "X", "folder", 5, 0),
    ];
    let probes = vec![
        LocalProbe { is_file: true, size: Some(999), page_count: Some(12) },
        LocalProbe { is_file: true, size: Some(7), page_count: None },
        LocalProbe { is_file: true, size: Some(1), page_count: Some(4) },
    ];
    let plan = build_plan(&entries, &probes);
    assert_eq!(plan[0].filename, "X.cbz");
    assert_eq!(plan[1].filename, "X_2.zip");
    assert_eq!(plan[2].filename, "X_3.cbz");
    assert_eq!(plan[0].status, PlanStatus::UpToDate);
    assert_eq!(plan[1].status, PlanStatus::UpToDate);
    assert_eq!(plan[2].status, PlanStatus::Changed);
}

#[test]
fn extension_follows_archive_type() {
    assert_eq!(extension_for("folder"), "cbz");
    assert_eq!(extension_for("rar"), "rar");
    assert_eq!(extension_for("7z"), "7z");
}

#[test]
fn base_url_drops_trailing_slashes() {
    assert_eq!(base_url("http://10.0.0.1:5002//"), "http://10.0.0.1:5002");
    assert_eq!(base_url("http://10.0.0.1:5002"), "http://10.0.0.1:5002");
}

#[test]
fn sync_request_errors() {
    assert_eq!(check_sync_request("http://127.0.0.1", "/d").unwrap_err(), SyncRequestError::BadTarget);
    assert_eq!(check_sync_request("http://10.0.0.1", "  ").unwrap_err(), SyncRequestError::BadTarget);
    assert_eq!(
        check_sync_request("http://10.0.0.1", "books").unwrap_err(),
        SyncRequestError::RelativeDirectory
    );
    assert_eq!(
        check_sync_request(" http://10.0.0.1:5002/ ", " /d ").unwrap(),
        ("http://10.0.0.1:5002/".to_string(), "/d".to_string())
    );
}

#[test]
fn source_mtime_prefers_the_header() {
    assert_eq!(source_mtime(Some("1700000000"), 5), Some(1700000000));
    assert_eq!(source_mtime(None, 5), Some(5));
    assert_eq!(source_mtime(Some("junk"), 5), Some(5));
    assert_eq!(source_mtime(Some("-3"), 0), None);
}

#[test]
fn sync_job_counts_outcomes() {
    let mut job = SyncJob::new();
    job.set_plan(2, 1, 4);
    assert_eq!(job.total, 3);
    assert!(job.record_outcome("a", ItemOutcome::Registered(7)));
    assert!(job.record_outcome("b", ItemOutcome::Failed("boom".to_string())));
    assert_eq!(job.done, 2);
    assert_eq!(job.failed, vec!["b: boom".to_string()]);
    assert!(!job.record_outcome("c", ItemOutcome::Cancelled));
    assert_eq!(job.done, 2);
    assert_eq!(job.current, "已取消，下次同步将只补未完成部分");
    job.finish();
    assert!(!job.running);
}

#[test]
fn plan_preview_lists_titles_by_status() {
    let entries = vec![
        entry(1, "新增", "cbz", 1, 50),
        entry(2, "已同步", "cbz", 1, 100),
        entry(3, "变化", "cbz", 1, 200),
        entry(4, "又一本", "zip", 1, 7),
    ];
    let probes = vec![
        LocalProbe { is_file: false, size: None, page_count: None },
        LocalProbe { is_file: true, size: Some(100), page_count: None },
        LocalProbe { is_file: true, size: Some(10), page_count: None },
        LocalProbe { is_file: false, size: None, page_count: None },
    ];
    let (new, changed, up_to_date) = plan_titles(&build_plan(&entries, &probes));
    assert_eq!(new, vec!["新增".to_string(), "又一本".to_string()]);
    assert_eq!(changed, vec!["变化".to_string()]);
    assert_eq!(up_to_date, vec!["已同步".to_string()]);
}

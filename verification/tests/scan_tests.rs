use manhuaviewer::scan::{lookup_meta, orphan_action, OrphanAction, ScanCandidate, ScanJob, ScanMeta};

fn candidate(path: &str) -> ScanCandidate {
    ScanCandidate {
        path: path.to_string(),
        archive_type: "folder".to_string(),
        file_size: 0,
        file_mtime: 1_700_000_000,
        is_file: false,
    }
}

#[test]
fn rescan_skips_unchanged_archives() {
    let root = "/lib";
    let cand = candidate("/lib/book");

    let mut first = ScanJob::new();
    let mut pending = first.scan_step(root, &cand, None).expect("a new archive is pending");
    first.record_counted(&mut pending, 1);
    assert_eq!(first.added, 1);
    assert_eq!(pending.title, "book");
    assert_eq!(pending.page_count, 1);

    let meta = vec![ScanMeta {
        path: pending.path.clone(),
        page_count: pending.page_count,
        file_size: pending.file_size,
        file_mtime: pending.file_mtime,
    }];
    let mut second = ScanJob::new();
    let existing = lookup_meta(&meta, &cand.path);
    assert!(second.scan_step(root, &cand, existing).is_none());
    assert_eq!(second.unchanged, 1);
    assert_eq!(second.added, 0);
    assert_eq!(second.updated, 0);
    assert_eq!(second.done, 1);
    assert_eq!(orphan_action(&vec![cand.path.clone()], &cand.path, true), OrphanAction::Keep);
}

#[test]
fn rescan_recounts_changed_and_uncounted_archives() {
    let cand = candidate("/lib/book");
    let mut job = ScanJob::new();
    assert!(job.scan_step("/lib", &cand, Some((0, 0, 1_700_000_000))).is_some());
    assert!(job.scan_step("/lib", &cand, Some((3, 0, 1))).is_some());
    assert_eq!(job.updated, 2);
    assert_eq!(job.unchanged, 0);
    assert_eq!(job.done, 0);
}

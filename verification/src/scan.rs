//! Incremental library scans: which discovered archives are new, changed
//! or unchanged, the titles of new entries, which library rows are
//! orphans, and the scan job's progress.

use vstd::prelude::*;
use crate::json::{count_model, count_value, model, object, object_of, string_array, text_array, JsonModel, JsonValue};
use crate::paths::{
    components, components_exec, file_name_chars, file_stem, is_normal, stem_chars, stem_of, within,
    path_is_within,
};
use crate::text::{chars_eq, chars_of, dec, parse_i64, parse_i64_spec, push_str, push_u64, seqs_of, string_from_chars};

verus! {

// ---------------------------------------------------------------------------
// Titles of new entries
// ---------------------------------------------------------------------------

/// The first component of `path` below `root` (of the whole path when it
/// does not lie below `root`), if there is one.
pub open spec fn first_below(root: Seq<char>, path: Seq<char>) -> Option<Seq<char>> {
    let cp = components(path);
    let k = if within(root, path) {
        components(root).len() as int
    } else {
        0
    };
    if k < cp.len() {
        Some(cp[k])
    } else {
        None
    }
}

/// The title a scan gives a new archive: the first component below the
/// library root (the name of the top-level folder or file it sits in),
/// without extension when the archive itself is a file; when there is no
/// such normal component, the archive's own file stem.
pub open spec fn scan_title_of(root: Seq<char>, path: Seq<char>, is_file: bool) -> Seq<char> {
    match first_below(root, path) {
        Some(c) if is_normal(c) => if is_file {
            stem_of(c)
        } else {
            c
        },
        _ => match file_stem(path) {
            Some(s) => s,
            None => Seq::<char>::empty(),
        },
    }
}

/// The title of a newly scanned archive (see [`scan_title_of`]).
pub fn scan_title(root: &str, path: &str, is_file: bool) -> (r: String)
    ensures
        r@ == scan_title_of(root@, path@, is_file),
{
    let pv = chars_of(path);
    let pc = components_exec(pv.as_slice());
    let inside = path_is_within(root, path);
    let k: usize = if inside {
        let rc = components_exec(chars_of(root).as_slice());
        rc.len()
    } else {
        0
    };
    if k < pc.len() {
        let c = &pc[k];
        assert(seqs_of(pc@)[k as int] == c@);
        let root_m = ['/'];
        let d = ['.'];
        let dd = ['.', '.'];
        assert(root_m@ =~= crate::paths::root_marker());
        assert(d@ =~= crate::paths::dot());
        assert(dd@ =~= crate::paths::dot_dot());
        let normal = !chars_eq(c.as_slice(), &root_m) && !chars_eq(c.as_slice(), &d) && !chars_eq(
            c.as_slice(),
            &dd,
        );
        if normal {
            if is_file {
                let s = stem_chars(c.as_slice());
                return string_from_chars(s.as_slice());
            } else {
                return string_from_chars(c.as_slice());
            }
        }
    }
    match file_name_chars(pv.as_slice()) {
        Some(n) => {
            let s = stem_chars(n.as_slice());
            string_from_chars(s.as_slice())
        },
        None => String::new(),
    }
}

// ---------------------------------------------------------------------------
// Classification
// ---------------------------------------------------------------------------

/// What the library holds for a path: page count, size and modification time.
pub struct ScanMeta {
    pub path: String,
    pub page_count: i64,
    pub file_size: i64,
    pub file_mtime: i64,
}

/// The library's record for `path`: the last row with that path (the one a
/// map built from the rows keeps).
pub open spec fn meta_for(meta: Seq<ScanMeta>, path: Seq<char>) -> Option<(i64, i64, i64)>
    decreases meta.len(),
{
    if meta.len() == 0 {
        None
    } else if meta.last().path@ == path {
        Some((meta.last().page_count, meta.last().file_size, meta.last().file_mtime))
    } else {
        meta_for(meta.drop_last(), path)
    }
}

/// Looks up the library's record for a path (see [`meta_for`]).
pub fn lookup_meta(meta: &Vec<ScanMeta>, path: &str) -> (r: Option<(i64, i64, i64)>)
    ensures
        r == meta_for(meta@, path@),
{
    let p = chars_of(path);
    let mut k: usize = meta.len();
    assert(meta@.take(k as int) =~= meta@);
    while k > 0
        invariant
            k <= meta@.len(),
            p@ == path@,
            meta_for(meta@, path@) == meta_for(meta@.take(k as int), path@),
        decreases k,
    {
        let q = chars_of(meta[k - 1].path.as_str());
        if chars_eq(q.as_slice(), p.as_slice()) {
            return Some((meta[k - 1].page_count, meta[k - 1].file_size, meta[k - 1].file_mtime));
        }
        assert(meta@.take(k as int).drop_last() =~= meta@.take(k as int - 1));
        k = k - 1;
    }
    None
}

/// How a discovered archive compares with the library.
#[derive(Clone, Copy, PartialEq, Eq, Structural, Debug)]
pub enum ScanClass {
    /// Same size and modification time, and pages already counted: skipped.
    Unchanged,
    /// In the library but changed (or never counted): re-counted.
    Updated,
    /// Not in the library yet.
    Added,
}

/// The class of a discovered archive given the library's record
/// `(page_count, file_size, file_mtime)` for its path.
pub open spec fn class_of(existing: Option<(i64, i64, i64)>, file_size: i64, file_mtime: i64) -> ScanClass {
    match existing {
        Some((pc, fs, fm)) => if fm == file_mtime && fs == file_size && pc > 0 {
            ScanClass::Unchanged
        } else {
            ScanClass::Updated
        },
        None => ScanClass::Added,
    }
}

/// Classifies a discovered archive (see [`class_of`]).
pub fn classify(existing: Option<(i64, i64, i64)>, file_size: i64, file_mtime: i64) -> (r: ScanClass)
    ensures
        r == class_of(existing, file_size, file_mtime),
{
    match existing {
        Some((pc, fs, fm)) => if fm == file_mtime && fs == file_size && pc > 0 {
            ScanClass::Unchanged
        } else {
            ScanClass::Updated
        },
        None => ScanClass::Added,
    }
}

/// An archive found on disk, with what the file system says of it.
pub struct ScanCandidate {
    pub path: String,
    pub archive_type: String,
    pub file_size: i64,
    pub file_mtime: i64,
    pub is_file: bool,
}

/// An archive to (re)count and write to the library.
pub struct Pending {
    pub title: String,
    pub path: String,
    pub archive_type: String,
    pub file_size: i64,
    pub file_mtime: i64,
    /// 0 until counted; stays 0 when counting fails (the next scan retries).
    pub page_count: i64,
}

/// The observable progress of a scan.
pub struct ScanJob {
    pub running: bool,
    pub cancel: bool,
    /// Archives discovered.
    pub total: usize,
    /// Archives handled: unchanged ones at once, the others once counted.
    pub done: usize,
    pub added: usize,
    pub updated: usize,
    pub unchanged: usize,
    /// Library rows removed because their file is gone.
    pub removed: usize,
    /// Library rows kept although not discovered, their file still existing.
    pub skipped: usize,
    /// What is being worked on.
    pub current: String,
}

/// `n + 1`, wrapping to 0 past the largest value, as an atomic counter does.
pub open spec fn bump(n: usize) -> usize {
    if n == usize::MAX {
        0
    } else {
        (n + 1) as usize
    }
}

fn bumped(n: usize) -> (r: usize)
    ensures
        r == bump(n),
{
    if n == usize::MAX {
        0
    } else {
        n + 1
    }
}

/// The job after recording one discovered archive of the given class.
pub open spec fn step_state(j: ScanJob, c: ScanClass) -> ScanJob {
    match c {
        ScanClass::Unchanged => ScanJob { unchanged: bump(j.unchanged), done: bump(j.done), ..j },
        ScanClass::Updated => ScanJob { updated: bump(j.updated), ..j },
        ScanClass::Added => ScanJob { added: bump(j.added), ..j },
    }
}

impl ScanJob {
    /// The job's status document (see [`scan_status_model`]).
    pub fn status(&self) -> (r: JsonValue)
        ensures
            model(r) == scan_status_model(*self),
    {
        let mut m: Vec<(String, JsonValue)> = Vec::new();
        m.push((String::from_str("running"), JsonValue::Bool(self.running)));
        m.push((String::from_str("total"), count_value(self.total)));
        m.push((String::from_str("done"), count_value(self.done)));
        m.push((String::from_str("added"), count_value(self.added)));
        m.push((String::from_str("updated"), count_value(self.updated)));
        m.push((String::from_str("unchanged"), count_value(self.unchanged)));
        m.push((String::from_str("removed"), count_value(self.removed)));
        m.push((String::from_str("skipped"), count_value(self.skipped)));
        m.push((String::from_str("current"), JsonValue::Str(self.current.clone())));
        let ghost mv = m@.map_values(|e: (String, JsonValue)| (e.0@, model(e.1)));
        assert(mv =~= match scan_status_model(*self) {
            JsonModel::Object(x) => x,
            _ => Seq::<(Seq<char>, JsonModel)>::empty(),
        });
        object(m)
    }

    /// A scan that has not started.
    pub fn new() -> (r: Self)
        ensures
            !r.running && !r.cancel,
            r.total == 0 && r.done == 0 && r.added == 0 && r.updated == 0 && r.unchanged == 0
                && r.removed == 0 && r.skipped == 0,
            r.current@.len() == 0,
    {
        ScanJob {
            running: false,
            cancel: false,
            total: 0,
            done: 0,
            added: 0,
            updated: 0,
            unchanged: 0,
            removed: 0,
            skipped: 0,
            current: String::new(),
        }
    }

    /// Records one discovered archive and says whether it must be counted
    /// and written: an unchanged one counts as done and is skipped; a
    /// changed one counts as updated, a new one as added, and both come
    /// back as pending, titled by [`scan_title_of`], with no pages counted.
    pub fn scan_step(&mut self, root: &str, cand: &ScanCandidate, existing: Option<(i64, i64, i64)>) -> (r: Option<Pending>)
        ensures
            ({
                let c = class_of(existing, cand.file_size, cand.file_mtime);
                &&& c == ScanClass::Unchanged ==> r is None && final(self).unchanged == bump(old(self).unchanged)
                    && final(self).done == bump(old(self).done) && final(self).added == old(self).added
                    && final(self).updated == old(self).updated
                &&& c == ScanClass::Updated ==> final(self).updated == bump(old(self).updated)
                    && final(self).added == old(self).added && final(self).unchanged == old(self).unchanged
                    && final(self).done == old(self).done
                &&& c == ScanClass::Added ==> final(self).added == bump(old(self).added)
                    && final(self).updated == old(self).updated && final(self).unchanged == old(self).unchanged
                    && final(self).done == old(self).done
                &&& c != ScanClass::Unchanged ==> (r matches Some(p) && p.title@ == scan_title_of(
                    root@,
                    cand.path@,
                    cand.is_file,
                ) && p.path@ == cand.path@ && p.archive_type@ == cand.archive_type@ && p.file_size
                    == cand.file_size && p.file_mtime == cand.file_mtime && p.page_count == 0)
            }),
            final(self).total == old(self).total,
            final(self).removed == old(self).removed,
            final(self).skipped == old(self).skipped,
            final(self).running == old(self).running,
            final(self).cancel == old(self).cancel,
            final(self).current == old(self).current,
            *final(self) == step_state(*old(self), class_of(existing, cand.file_size, cand.file_mtime)),
    {
        match classify(existing, cand.file_size, cand.file_mtime) {
            ScanClass::Unchanged => {
                self.unchanged = bumped(self.unchanged);
                self.done = bumped(self.done);
                return None;
            },
            ScanClass::Updated => {
                self.updated = bumped(self.updated);
            },
            ScanClass::Added => {
                self.added = bumped(self.added);
            },
        }
        Some(Pending {
            title: scan_title(root, cand.path.as_str(), cand.is_file),
            path: cand.path.clone(),
            archive_type: cand.archive_type.clone(),
            file_size: cand.file_size,
            file_mtime: cand.file_mtime,
            page_count: 0,
        })
    }

    /// Records the page count of a pending archive: it is done, and its
    /// title becomes the current note.
    pub fn record_counted(&mut self, pending: &mut Pending, page_count: i64)
        ensures
            final(pending).page_count == page_count,
            final(pending).title == old(pending).title,
            final(pending).path == old(pending).path,
            final(pending).archive_type == old(pending).archive_type,
            final(pending).file_size == old(pending).file_size,
            final(pending).file_mtime == old(pending).file_mtime,
            final(self).done == bump(old(self).done),
            final(self).current@ == old(pending).title@,
            final(self).added == old(self).added,
            final(self).updated == old(self).updated,
            final(self).unchanged == old(self).unchanged,
            final(self).total == old(self).total,
    {
        pending.page_count = page_count;
        self.current = pending.title.clone();
        self.done = bumped(self.done);
    }

    /// Records a removed orphan.
    pub fn record_removed(&mut self)
        ensures
            final(self).removed == bump(old(self).removed),
            final(self).skipped == old(self).skipped,
            final(self).done == old(self).done,
            final(self).added == old(self).added,
            final(self).updated == old(self).updated,
    {
        self.removed = bumped(self.removed);
    }
}

// ---------------------------------------------------------------------------
// Orphans
// ---------------------------------------------------------------------------

/// What becomes of a library row under the scanned root.
#[derive(Clone, Copy, PartialEq, Eq, Structural, Debug)]
pub enum OrphanAction {
    /// Discovered by this scan.
    Keep,
    /// Not discovered but still on disk (depth limit, unknown extension,
    /// folder without images...): left alone.
    Skip,
    /// Gone from disk: deleted from the library.
    Remove,
}

/// The action for a library row: kept when discovered, skipped when its
/// file still exists, removed otherwise.
pub open spec fn orphan_action_of(discovered: Seq<Seq<char>>, row_path: Seq<char>, exists_on_disk: bool) -> OrphanAction {
    if discovered.contains(row_path) {
        OrphanAction::Keep
    } else if exists_on_disk {
        OrphanAction::Skip
    } else {
        OrphanAction::Remove
    }
}

/// The texts of a vector of strings.
pub open spec fn texts(v: Seq<String>) -> Seq<Seq<char>> {
    v.map_values(|s: String| s@)
}

/// Whether a path was discovered by this scan.
pub fn was_discovered(discovered: &Vec<String>, path: &str) -> (r: bool)
    ensures
        r == texts(discovered@).contains(path@),
{
    let p = chars_of(path);
    let mut i: usize = 0;
    while i < discovered.len()
        invariant
            i <= discovered@.len(),
            p@ == path@,
            forall|k: int| 0 <= k < i ==> texts(discovered@)[k] != path@,
        decreases discovered.len() - i,
    {
        let q = chars_of(discovered[i].as_str());
        if chars_eq(q.as_slice(), p.as_slice()) {
            assert(texts(discovered@)[i as int] == path@);
            return true;
        }
        i = i + 1;
    }
    false
}

/// The action for a library row (see [`orphan_action_of`]).
pub fn orphan_action(discovered: &Vec<String>, row_path: &str, exists_on_disk: bool) -> (r: OrphanAction)
    ensures
        r == orphan_action_of(texts(discovered@), row_path@, exists_on_disk),
{
    if was_discovered(discovered, row_path) {
        OrphanAction::Keep
    } else if exists_on_disk {
        OrphanAction::Skip
    } else {
        OrphanAction::Remove
    }
}

/// A row that this scan discovered is never removed, and neither is one
/// whose file still exists: only rows whose file is gone are deleted.
pub proof fn law_scan_only_removes_missing(discovered: Seq<Seq<char>>, row_path: Seq<char>, exists_on_disk: bool)
    ensures
        orphan_action_of(discovered, row_path, exists_on_disk) == OrphanAction::Remove <==> (
        !discovered.contains(row_path) && !exists_on_disk),
{
}

// ---------------------------------------------------------------------------
// Requests and summaries
// ---------------------------------------------------------------------------

/// The root a scan covers: the requested path, else the configured root;
/// none (nothing to scan) when that is empty.
pub fn scan_root(requested: Option<String>, configured: String) -> (r: Option<String>)
    ensures
        ({
            let chosen = match requested {
                Some(p) => p,
                None => configured,
            };
            &&& chosen@.len() == 0 ==> r is None
            &&& chosen@.len() > 0 ==> r == Some(chosen)
        }),
{
    let chosen = match requested {
        Some(p) => p,
        None => configured,
    };
    if chosen.as_str().is_empty() {
        None
    } else {
        Some(chosen)
    }
}

/// `str::parse::<u32>`: an optional `+` and decimal digits, within range.
pub open spec fn parse_u32_spec(s: Seq<char>) -> Option<u32> {
    if s.len() > 0 && s[0] == '-' {
        None
    } else {
        match parse_i64_spec(s) {
            Some(v) => if 0 <= v <= u32::MAX {
                Some(v as u32)
            } else {
                None
            },
            None => None,
        }
    }
}

/// Reads an unsigned 32-bit setting; `None` when it is not such a number.
/// Texts of more than 18 digits (beyond what an `i64` holds) are reported
/// as not numbers, as they are for `u32` too.
pub fn parse_u32(s: &str) -> (r: Option<u32>)
    ensures
        r == parse_u32_spec(s@),
{
    let v = chars_of(s);
    if v.len() > 0 && v[0] == '-' {
        return None;
    }
    match parse_i64(v.as_slice()) {
        Some(n) => if 0 <= n && n <= 4294967295 {
            Some(n as u32)
        } else {
            None
        },
        None => None,
    }
}

/// The depth a scan walks to: the requested depth, else the `scan_depth`
/// setting when it is a number, else 1.
pub open spec fn scan_depth_of(requested: Option<u32>, setting: Option<Seq<char>>) -> u32 {
    match requested {
        Some(d) => d,
        None => match setting {
            Some(s) => match parse_u32_spec(s) {
                Some(v) => v,
                None => 1,
            },
            None => 1,
        },
    }
}

/// The depth a scan walks to (see [`scan_depth_of`]).
pub fn scan_depth(requested: Option<u32>, setting: Option<&str>) -> (r: u32)
    ensures
        r == scan_depth_of(
            requested,
            match setting {
                Some(s) => Some(s@),
                None => None,
            },
        ),
{
    match requested {
        Some(d) => d,
        None => match setting {
            Some(s) => match parse_u32(s) {
                Some(v) => v,
                None => 1,
            },
            None => 1,
        },
    }
}

/// The summary message of a scan.
pub open spec fn scan_message(cancelled: bool, scanned: usize, added: usize, updated: usize, removed: usize, skipped: usize) -> Seq<char> {
    if cancelled {
        "扫描已取消：共发现 "@ + dec(scanned as nat) + " 个档案，新增 "@ + dec(added as nat) + "，更新 "@
            + dec(updated as nat) + "，清理 "@ + dec(removed as nat) + " 个已删除档案"@
    } else {
        "扫描完成：共 "@ + dec(scanned as nat) + " 个档案，新增 "@ + dec(added as nat) + "，更新 "@ + dec(
            updated as nat,
        ) + "，清理 "@ + dec(removed as nat) + " 个已删除档案，跳过 "@ + dec(skipped as nat)
            + " 个仍存在的档案"@
    }
}

/// The summary message of a scan (see [`scan_message`]).
pub fn scan_summary(cancelled: bool, scanned: usize, added: usize, updated: usize, removed: usize, skipped: usize) -> (r: String)
    ensures
        r@ == scan_message(cancelled, scanned, added, updated, removed, skipped),
{
    let mut r = if cancelled {
        String::from_str("扫描已取消：共发现 ")
    } else {
        String::from_str("扫描完成：共 ")
    };
    push_u64(&mut r, scanned as u64);
    push_str(&mut r, " 个档案，新增 ");
    push_u64(&mut r, added as u64);
    push_str(&mut r, "，更新 ");
    push_u64(&mut r, updated as u64);
    push_str(&mut r, "，清理 ");
    push_u64(&mut r, removed as u64);
    if cancelled {
        push_str(&mut r, " 个已删除档案");
    } else {
        push_str(&mut r, " 个已删除档案，跳过 ");
        push_u64(&mut r, skipped as u64);
        push_str(&mut r, " 个仍存在的档案");
    }
    r
}

/// The number of page-counting workers: the hardware's parallelism (4 when
/// unknown), kept between 1 and 8, and no more than the number of tasks
/// (at least 1).
pub fn worker_count(tasks: usize, hardware: Option<usize>) -> (r: usize)
    ensures
        ({
            let hw = match hardware {
                Some(h) => h as int,
                None => 4,
            };
            let clamped = if hw < 1 {
                1
            } else if hw > 8 {
                8
            } else {
                hw
            };
            let cap = if tasks < 1 {
                1
            } else {
                tasks as int
            };
            r == if clamped < cap {
                clamped
            } else {
                cap
            }
        }),
        1 <= r <= 8,
{
    let hw: usize = match hardware {
        Some(h) => h,
        None => 4,
    };
    let clamped: usize = if hw < 1 {
        1
    } else if hw > 8 {
        8
    } else {
        hw
    };
    let cap: usize = if tasks < 1 {
        1
    } else {
        tasks
    };
    if clamped < cap {
        clamped
    } else {
        cap
    }
}

/// The job's status as sent to clients: an object with running, total, done, added, updated, unchanged, removed, skipped, current.
pub open spec fn scan_status_model(j: ScanJob) -> JsonModel {
    object_of(
        seq![
            ("running"@, JsonModel::Bool(j.running)),
            ("total"@, count_model(j.total)),
            ("done"@, count_model(j.done)),
            ("added"@, count_model(j.added)),
            ("updated"@, count_model(j.updated)),
            ("unchanged"@, count_model(j.unchanged)),
            ("removed"@, count_model(j.removed)),
            ("skipped"@, count_model(j.skipped)),
            ("current"@, JsonModel::Str(j.current@)),
        ],
    )
}


// ---------------------------------------------------------------------------
// Scans over a whole library
// ---------------------------------------------------------------------------

/// The job after recording, in order, discovered archives of these classes.
pub open spec fn scan_steps(j: ScanJob, classes: Seq<ScanClass>) -> ScanJob
    decreases classes.len(),
{
    if classes.len() == 0 {
        j
    } else {
        step_state(scan_steps(j, classes.drop_last()), classes.last())
    }
}

/// The classes of the discovered archives, given the library's record for
/// each.
pub open spec fn scan_classes(cands: Seq<ScanCandidate>, existing: Seq<Option<(i64, i64, i64)>>) -> Seq<ScanClass> {
    Seq::new(cands.len(), |i: int| class_of(existing[i], cands[i].file_size, cands[i].file_mtime))
}

/// An archive whose library record has its pages counted and its current
/// size and modification time.
pub open spec fn matches_record(c: ScanCandidate, existing: Option<(i64, i64, i64)>) -> bool {
    match existing {
        Some((pc, fs, fm)) => pc > 0 && fs == c.file_size && fm == c.file_mtime,
        None => false,
    }
}

proof fn lemma_unchanged_steps(j: ScanJob, classes: Seq<ScanClass>)
    requires
        forall|i: int| 0 <= i < classes.len() ==> classes[i] == ScanClass::Unchanged,
        j.unchanged + classes.len() <= usize::MAX,
        j.done + classes.len() <= usize::MAX,
    ensures
        scan_steps(j, classes).unchanged == j.unchanged + classes.len(),
        scan_steps(j, classes).done == j.done + classes.len(),
        scan_steps(j, classes).added == j.added,
        scan_steps(j, classes).updated == j.updated,
        scan_steps(j, classes).total == j.total,
        scan_steps(j, classes).removed == j.removed,
        scan_steps(j, classes).skipped == j.skipped,
    decreases classes.len(),
{
    if classes.len() > 0 {
        lemma_unchanged_steps(j, classes.drop_last());
        assert(classes.last() == ScanClass::Unchanged);
    }
}

/// A second scan of an unchanged library does nothing but count: when
/// every discovered archive matches its library record (pages counted,
/// same size and modification time), each is classed unchanged, so none is
/// re-counted or written; a fresh job ends with nothing added or updated
/// and every archive counted as unchanged and done; and no discovered row
/// is removed.
pub proof fn law_rescan_skips_unchanged(
    j: ScanJob,
    cands: Seq<ScanCandidate>,
    existing: Seq<Option<(i64, i64, i64)>>,
    discovered: Seq<Seq<char>>,
)
    requires
        existing.len() == cands.len(),
        cands.len() <= usize::MAX,
        forall|i: int| 0 <= i < cands.len() ==> matches_record(#[trigger] cands[i], existing[i]),
        j.added == 0 && j.updated == 0 && j.unchanged == 0 && j.done == 0,
    ensures
        forall|i: int| 0 <= i < cands.len() ==> #[trigger] scan_classes(cands, existing)[i] == ScanClass::Unchanged,
        scan_steps(j, scan_classes(cands, existing)).added == 0,
        scan_steps(j, scan_classes(cands, existing)).updated == 0,
        scan_steps(j, scan_classes(cands, existing)).unchanged == cands.len(),
        scan_steps(j, scan_classes(cands, existing)).done == cands.len(),
        scan_steps(j, scan_classes(cands, existing)).total == j.total,
        forall|p: Seq<char>, on_disk: bool|
            discovered.contains(p) ==> #[trigger] orphan_action_of(discovered, p, on_disk) == OrphanAction::Keep,
{
    let classes = scan_classes(cands, existing);
    assert forall|i: int| 0 <= i < cands.len() implies #[trigger] classes[i] == ScanClass::Unchanged by {
        assert(matches_record(cands[i], existing[i]));
    }
    lemma_unchanged_steps(j, classes);
}

} // verus!

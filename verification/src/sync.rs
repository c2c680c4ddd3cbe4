//! Pulling a whole library from another machine on the LAN: local file
//! names for remote archives, the comparison plan (new / changed / up to
//! date), the job's progress record, and the metadata to apply to each
//! archive once it is registered.

use vstd::prelude::*;
use crate::json::{count_model, count_value, model, object, object_of, string_array, text_array, JsonModel, JsonValue};
use crate::auth::{outbound_ok, validate_outbound_url};
use crate::text::{
    chars_eq, chars_of, dec, is_ws, push_char, push_chars, push_str, push_u64, split_chars,
    split_on, seqs_of, string_from_chars, take_chars, trim_chars, trim_ws, upper_chars, upper_seq,
};

verus! {

// ---------------------------------------------------------------------------
// Local file names
// ---------------------------------------------------------------------------

/// The file extension a synced archive is stored under: its own for `zip`,
/// `rar`, `cbr` and `7z`; `cbz` otherwise (a folder arrives packed as CBZ).
pub open spec fn sync_extension(archive_type: Seq<char>) -> Seq<char> {
    if archive_type == "zip"@ {
        "zip"@
    } else if archive_type == "rar"@ {
        "rar"@
    } else if archive_type == "cbr"@ {
        "cbr"@
    } else if archive_type == "7z"@ {
        "7z"@
    } else {
        "cbz"@
    }
}

/// The extension for an archive type (see [`sync_extension`]).
pub fn extension_for(archive_type: &str) -> (r: &'static str)
    ensures
        r@ == sync_extension(archive_type@),
{
    let t = chars_of(archive_type);
    let zip = chars_of("zip");
    let rar = chars_of("rar");
    let cbr = chars_of("cbr");
    let sz = chars_of("7z");
    if chars_eq(t.as_slice(), zip.as_slice()) {
        "zip"
    } else if chars_eq(t.as_slice(), rar.as_slice()) {
        "rar"
    } else if chars_eq(t.as_slice(), cbr.as_slice()) {
        "cbr"
    } else if chars_eq(t.as_slice(), sz.as_slice()) {
        "7z"
    } else {
        "cbz"
    }
}

/// `char::is_control`: the C0 and C1 control characters.
pub open spec fn is_control_char(c: char) -> bool {
    (c as u32) <= 0x1f || (0x7f <= (c as u32) && (c as u32) <= 0x9f)
}

/// A character that may not appear in a file name: a control character or
/// one of `/ \ : * ? " < > |`.
pub open spec fn bad_name_char(c: char) -> bool {
    is_control_char(c) || c == '/' || c == '\\' || c == ':' || c == '*' || c == '?' || c == '"'
        || c == '<' || c == '>' || c == '|'
}

/// The title with every character that may not appear in a file name
/// replaced by `_`.
pub open spec fn sanitized(title: Seq<char>) -> Seq<char> {
    title.map_values(|c: char| if bad_name_char(c) { '_' } else { c })
}

/// At most the first 120 characters.
pub open spec fn clip120(s: Seq<char>) -> Seq<char> {
    if s.len() > 120 {
        s.take(120)
    } else {
        s
    }
}

/// The base of a synced file name: the sanitized title, trimmed of white
/// space and cut to 120 characters; `archive` when that leaves nothing.
pub open spec fn file_base(title: Seq<char>) -> Seq<char> {
    let b = clip120(trim_ws(sanitized(title)));
    if b.len() == 0 {
        "archive"@
    } else {
        b
    }
}

/// The device names that Windows reserves.
pub open spec fn reserved_names() -> Seq<Seq<char>> {
    seq![
        "CON"@, "PRN"@, "AUX"@, "NUL"@, "COM1"@, "COM2"@, "COM3"@, "COM4"@, "COM5"@, "COM6"@,
        "COM7"@, "COM8"@, "COM9"@, "LPT1"@, "LPT2"@, "LPT3"@, "LPT4"@, "LPT5"@, "LPT6"@,
        "LPT7"@, "LPT8"@, "LPT9"@,
    ]
}

/// A base that would not be a valid Windows file name: the part before its
/// first `.`, upper-cased, is a reserved device name, or it ends in `.` or
/// a space.
pub open spec fn needs_guard(base: Seq<char>) -> bool {
    reserved_names().contains(upper_seq(split_on(base, '.')[0])) || (base.len() > 0 && (
    base.last() == '.' || base.last() == ' '))
}

/// `trim_end_matches(['.', ' '])`.
pub open spec fn trim_end_dots(s: Seq<char>) -> Seq<char>
    decreases s.len(),
{
    if s.len() > 0 && (s.last() == '.' || s.last() == ' ') {
        trim_end_dots(s.drop_last())
    } else {
        s
    }
}

/// The base made safe on Windows: `_` in front of a guarded base, whose
/// trailing dots and spaces are dropped.
pub open spec fn safe_base(base: Seq<char>) -> Seq<char> {
    if needs_guard(base) {
        seq!['_'] + trim_end_dots(base)
    } else {
        base
    }
}

/// The local file name of a synced archive: the safe base, then (from the
/// second occurrence of the same title on) `_` and the occurrence number
/// counted from 1, then `.` and the extension.
pub open spec fn sync_name(title: Seq<char>, archive_type: Seq<char>, occurrence: nat) -> Seq<char> {
    let base = safe_base(file_base(title));
    let ext = sync_extension(archive_type);
    if occurrence == 0 {
        base + seq!['.'] + ext
    } else {
        base + seq!['_'] + dec(occurrence + 1) + seq!['.'] + ext
    }
}

fn sanitize_chars(v: &[char]) -> (r: Vec<char>)
    ensures
        r@ == sanitized(v@),
{
    let mut r: Vec<char> = Vec::new();
    let mut i: usize = 0;
    while i < v.len()
        invariant
            i <= v.len(),
            r@ =~= sanitized(v@.take(i as int)),
        decreases v.len() - i,
    {
        let c = v[i];
        let u = c as u32;
        let bad = u <= 0x1f || (0x7f <= u && u <= 0x9f) || c == '/' || c == '\\' || c == ':' || c
            == '*' || c == '?' || c == '"' || c == '<' || c == '>' || c == '|';
        if bad {
            r.push('_');
        } else {
            r.push(c);
        }
        assert(v@.take(i as int + 1) =~= v@.take(i as int).push(c));
        i = i + 1;
    }
    assert(v@.take(v.len() as int) =~= v@);
    r
}

fn is_reserved(stem: &[char]) -> (r: bool)
    ensures
        r == reserved_names().contains(stem@),
{
    let names: [&str; 22] = [
        "CON", "PRN", "AUX", "NUL", "COM1", "COM2", "COM3", "COM4", "COM5", "COM6", "COM7",
        "COM8", "COM9", "LPT1", "LPT2", "LPT3", "LPT4", "LPT5", "LPT6", "LPT7", "LPT8", "LPT9",
    ];
    assert(forall|k: int| 0 <= k < 22 ==> #[trigger] names@[k]@ == reserved_names()[k]);
    let mut i: usize = 0;
    while i < 22
        invariant
            i <= 22,
            forall|k: int| 0 <= k < 22 ==> #[trigger] names@[k]@ == reserved_names()[k],
            forall|k: int| 0 <= k < i ==> reserved_names()[k] != stem@,
        decreases 22 - i,
    {
        let cand = chars_of(names[i]);
        if chars_eq(cand.as_slice(), stem) {
            assert(reserved_names()[i as int] == stem@);
            return true;
        }
        i = i + 1;
    }
    assert(reserved_names().len() == 22);
    false
}

fn trim_end_dots_exec(s: &Vec<char>) -> (r: Vec<char>)
    ensures
        r@ == trim_end_dots(s@),
{
    let mut n: usize = s.len();
    assert(s@.take(n as int) =~= s@);
    while n > 0 && (s[n - 1] == '.' || s[n - 1] == ' ')
        invariant
            n <= s.len(),
            trim_end_dots(s@) == trim_end_dots(s@.take(n as int)),
        decreases n,
    {
        assert(s@.take(n as int).drop_last() =~= s@.take(n as int - 1));
        n = n - 1;
    }
    take_chars(s.as_slice(), n)
}

/// The local file name for a remote archive (see [`sync_name`]):
/// characters that a file name cannot hold become `_`, Windows device names
/// get a `_` in front, and the `occurrence`-th repeat of a title (from 0)
/// gets a `_2`, `_3`, ... suffix so that two archives never share a file.
pub fn sync_filename(title: &str, archive_type: &str, occurrence: usize) -> (r: String)
    requires
        occurrence < usize::MAX,
    ensures
        r@ == sync_name(title@, archive_type@, occurrence as nat),
{
    let v = chars_of(title);
    let s = sanitize_chars(v.as_slice());
    let t = trim_chars(s.as_slice());
    let clipped = if t.len() > 120 {
        take_chars(t.as_slice(), 120)
    } else {
        t
    };
    let base = if clipped.len() == 0 {
        chars_of("archive")
    } else {
        clipped
    };
    proof {
        reveal_strlit("archive");
    }
    assert(base@ == file_base(title@));
    assert(base.len() > 0);
    let pieces = split_chars(base.as_slice(), '.');
    assert(seqs_of(pieces@)[0] == pieces@[0]@);
    let stem = upper_chars(pieces[0].as_slice());
    let last = base[base.len() - 1];
    let guard = is_reserved(stem.as_slice()) || last == '.' || last == ' ';
    assert(guard == needs_guard(base@));
    let mut r = String::new();
    if guard {
        push_char(&mut r, '_');
        let trimmed = trim_end_dots_exec(&base);
        push_chars(&mut r, trimmed.as_slice());
    } else {
        push_chars(&mut r, base.as_slice());
    }
    assert(r@ == safe_base(file_base(title@)));
    if occurrence > 0 {
        push_char(&mut r, '_');
        push_u64(&mut r, (occurrence + 1) as u64);
    }
    push_char(&mut r, '.');
    push_str(&mut r, extension_for(archive_type));
    assert(r@ =~= sync_name(title@, archive_type@, occurrence as nat));
    r
}

/// Whether a remote library may be synced from `url` (see [`outbound_ok`]):
/// `http(s)` to a host that is not this machine.
pub fn validate_sync_url(url: &str) -> (r: bool)
    ensures
        r == outbound_ok(url@),
{
    validate_outbound_url(url)
}

/// `url` with every trailing `/` removed.
pub open spec fn trim_end_slashes(s: Seq<char>) -> Seq<char>
    decreases s.len(),
{
    if s.len() > 0 && s.last() == '/' {
        trim_end_slashes(s.drop_last())
    } else {
        s
    }
}

/// The base URL of the remote server: the URL without trailing `/`.
pub fn base_url(url: &str) -> (r: String)
    ensures
        r@ == trim_end_slashes(url@),
{
    let v = chars_of(url);
    let mut n: usize = v.len();
    assert(v@.take(n as int) =~= v@);
    while n > 0 && v[n - 1] == '/'
        invariant
            n <= v.len(),
            trim_end_slashes(v@) == trim_end_slashes(v@.take(n as int)),
        decreases n,
    {
        assert(v@.take(n as int).drop_last() =~= v@.take(n as int - 1));
        n = n - 1;
    }
    let t = take_chars(v.as_slice(), n);
    string_from_chars(t.as_slice())
}


// ---------------------------------------------------------------------------
// The plan
// ---------------------------------------------------------------------------

/// One archive of the remote library's manifest.
pub struct ManifestArchive {
    pub id: i64,
    pub title: String,
    pub archive_type: String,
    pub page_count: i64,
    pub file_size: i64,
    /// Modification time of the remote file, in seconds since the epoch.
    pub file_mtime: i64,
}

impl ManifestArchive {
    /// A copy of the entry.
    pub fn copy(&self) -> (r: Self)
        ensures
            r == *self,
    {
        ManifestArchive {
            id: self.id,
            title: self.title.clone(),
            archive_type: self.archive_type.clone(),
            page_count: self.page_count,
            file_size: self.file_size,
            file_mtime: self.file_mtime,
        }
    }
}

/// What the comparison decided for one remote archive.
#[derive(Clone, Copy, PartialEq, Eq, Structural, Debug)]
pub enum PlanStatus {
    /// No local file: download it.
    New,
    /// A local file of that name differs: download and overwrite it.
    Changed,
    /// The local file matches: skip it.
    UpToDate,
}

/// What the local disk and library say about the file a remote archive
/// would be stored in.
pub struct LocalProbe {
    /// The file exists and is a regular file.
    pub is_file: bool,
    /// Its size in bytes, when it could be read.
    pub size: Option<i64>,
    /// The page count of the library's archive at that path, if there is one.
    pub page_count: Option<i64>,
}

/// One line of the sync plan.
pub struct PlanItem {
    pub archive: ManifestArchive,
    pub filename: String,
    pub status: PlanStatus,
}

/// The titles of the manifest entries.
pub open spec fn titles_of(entries: Seq<ManifestArchive>) -> Seq<Seq<char>> {
    entries.map_values(|e: ManifestArchive| e.title@)
}

/// How many of the first `n` titles equal `t`.
pub open spec fn count_title(titles: Seq<Seq<char>>, t: Seq<char>, n: int) -> nat
    decreases n,
{
    if n <= 0 {
        0
    } else if titles[n - 1] == t {
        count_title(titles, t, n - 1) + 1
    } else {
        count_title(titles, t, n - 1)
    }
}

/// Which repeat of its title entry `i` is (0 for the first).
pub open spec fn occurrence(entries: Seq<ManifestArchive>, i: int) -> nat {
    count_title(titles_of(entries), entries[i].title@, i)
}

/// The local file name of entry `i`.
pub open spec fn planned_name(entries: Seq<ManifestArchive>, i: int) -> Seq<char> {
    sync_name(entries[i].title@, entries[i].archive_type@, occurrence(entries, i))
}

/// The decision for an entry given what is on disk: no file, new; a file
/// for a packed archive, up to date when its size equals the remote size;
/// a file for a folder archive (which arrives packed, so sizes differ),
/// up to date when the local archive has the remote page count.
pub open spec fn status_of(entry: ManifestArchive, probe: LocalProbe) -> PlanStatus {
    if !probe.is_file {
        PlanStatus::New
    } else if entry.archive_type@ != "folder"@ {
        if probe.size == Some(entry.file_size) {
            PlanStatus::UpToDate
        } else {
            PlanStatus::Changed
        }
    } else if probe.page_count == Some(entry.page_count) {
        PlanStatus::UpToDate
    } else {
        PlanStatus::Changed
    }
}

proof fn lemma_count_title_bound(titles: Seq<Seq<char>>, t: Seq<char>, n: int)
    ensures
        count_title(titles, t, n) <= if n < 0 {
            0
        } else {
            n
        },
    decreases n,
{
    if n > 0 {
        lemma_count_title_bound(titles, t, n - 1);
    }
}

fn count_before(entries: &Vec<ManifestArchive>, i: usize) -> (r: usize)
    requires
        i < entries@.len(),
    ensures
        r == occurrence(entries@, i as int),
        r <= i,
{
    let t = chars_of(entries[i].title.as_str());
    let mut c: usize = 0;
    let mut j: usize = 0;
    while j < i
        invariant
            j <= i < entries@.len(),
            t@ == entries@[i as int].title@,
            c == count_title(titles_of(entries@), t@, j as int),
            c <= j,
        decreases i - j,
    {
        let u = chars_of(entries[j].title.as_str());
        if chars_eq(u.as_slice(), t.as_slice()) {
            c = c + 1;
        }
        j = j + 1;
    }
    c
}

/// The local file names of all entries: each title's first entry gets the
/// plain name, its later entries `_2`, `_3`, ... (see [`sync_filename`]).
pub fn plan_filenames(entries: &Vec<ManifestArchive>) -> (r: Vec<String>)
    ensures
        r@.len() == entries@.len(),
        forall|i: int| 0 <= i < r@.len() ==> #[trigger] r@[i]@ == planned_name(entries@, i),
{
    let mut r: Vec<String> = Vec::new();
    let mut i: usize = 0;
    while i < entries.len()
        invariant
            i <= entries@.len(),
            r@.len() == i,
            forall|k: int| 0 <= k < i ==> #[trigger] r@[k]@ == planned_name(entries@, k),
        decreases entries.len() - i,
    {
        let occ = count_before(entries, i);
        let name = sync_filename(entries[i].title.as_str(), entries[i].archive_type.as_str(), occ);
        r.push(name);
        i = i + 1;
    }
    r
}

/// The decision for one entry (see [`status_of`]).
pub fn plan_status(entry: &ManifestArchive, probe: &LocalProbe) -> (r: PlanStatus)
    ensures
        r == status_of(*entry, *probe),
{
    if !probe.is_file {
        return PlanStatus::New;
    }
    let t = chars_of(entry.archive_type.as_str());
    let folder = chars_of("folder");
    if !chars_eq(t.as_slice(), folder.as_slice()) {
        match probe.size {
            Some(sz) => if sz == entry.file_size {
                PlanStatus::UpToDate
            } else {
                PlanStatus::Changed
            },
            None => PlanStatus::Changed,
        }
    } else {
        match probe.page_count {
            Some(pc) => if pc == entry.page_count {
                PlanStatus::UpToDate
            } else {
                PlanStatus::Changed
            },
            None => PlanStatus::Changed,
        }
    }
}

/// The sync plan: for each manifest entry, in order, the entry, its local
/// file name and the decision for it given `probes[i]`, what was found at
/// that file name.
pub fn build_plan(entries: &Vec<ManifestArchive>, probes: &Vec<LocalProbe>) -> (r: Vec<PlanItem>)
    requires
        probes@.len() == entries@.len(),
    ensures
        r@.len() == entries@.len(),
        forall|i: int|
            0 <= i < r@.len() ==> {
                &&& (#[trigger] r@[i]).archive == entries@[i]
                &&& r@[i].filename@ == planned_name(entries@, i)
                &&& r@[i].status == status_of(entries@[i], probes@[i])
            },
{
    let names = plan_filenames(entries);
    let mut r: Vec<PlanItem> = Vec::new();
    let mut i: usize = 0;
    while i < entries.len()
        invariant
            i <= entries@.len(),
            probes@.len() == entries@.len(),
            names@.len() == entries@.len(),
            forall|k: int| 0 <= k < names@.len() ==> #[trigger] names@[k]@ == planned_name(entries@, k),
            r@.len() == i,
            forall|k: int|
                0 <= k < i ==> {
                    &&& (#[trigger] r@[k]).archive == entries@[k]
                    &&& r@[k].filename@ == planned_name(entries@, k)
                    &&& r@[k].status == status_of(entries@[k], probes@[k])
                },
        decreases entries.len() - i,
    {
        let status = plan_status(&entries[i], &probes[i]);
        assert(names@[i as int]@ == planned_name(entries@, i as int));
        r.push(PlanItem { archive: entries[i].copy(), filename: names[i].clone(), status });
        i = i + 1;
    }
    r
}

/// How many plan lines have the given status.
pub open spec fn count_status(items: Seq<PlanItem>, s: PlanStatus, n: int) -> nat
    decreases n,
{
    if n <= 0 {
        0
    } else if items[n - 1].status == s {
        count_status(items, s, n - 1) + 1
    } else {
        count_status(items, s, n - 1)
    }
}

/// The plan's totals: new, changed and up-to-date (skipped) lines. They
/// add up to the length of the plan.
pub fn plan_counts(items: &Vec<PlanItem>) -> (r: (usize, usize, usize))
    ensures
        r.0 == count_status(items@, PlanStatus::New, items@.len() as int),
        r.1 == count_status(items@, PlanStatus::Changed, items@.len() as int),
        r.2 == count_status(items@, PlanStatus::UpToDate, items@.len() as int),
        r.0 + r.1 + r.2 == items@.len(),
{
    let mut n: usize = 0;
    let mut c: usize = 0;
    let mut u: usize = 0;
    let mut i: usize = 0;
    while i < items.len()
        invariant
            i <= items@.len(),
            n == count_status(items@, PlanStatus::New, i as int),
            c == count_status(items@, PlanStatus::Changed, i as int),
            u == count_status(items@, PlanStatus::UpToDate, i as int),
            n + c + u == i,
        decreases items.len() - i,
    {
        match items[i].status {
            PlanStatus::New => n = n + 1,
            PlanStatus::Changed => c = c + 1,
            PlanStatus::UpToDate => u = u + 1,
        }
        i = i + 1;
    }
    (n, c, u)
}

/// The titles of the first `n` plan lines with the given status, in order.
pub open spec fn titles_with(items: Seq<PlanItem>, s: PlanStatus, n: int) -> Seq<Seq<char>>
    decreases n,
{
    if n <= 0 {
        Seq::<Seq<char>>::empty()
    } else if items[n - 1].status == s {
        titles_with(items, s, n - 1).push(items[n - 1].archive.title@)
    } else {
        titles_with(items, s, n - 1)
    }
}

/// The texts of a list of strings.
pub open spec fn views(v: Seq<String>) -> Seq<Seq<char>> {
    v.map_values(|t: String| t@)
}

/// The preview of a plan: the titles that would be downloaded as new, the
/// ones downloaded again because they changed, and the ones already up to
/// date, each in plan order.
pub fn plan_titles(items: &Vec<PlanItem>) -> (r: (Vec<String>, Vec<String>, Vec<String>))
    ensures
        views(r.0@) == titles_with(items@, PlanStatus::New, items@.len() as int),
        views(r.1@) == titles_with(items@, PlanStatus::Changed, items@.len() as int),
        views(r.2@) == titles_with(items@, PlanStatus::UpToDate, items@.len() as int),
{
    let mut new: Vec<String> = Vec::new();
    let mut changed: Vec<String> = Vec::new();
    let mut up_to_date: Vec<String> = Vec::new();
    let mut i: usize = 0;
    while i < items.len()
        invariant
            i <= items@.len(),
            views(new@) == titles_with(items@, PlanStatus::New, i as int),
            views(changed@) == titles_with(items@, PlanStatus::Changed, i as int),
            views(up_to_date@) == titles_with(items@, PlanStatus::UpToDate, i as int),
        decreases items.len() - i,
    {
        let t = items[i].archive.title.clone();
        match items[i].status {
            PlanStatus::New => {
                let ghost before = views(new@);
                new.push(t);
                assert(views(new@) =~= before.push(items@[i as int].archive.title@));
            },
            PlanStatus::Changed => {
                let ghost before = views(changed@);
                changed.push(t);
                assert(views(changed@) =~= before.push(items@[i as int].archive.title@));
            },
            PlanStatus::UpToDate => {
                let ghost before = views(up_to_date@);
                up_to_date.push(t);
                assert(views(up_to_date@) =~= before.push(items@[i as int].archive.title@));
            },
        }
        i = i + 1;
    }
    (new, changed, up_to_date)
}

// ---------------------------------------------------------------------------
// The job's progress
// ---------------------------------------------------------------------------

/// What came of one archive of the plan.
pub enum ItemOutcome {
    /// Downloaded and registered under this local id.
    Registered(i64),
    /// The user cancelled while it was downloading.
    Cancelled,
    /// Download or registration failed with this message.
    Failed(String),
}

/// The observable state of a sync job.
pub struct SyncJob {
    pub running: bool,
    pub cancel: bool,
    /// Planned work: new and changed archives.
    pub total: usize,
    pub done: usize,
    pub new_count: usize,
    pub changed_count: usize,
    pub skipped: usize,
    /// The archive being synced, or a closing note.
    pub current: String,
    /// `title: error` for each archive that failed.
    pub failed: Vec<String>,
}

/// The message shown when a sync was cancelled.
pub open spec fn cancelled_note() -> Seq<char> {
    "已取消，下次同步将只补未完成部分"@
}

/// `n + 1`, wrapping to 0 past the largest value, as an atomic counter does.
pub open spec fn bump(n: usize) -> usize {
    if n == usize::MAX {
        0
    } else {
        (n + 1) as usize
    }
}

impl SyncJob {
    /// The job's status document (see [`sync_status_model`]).
    pub fn status(&self) -> (r: JsonValue)
        ensures
            model(r) == sync_status_model(*self),
    {
        let mut m: Vec<(String, JsonValue)> = Vec::new();
        m.push((String::from_str("running"), JsonValue::Bool(self.running)));
        m.push((String::from_str("total"), count_value(self.total)));
        m.push((String::from_str("done"), count_value(self.done)));
        m.push((String::from_str("new"), count_value(self.new_count)));
        m.push((String::from_str("changed"), count_value(self.changed_count)));
        m.push((String::from_str("skipped"), count_value(self.skipped)));
        m.push((String::from_str("current"), JsonValue::Str(self.current.clone())));
        m.push((String::from_str("failed"), string_array(&self.failed)));
        let ghost mv = m@.map_values(|e: (String, JsonValue)| (e.0@, model(e.1)));
        assert(mv =~= match sync_status_model(*self) {
            JsonModel::Object(x) => x,
            _ => Seq::<(Seq<char>, JsonModel)>::empty(),
        });
        object(m)
    }

    /// A job that has not started: not running, nothing counted.
    pub fn new() -> (r: Self)
        ensures
            !r.running && !r.cancel,
            r.total == 0 && r.done == 0 && r.new_count == 0 && r.changed_count == 0 && r.skipped
                == 0,
            r.current@.len() == 0,
            r.failed@.len() == 0,
    {
        SyncJob {
            running: false,
            cancel: false,
            total: 0,
            done: 0,
            new_count: 0,
            changed_count: 0,
            skipped: 0,
            current: String::new(),
            failed: Vec::new(),
        }
    }

    /// Records the plan's totals: the work is the new and changed archives.
    pub fn set_plan(&mut self, new_count: usize, changed_count: usize, skipped: usize)
        requires
            new_count + changed_count <= usize::MAX,
        ensures
            final(self).new_count == new_count,
            final(self).changed_count == changed_count,
            final(self).skipped == skipped,
            final(self).total == new_count + changed_count,
            final(self).done == old(self).done,
            final(self).running == old(self).running,
            final(self).cancel == old(self).cancel,
            final(self).current == old(self).current,
            final(self).failed == old(self).failed,
    {
        self.new_count = new_count;
        self.changed_count = changed_count;
        self.skipped = skipped;
        self.total = new_count + changed_count;
    }

    /// Records the outcome of one archive and says whether to go on. A
    /// cancellation stops the job without counting the archive; a failure
    /// is listed as `title: message`; either other outcome counts as done.
    pub fn record_outcome(&mut self, title: &str, outcome: ItemOutcome) -> (go_on: bool)
        ensures
            go_on == !(outcome is Cancelled),
            outcome is Cancelled ==> final(self).current@ == cancelled_note() && final(self).done
                == old(self).done && final(self).failed == old(self).failed,
            outcome is Registered ==> final(self).done == bump(old(self).done)
                && final(self).failed == old(self).failed && final(self).current == old(self).current,
            outcome matches ItemOutcome::Failed(m) ==> final(self).done == bump(old(self).done)
                && final(self).failed@ == old(self).failed@.push(final(self).failed@.last())
                && final(self).failed@.last()@ == title@ + ": "@ + m@ && final(self).current
                == old(self).current,
            final(self).total == old(self).total,
            final(self).new_count == old(self).new_count,
            final(self).changed_count == old(self).changed_count,
            final(self).skipped == old(self).skipped,
            final(self).running == old(self).running,
            final(self).cancel == old(self).cancel,
    {
        match outcome {
            ItemOutcome::Cancelled => {
                self.current = String::from_str("已取消，下次同步将只补未完成部分");
                false
            },
            ItemOutcome::Registered(_) => {
                self.done = if self.done == usize::MAX {
                    0
                } else {
                    self.done + 1
                };
                true
            },
            ItemOutcome::Failed(m) => {
                let mut line = String::from_str(title);
                push_str(&mut line, ": ");
                push_str(&mut line, m.as_str());
                self.failed.push(line);
                self.done = if self.done == usize::MAX {
                    0
                } else {
                    self.done + 1
                };
                true
            },
        }
    }

    /// Appends the reason a whole job failed to the current note.
    pub fn record_job_error(&mut self, message: &str)
        ensures
            final(self).current@ == old(self).current@ + " —— 同步失败: "@ + message@,
            final(self).done == old(self).done,
            final(self).failed == old(self).failed,
    {
        push_str(&mut self.current, " —— 同步失败: ");
        push_str(&mut self.current, message);
    }

    /// Marks the job finished: neither running nor cancelled.
    pub fn finish(&mut self)
        ensures
            !final(self).running && !final(self).cancel,
            final(self).done == old(self).done,
            final(self).total == old(self).total,
            final(self).current == old(self).current,
            final(self).failed == old(self).failed,
    {
        self.running = false;
        self.cancel = false;
    }
}


// ---------------------------------------------------------------------------
// Requests and downloads
// ---------------------------------------------------------------------------

/// Why a sync request is refused.
#[derive(Clone, Copy, PartialEq, Eq, Structural, Debug)]
pub enum SyncRequestError {
    /// The URL is not an `http(s)` address of another machine, or no
    /// local directory was given.
    BadTarget,
    /// The local directory is not an absolute path.
    RelativeDirectory,
}

/// Checks a sync request: the URL and directory, trimmed of white space,
/// must be an allowed remote URL (see [`outbound_ok`]) and a non-empty
/// absolute directory. Returns the trimmed pair.
pub fn check_sync_request(url: &str, dir: &str) -> (r: Result<(String, String), SyncRequestError>)
    ensures
        !outbound_ok(trim_ws(url@)) || trim_ws(dir@).len() == 0 ==> r == Err::<
            (String, String),
            SyncRequestError,
        >(SyncRequestError::BadTarget),
        outbound_ok(trim_ws(url@)) && trim_ws(dir@).len() > 0 && trim_ws(dir@)[0] != '/' ==> r
            == Err::<(String, String), SyncRequestError>(SyncRequestError::RelativeDirectory),
        outbound_ok(trim_ws(url@)) && trim_ws(dir@).len() > 0 && trim_ws(dir@)[0] == '/' ==> (r
            matches Ok((u, d)) && u@ == trim_ws(url@) && d@ == trim_ws(dir@)),
{
    let uc = chars_of(url);
    let ut = trim_chars(uc.as_slice());
    let u = string_from_chars(ut.as_slice());
    let dc = chars_of(dir);
    let dt = trim_chars(dc.as_slice());
    if !validate_outbound_url(u.as_str()) || dt.len() == 0 {
        return Err(SyncRequestError::BadTarget);
    }
    if dt[0] != '/' {
        return Err(SyncRequestError::RelativeDirectory);
    }
    Ok((u, string_from_chars(dt.as_slice())))
}

/// The modification time to give a downloaded file: the `X-Source-Mtime`
/// header's value when it is a positive integer (after trimming), else the
/// manifest's time when that is positive, else none.
pub open spec fn source_mtime_of(header: Option<Seq<char>>, fallback: i64) -> Option<i64> {
    let from_header = match header {
        Some(h) => match crate::text::parse_i64_spec(trim_ws(h)) {
            Some(v) => if v > 0 {
                Some(v)
            } else {
                None
            },
            None => None,
        },
        None => None,
    };
    match from_header {
        Some(v) => Some(v),
        None => if fallback > 0 {
            Some(fallback)
        } else {
            None
        },
    }
}

/// The modification time for a downloaded archive (see [`source_mtime_of`]).
pub fn source_mtime(header: Option<&str>, fallback: i64) -> (r: Option<i64>)
    ensures
        r == source_mtime_of(
            match header {
                Some(h) => Some(h@),
                None => None,
            },
            fallback,
        ),
{
    let from_header = match header {
        Some(h) => {
            let v = chars_of(h);
            let t = trim_chars(v.as_slice());
            match crate::text::parse_i64(t.as_slice()) {
                Some(n) => if n > 0 {
                    Some(n)
                } else {
                    None
                },
                None => None,
            }
        },
        None => None,
    };
    match from_header {
        Some(n) => Some(n),
        None => if fallback > 0 {
            Some(fallback)
        } else {
            None
        },
    }
}

/// The type a downloaded archive is registered under: a folder arrives
/// packed as CBZ; any other type stays.
pub fn registered_type(archive_type: &str) -> (r: String)
    ensures
        archive_type@ == "folder"@ ==> r@ == "cbz"@,
        archive_type@ != "folder"@ ==> r@ == archive_type@,
{
    let t = chars_of(archive_type);
    let folder = chars_of("folder");
    if chars_eq(t.as_slice(), folder.as_slice()) {
        String::from_str("cbz")
    } else {
        String::from_str(archive_type)
    }
}

// ---------------------------------------------------------------------------
// Metadata carried over by title
// ---------------------------------------------------------------------------

/// A tag of the remote manifest, its fields as present.
pub struct ManifestTag {
    pub namespace: Option<String>,
    pub name: Option<String>,
    pub color: Option<String>,
}

/// A category of the remote manifest, its fields as present.
pub struct ManifestCategory {
    pub name: Option<String>,
    pub color: Option<String>,
    pub pinned: Option<bool>,
    pub search: Option<String>,
}

/// A link of a title to a tag (`namespace`, `name`) or to a category
/// (`name`; no namespace), its fields as present.
pub struct TitleLink {
    pub title: Option<String>,
    pub namespace: Option<String>,
    pub name: Option<String>,
}

/// A reading position of the remote manifest, its fields as present.
pub struct ManifestHistory {
    pub title: Option<String>,
    pub page_index: Option<i64>,
    pub total_pages: Option<i64>,
}

/// A reading position to carry over.
pub struct TitleHistory {
    pub title: String,
    pub page_index: i64,
    pub total_pages: i64,
}

/// The colour given to a tag or category the manifest has no colour for.
pub open spec fn default_color() -> Seq<char> {
    "#4a86e8"@
}

/// The text of an optional string, empty when absent.
pub open spec fn text_or_empty(s: Option<String>) -> Seq<char> {
    match s {
        Some(t) => t@,
        None => Seq::<char>::empty(),
    }
}

fn string_or_empty(s: &Option<String>) -> (r: String)
    ensures
        r@ == text_or_empty(*s),
{
    match s {
        Some(t) => t.clone(),
        None => String::new(),
    }
}

/// A usable link: its title and name (after defaulting to empty) are both
/// non-empty; gives `(title, namespace, name)`, the namespace empty when absent.
pub fn link_parts(link: &TitleLink) -> (r: Option<(String, String, String)>)
    ensures
        (text_or_empty(link.title).len() == 0 || text_or_empty(link.name).len() == 0) <==> r is None,
        r matches Some((t, ns, n)) ==> t@ == text_or_empty(link.title) && ns@ == text_or_empty(
            link.namespace,
        ) && n@ == text_or_empty(link.name),
{
    let t = string_or_empty(&link.title);
    let ns = string_or_empty(&link.namespace);
    let n = string_or_empty(&link.name);
    if t.as_str().is_empty() || n.as_str().is_empty() {
        None
    } else {
        Some((t, ns, n))
    }
}

/// The first tag with this namespace (absent counting as empty) and name.
pub open spec fn first_tag(tags: Seq<ManifestTag>, ns: Seq<char>, name: Seq<char>, i: int) -> int
    decreases tags.len() - i,
{
    if i < 0 || i >= tags.len() {
        -1
    } else if text_or_empty(tags[i].namespace) == ns && (tags[i].name matches Some(n) && n@ == name) {
        i
    } else {
        first_tag(tags, ns, name, i + 1)
    }
}

fn opt_eq(o: &Option<String>, s: &str) -> (r: bool)
    ensures
        r == (o matches Some(t) && t@ == s@),
{
    match o {
        Some(t) => {
            let a = chars_of(t.as_str());
            let b = chars_of(s);
            chars_eq(a.as_slice(), b.as_slice())
        },
        None => false,
    }
}

/// The colour of tag `ns:name` in the manifest: that of the first tag with
/// that namespace and name, when it has one; the default colour otherwise.
pub fn tag_color(tags: &Vec<ManifestTag>, ns: &str, name: &str) -> (r: String)
    ensures
        ({
            let k = first_tag(tags@, ns@, name@, 0);
            r@ == if k >= 0 && tags@[k].color is Some {
                tags@[k].color->0@
            } else {
                default_color()
            }
        }),
{
    let mut i: usize = 0;
    while i < tags.len()
        invariant
            i <= tags@.len(),
            first_tag(tags@, ns@, name@, 0) == first_tag(tags@, ns@, name@, i as int),
        decreases tags.len() - i,
    {
        let nsv = string_or_empty(&tags[i].namespace);
        let a = chars_of(nsv.as_str());
        let b = chars_of(ns);
        if chars_eq(a.as_slice(), b.as_slice()) && opt_eq(&tags[i].name, name) {
            return match &tags[i].color {
                Some(c) => c.clone(),
                None => String::from_str("#4a86e8"),
            };
        }
        i = i + 1;
    }
    String::from_str("#4a86e8")
}

/// The first category with this name.
pub open spec fn first_category(cats: Seq<ManifestCategory>, name: Seq<char>, i: int) -> int
    decreases cats.len() - i,
{
    if i < 0 || i >= cats.len() {
        -1
    } else if (cats[i].name matches Some(n) && n@ == name) {
        i
    } else {
        first_category(cats, name, i + 1)
    }
}

/// A category's attributes in the manifest: colour, pinned flag and saved
/// search of the first category with that name, each defaulting (to the
/// default colour, `false`, empty) when absent.
pub fn category_attrs(cats: &Vec<ManifestCategory>, name: &str) -> (r: (String, bool, String))
    ensures
        ({
            let k = first_category(cats@, name@, 0);
            &&& r.0@ == if k >= 0 && cats@[k].color is Some {
                cats@[k].color->0@
            } else {
                default_color()
            }
            &&& r.1 == (k >= 0 && cats@[k].pinned == Some(true))
            &&& r.2@ == if k >= 0 {
                text_or_empty(cats@[k].search)
            } else {
                Seq::<char>::empty()
            }
        }),
{
    let mut i: usize = 0;
    while i < cats.len()
        invariant
            i <= cats@.len(),
            first_category(cats@, name@, 0) == first_category(cats@, name@, i as int),
        decreases cats.len() - i,
    {
        if opt_eq(&cats[i].name, name) {
            let color = match &cats[i].color {
                Some(c) => c.clone(),
                None => String::from_str("#4a86e8"),
            };
            let pinned = match cats[i].pinned {
                Some(p) => p,
                None => false,
            };
            return (color, pinned, string_or_empty(&cats[i].search));
        }
        i = i + 1;
    }
    (String::from_str("#4a86e8"), false, String::new())
}

/// A reading position with all three fields present.
pub fn history_entry(h: &ManifestHistory) -> (r: Option<TitleHistory>)
    ensures
        r is Some <==> (h.title is Some && h.page_index is Some && h.total_pages is Some),
        r matches Some(e) ==> e.title@ == h.title->0@ && e.page_index == h.page_index->0
            && e.total_pages == h.total_pages->0,
{
    match (&h.title, h.page_index, h.total_pages) {
        (Some(t), Some(p), Some(n)) => Some(TitleHistory { title: t.clone(), page_index: p, total_pages: n }),
        _ => None,
    }
}

/// What to apply to a newly registered archive.
#[derive(Clone, Copy, PartialEq, Eq, Structural, Debug)]
pub enum MetadataAction {
    AssignTag(i64),
    AssignCategory(i64),
    /// Save the reading position: page index, total pages.
    SaveHistory(i64, i64),
}

/// The ids linked to `t`, in the order the links were made.
pub open spec fn ids_for(links: Seq<(String, i64)>, t: Seq<char>) -> Seq<i64>
    decreases links.len(),
{
    if links.len() == 0 {
        Seq::<i64>::empty()
    } else if links.last().0@ == t {
        ids_for(links.drop_last(), t).push(links.last().1)
    } else {
        ids_for(links.drop_last(), t)
    }
}

/// The last reading position recorded for `t`, if any.
pub open spec fn history_for(h: Seq<TitleHistory>, t: Seq<char>) -> Option<(i64, i64)>
    decreases h.len(),
{
    if h.len() == 0 {
        None
    } else if h.last().title@ == t {
        Some((h.last().page_index, h.last().total_pages))
    } else {
        history_for(h.drop_last(), t)
    }
}

/// The actions for an archive titled `t`: assign each linked tag, then each
/// linked category, then save the reading position, if there is one.
pub open spec fn metadata_actions(
    t: Seq<char>,
    tags: Seq<(String, i64)>,
    cats: Seq<(String, i64)>,
    h: Seq<TitleHistory>,
) -> Seq<MetadataAction> {
    let a = ids_for(tags, t).map_values(|id: i64| MetadataAction::AssignTag(id));
    let b = ids_for(cats, t).map_values(|id: i64| MetadataAction::AssignCategory(id));
    let c = match history_for(h, t) {
        Some((p, n)) => seq![MetadataAction::SaveHistory(p, n)],
        None => Seq::<MetadataAction>::empty(),
    };
    a + b + c
}

fn linked_ids(links: &Vec<(String, i64)>, t: &[char]) -> (r: Vec<i64>)
    ensures
        r@ == ids_for(links@, t@),
{
    let mut r: Vec<i64> = Vec::new();
    let mut i: usize = 0;
    while i < links.len()
        invariant
            i <= links@.len(),
            r@ == ids_for(links@.take(i as int), t@),
        decreases links.len() - i,
    {
        assert(links@.take(i as int + 1).drop_last() =~= links@.take(i as int));
        let u = chars_of(links[i].0.as_str());
        if chars_eq(u.as_slice(), t) {
            r.push(links[i].1);
        }
        i = i + 1;
    }
    assert(links@.take(links@.len() as int) =~= links@);
    r
}

/// The metadata to carry over to the archive registered for `title`: the
/// tags and categories linked to that title (in link order) and its last
/// recorded reading position.
pub fn apply_metadata(
    title: &str,
    tag_links: &Vec<(String, i64)>,
    category_links: &Vec<(String, i64)>,
    history: &Vec<TitleHistory>,
) -> (r: Vec<MetadataAction>)
    ensures
        r@ == metadata_actions(title@, tag_links@, category_links@, history@),
{
    let t = chars_of(title);
    let tags = linked_ids(tag_links, t.as_slice());
    let cats = linked_ids(category_links, t.as_slice());
    let mut r: Vec<MetadataAction> = Vec::new();
    let mut i: usize = 0;
    while i < tags.len()
        invariant
            i <= tags@.len(),
            r@ == tags@.take(i as int).map_values(|id: i64| MetadataAction::AssignTag(id)),
        decreases tags.len() - i,
    {
        r.push(MetadataAction::AssignTag(tags[i]));
        assert(tags@.take(i as int + 1).map_values(|id: i64| MetadataAction::AssignTag(id))
            =~= r@);
        i = i + 1;
    }
    assert(tags@.take(tags@.len() as int) =~= tags@);
    let ghost a = r@;
    let mut j: usize = 0;
    while j < cats.len()
        invariant
            j <= cats@.len(),
            r@ == a + cats@.take(j as int).map_values(|id: i64| MetadataAction::AssignCategory(id)),
        decreases cats.len() - j,
    {
        r.push(MetadataAction::AssignCategory(cats[j]));
        assert(a + cats@.take(j as int + 1).map_values(
            |id: i64| MetadataAction::AssignCategory(id),
        ) =~= r@);
        j = j + 1;
    }
    assert(cats@.take(cats@.len() as int) =~= cats@);
    let ghost ab = r@;
    assert(ab =~= ids_for(tag_links@, title@).map_values(|id: i64| MetadataAction::AssignTag(id))
        + ids_for(category_links@, title@).map_values(|id: i64| MetadataAction::AssignCategory(id)));
    let mut k: usize = history.len();
    assert(history@.take(k as int) =~= history@);
    while k > 0
        invariant
            k <= history@.len(),
            t@ == title@,
            r@ == ab,
            ab =~= ids_for(tag_links@, title@).map_values(|id: i64| MetadataAction::AssignTag(id))
                + ids_for(category_links@, title@).map_values(
                |id: i64| MetadataAction::AssignCategory(id),
            ),
            history_for(history@, t@) == history_for(history@.take(k as int), t@),
        decreases k,
    {
        let u = chars_of(history[k - 1].title.as_str());
        if chars_eq(u.as_slice(), t.as_slice()) {
            r.push(MetadataAction::SaveHistory(history[k - 1].page_index, history[k - 1].total_pages));
            assert(r@ =~= metadata_actions(title@, tag_links@, category_links@, history@));
            return r;
        }
        assert(history@.take(k as int).drop_last() =~= history@.take(k as int - 1));
        k = k - 1;
    }
    assert(r@ =~= metadata_actions(title@, tag_links@, category_links@, history@));
    r
}


// ---------------------------------------------------------------------------
// Laws
// ---------------------------------------------------------------------------

proof fn lemma_dec_nonempty(n: nat)
    ensures
        dec(n).len() >= 1,
        n >= 10 ==> dec(n).len() >= 2,
    decreases n,
{
    if n >= 10 {
        lemma_dec_nonempty(n / 10);
    }
}

proof fn lemma_dec_injective(n: nat, m: nat)
    requires
        dec(n) == dec(m),
    ensures
        n == m,
    decreases n,
{
    lemma_dec_nonempty(n);
    lemma_dec_nonempty(m);
    if n >= 10 && m >= 10 {
        assert(dec(n).drop_last() == dec(n / 10));
        assert(dec(m).drop_last() == dec(m / 10));
        lemma_dec_injective(n / 10, m / 10);
        assert(dec(n).last() == dec(m).last());
        assert(dec(n).last() as int == 48 + n % 10);
        assert(dec(m).last() as int == 48 + m % 10);
    } else if n < 10 && m < 10 {
        assert(dec(n)[0] == dec(m)[0]);
        assert(dec(n)[0] as int == 48 + n);
        assert(dec(m)[0] as int == 48 + m);
    } else {
        assert(dec(n).len() != dec(m).len());
    }
}

/// Two entries with the same title and type but different occurrence
/// numbers get different local file names, so a repeated title never
/// overwrites the file of an earlier one.
pub proof fn law_repeated_titles_get_distinct_names(
    title: Seq<char>,
    archive_type: Seq<char>,
    o1: nat,
    o2: nat,
)
    requires
        o1 != o2,
    ensures
        sync_name(title, archive_type, o1) != sync_name(title, archive_type, o2),
{
    let base = safe_base(file_base(title));
    let ext = sync_extension(archive_type);
    let n1 = sync_name(title, archive_type, o1);
    let n2 = sync_name(title, archive_type, o2);
    lemma_dec_nonempty(o1 + 1);
    lemma_dec_nonempty(o2 + 1);
    if o1 == 0 || o2 == 0 {
        // One name has `.` right after the base, the other `_`.
        assert(n1[base.len() as int] != n2[base.len() as int]);
    } else if n1 == n2 {
        let d1 = dec((o1 + 1) as nat);
        let d2 = dec((o2 + 1) as nat);
        assert(n1.len() == base.len() + 1 + d1.len() + 1 + ext.len());
        assert(d1.len() == d2.len());
        assert(d1 =~= n1.subrange(base.len() as int + 1, base.len() as int + 1 + d1.len() as int));
        assert(d2 =~= n2.subrange(base.len() as int + 1, base.len() as int + 1 + d2.len() as int));
        lemma_dec_injective((o1 + 1) as nat, (o2 + 1) as nat);
    }
}

/// No character of `s` is one that a file name may not hold.
pub open spec fn clean_name(s: Seq<char>) -> bool {
    forall|i: int| 0 <= i < s.len() ==> !bad_name_char(#[trigger] s[i])
}

proof fn lemma_clean_trim_end(s: Seq<char>)
    requires
        clean_name(s),
    ensures
        clean_name(crate::text::trim_end_ws(s)),
    decreases s.len(),
{
    if s.len() > 0 && is_ws(s.last()) {
        assert(clean_name(s.drop_last()));
        lemma_clean_trim_end(s.drop_last());
    }
}

proof fn lemma_clean_trim_start(s: Seq<char>)
    requires
        clean_name(s),
    ensures
        clean_name(crate::text::trim_start_ws(s)),
    decreases s.len(),
{
    if s.len() > 0 && is_ws(s[0]) {
        assert(clean_name(s.drop_first()));
        lemma_clean_trim_start(s.drop_first());
    }
}

proof fn lemma_clean_trim_dots(s: Seq<char>)
    requires
        clean_name(s),
    ensures
        clean_name(trim_end_dots(s)),
    decreases s.len(),
{
    if s.len() > 0 && (s.last() == '.' || s.last() == ' ') {
        assert(clean_name(s.drop_last()));
        lemma_clean_trim_dots(s.drop_last());
    }
}

proof fn lemma_clean_dec(n: nat)
    ensures
        clean_name(dec(n)),
    decreases n,
{
    if n >= 10 {
        lemma_clean_dec(n / 10);
        assert(clean_name(dec(n / 10).push(crate::text::digit_char(n % 10))));
    }
}

/// Every local file name the sync chooses is free of control characters
/// and of `/ \ : * ? " < > |`.
pub proof fn law_sync_names_are_clean(title: Seq<char>, archive_type: Seq<char>, occurrence: nat)
    ensures
        clean_name(sync_name(title, archive_type, occurrence)),
{
    let s = sanitized(title);
    assert(clean_name(s));
    lemma_clean_trim_end(s);
    lemma_clean_trim_start(crate::text::trim_end_ws(s));
    let t = trim_ws(s);
    assert(clean_name(clip120(t)));
    reveal_strlit("archive");
    let base = file_base(title);
    assert(clean_name(base));
    lemma_clean_trim_dots(base);
    let sb = safe_base(base);
    assert(clean_name(sb)) by {
        if needs_guard(base) {
            assert(clean_name(seq!['_'] + trim_end_dots(base)));
        }
    }
    reveal_strlit("zip");
    reveal_strlit("rar");
    reveal_strlit("cbr");
    reveal_strlit("7z");
    reveal_strlit("cbz");
    let ext = sync_extension(archive_type);
    assert(clean_name(ext));
    lemma_clean_dec(occurrence + 1);
    let d = dec((occurrence + 1) as nat);
    if occurrence == 0 {
        assert(clean_name(sb + seq!['.'] + ext));
    } else {
        assert(clean_name(sb + seq!['_'] + d + seq!['.'] + ext));
    }
}

/// The job's status as sent to clients: an object with running, total, done, new, changed, skipped, current, failed.
pub open spec fn sync_status_model(j: SyncJob) -> JsonModel {
    object_of(
        seq![
            ("running"@, JsonModel::Bool(j.running)),
            ("total"@, count_model(j.total)),
            ("done"@, count_model(j.done)),
            ("new"@, count_model(j.new_count)),
            ("changed"@, count_model(j.changed_count)),
            ("skipped"@, count_model(j.skipped)),
            ("current"@, JsonModel::Str(j.current@)),
            ("failed"@, text_array(j.failed@)),
        ],
    )
}

/// Whether a file of the sync directory is an interrupted download (a
/// regular file with the `part` extension), deleted before a sync starts.
pub fn is_part_file(name: &str, is_file: bool) -> (r: bool)
    ensures
        r == (is_file && crate::paths::extension(name@) == Some("part"@)),
{
    if !is_file {
        return false;
    }
    let v = chars_of(name);
    let part = chars_of("part");
    match crate::paths::extension_of_path(v.as_slice()) {
        Some(e) => chars_eq(e.as_slice(), part.as_slice()),
        None => false,
    }
}

} // verus!

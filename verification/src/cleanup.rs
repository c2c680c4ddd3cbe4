//! Cleaning the cache directories: which per-archive directories no longer
//! belong to a live archive, and which files of a cover directory are left
//! over from the old layout.

use vstd::prelude::*;
use crate::http::{instant, FileTime};
use crate::text::{chars_of, parse_i64, parse_i64_spec};

verus! {

/// An entry of a cache directory: its name and whether it is a directory
/// (or, for the files of a cover directory, a regular file).
pub struct DirEntry {
    pub name: String,
    pub is_dir: bool,
}

/// A per-archive cache directory is an orphan when it is a directory named
/// by an archive id (an `i64`) that no live archive has. Directories with
/// other names are not the cache's and stay.
pub open spec fn is_orphan(e: DirEntry, live: Seq<i64>) -> bool {
    e.is_dir && match parse_i64_spec(e.name@) {
        Some(id) => !live.contains(id),
        None => false,
    }
}

/// The names of the orphan directories among `entries`, in order (see
/// [`is_orphan`]).
pub fn orphan_dirs(entries: &Vec<DirEntry>, live: &Vec<i64>) -> (r: Vec<String>)
    ensures
        r@.map_values(|s: String| s@) == entries@.filter(|e: DirEntry| is_orphan(e, live@)).map_values(
            |e: DirEntry| e.name@,
        ),
{
    let mut r: Vec<String> = Vec::new();
    let mut i: usize = 0;
    while i < entries.len()
        invariant
            i <= entries@.len(),
            r@.map_values(|s: String| s@) == entries@.take(i as int).filter(|e: DirEntry| is_orphan(e, live@)).map_values(
                |e: DirEntry| e.name@,
            ),
        decreases entries.len() - i,
    {
        let ghost before = entries@.take(i as int);
        assert(entries@.take(i as int + 1) =~= before.push(entries@[i as int]));
        proof {
            before.lemma_filter_push(entries@[i as int], |e: DirEntry| is_orphan(e, live@));
        }
        let e = &entries[i];
        let orphan = if e.is_dir {
            let v = chars_of(e.name.as_str());
            match parse_i64(v.as_slice()) {
                Some(id) => !vec_has(live, id),
                None => false,
            }
        } else {
            false
        };
        let ghost rb = r@.map_values(|s: String| s@);
        if orphan {
            r.push(e.name.clone());
            assert(r@.map_values(|s: String| s@) =~= rb.push(e.name@));
        } else {
            assert(r@.map_values(|s: String| s@) =~= rb);
        }
        i = i + 1;
    }
    assert(entries@.take(entries@.len() as int) =~= entries@);
    r
}

fn vec_has(v: &Vec<i64>, x: i64) -> (r: bool)
    ensures
        r == v@.contains(x),
{
    let mut i: usize = 0;
    while i < v.len()
        invariant
            i <= v@.len(),
            forall|k: int| 0 <= k < i ==> v@[k] != x,
        decreases v.len() - i,
    {
        if v[i] == x {
            assert(v@[i as int] == x);
            return true;
        }
        i = i + 1;
    }
    false
}

/// `cover.jpg`, the one file a cover directory keeps.
pub open spec fn cover_file() -> Seq<char> {
    "cover.jpg"@
}

/// A file left in a cover directory by the old layout: a regular file
/// (flagged by `is_dir` set to false) other than `cover.jpg`.
pub open spec fn is_leftover(e: DirEntry) -> bool {
    !e.is_dir && e.name@ != cover_file()
}

/// The files of a cover directory to delete, in order (see
/// [`is_leftover`]).
pub fn legacy_leftovers(files: &Vec<DirEntry>) -> (r: Vec<String>)
    ensures
        r@.map_values(|s: String| s@) == files@.filter(|e: DirEntry| is_leftover(e)).map_values(
            |e: DirEntry| e.name@,
        ),
{
    let mut r: Vec<String> = Vec::new();
    let mut i: usize = 0;
    while i < files.len()
        invariant
            i <= files@.len(),
            r@.map_values(|s: String| s@) == files@.take(i as int).filter(|e: DirEntry| is_leftover(e)).map_values(
                |e: DirEntry| e.name@,
            ),
        decreases files.len() - i,
    {
        let ghost before = files@.take(i as int);
        assert(files@.take(i as int + 1) =~= before.push(files@[i as int]));
        proof {
            before.lemma_filter_push(files@[i as int], |e: DirEntry| is_leftover(e));
        }
        let e = &files[i];
        let leftover = !e.is_dir && !crate::media::str_is(e.name.as_str(), "cover.jpg");
        let ghost rb = r@.map_values(|s: String| s@);
        if leftover {
            r.push(e.name.clone());
            assert(r@.map_values(|s: String| s@) =~= rb.push(e.name@));
        } else {
            assert(r@.map_values(|s: String| s@) =~= rb);
        }
        i = i + 1;
    }
    assert(files@.take(files@.len() as int) =~= files@);
    r
}

/// How many days of log files are kept.
pub const LOG_RETENTION_DAYS: u64 = 7;

/// A log file is deleted when its age, `now` minus its modification time,
/// is more than [`LOG_RETENTION_DAYS`] days; a file dated after `now` has
/// no age and stays.
pub open spec fn log_expired_at(now: FileTime, modified: FileTime) -> bool {
    instant(now) - instant(modified) > LOG_RETENTION_DAYS * 86400 * 1_000_000_000
}

/// Whether a log file is old enough to delete (see [`log_expired_at`]).
pub fn log_expired(now: FileTime, modified: FileTime) -> (r: bool)
    ensures
        r == log_expired_at(now, modified),
{
    let a: i128 = (now.secs as i128) * 1_000_000_000 + (now.nanos as i128);
    let b: i128 = (modified.secs as i128) * 1_000_000_000 + (modified.nanos as i128);
    a - b > 604_800_000_000_000
}

} // verus!

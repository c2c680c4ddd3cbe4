//! Scheduled backups: when one is due, where backups go, which files are
//! backups, and which old ones a rotation removes.

use vstd::prelude::*;
use crate::order::{lex_sorted, sort_strings, string_views};
use crate::paths::{join_path, path_join};
use crate::text::{chars_of, copy_string, has_prefix, parse_i64, parse_i64_spec, push_str, starts_with};

verus! {

/// The file-name prefix that marks a backup file.
pub open spec fn backup_prefix() -> Seq<char> {
    "manhuaviewer-backup-"@
}

/// How many backups are kept when the setting is missing or malformed.
pub const DEFAULT_KEEP: u64 = 10;

/// A backup is due: the interval is positive and either there is no earlier
/// backup or at least `interval_hours` hours have passed since the newest.
pub open spec fn backup_due(last: Option<i64>, now: i64, interval_hours: i64) -> bool {
    interval_hours > 0 && match last {
        None => true,
        Some(l) => now - l >= interval_hours * 3600,
    }
}

/// Whether a scheduled backup is due. `interval_hours <= 0` turns backups
/// off; with no earlier backup one is due at once.
pub fn due(last_backup_unix: Option<i64>, now_unix: i64, interval_hours: i64) -> (r: bool)
    requires
        interval_hours > 0 && last_backup_unix is Some ==> {
            &&& i64::MIN <= now_unix - last_backup_unix->0 <= i64::MAX
            &&& interval_hours * 3600 <= i64::MAX
        },
    ensures
        r == backup_due(last_backup_unix, now_unix, interval_hours),
{
    if interval_hours <= 0 {
        return false;
    }
    match last_backup_unix {
        None => true,
        Some(last) => now_unix - last >= interval_hours * 3600,
    }
}

/// The backup directory under the data directory: `<data_dir>/backups`.
pub fn backup_dir(data_dir: &str) -> (r: String)
    ensures
        r@ == path_join(data_dir@, "backups"@),
{
    join_path(data_dir, "backups")
}

/// The number of backups to keep for a `backup_keep` setting: its integer
/// value, at least 1; 10 when it is missing or not an integer.
pub open spec fn keep_for(setting: Option<Seq<char>>) -> u64 {
    match setting {
        Some(s) => match parse_i64_spec(s) {
            Some(v) => if v < 1 {
                1
            } else {
                v as u64
            },
            None => DEFAULT_KEEP,
        },
        None => DEFAULT_KEEP,
    }
}

/// Reads the `backup_keep` setting.
pub fn keep_count(setting: Option<&str>) -> (r: u64)
    ensures
        r == keep_for(match setting {
            Some(s) => Some(s@),
            None => None,
        }),
        r >= 1,
{
    match setting {
        Some(s) => {
            let v = chars_of(s);
            match parse_i64(v.as_slice()) {
                Some(n) => if n < 1 {
                    1
                } else {
                    n as u64
                },
                None => DEFAULT_KEEP,
            }
        },
        None => DEFAULT_KEEP,
    }
}

/// Reads the `backup_interval_hours` setting: its integer value, 0 (off)
/// when missing or malformed.
pub fn interval_hours(setting: Option<&str>) -> (r: i64)
    ensures
        r == match setting {
            Some(s) => match parse_i64_spec(s@) {
                Some(v) => v,
                None => 0,
            },
            None => 0,
        },
{
    match setting {
        Some(s) => {
            let v = chars_of(s);
            match parse_i64(v.as_slice()) {
                Some(n) => n,
                None => 0,
            }
        },
        None => 0,
    }
}

/// Whether a file name is that of a backup.
pub fn is_backup_name(name: &str) -> (r: bool)
    ensures
        r == has_prefix(name@, backup_prefix()),
{
    let v = chars_of(name);
    let p = chars_of("manhuaviewer-backup-");
    starts_with(v.as_slice(), p.as_slice())
}

/// The file name of a backup taken at `stamp`: `manhuaviewer-backup-<stamp>.json`.
pub fn backup_file_name(stamp: &str) -> (r: String)
    ensures
        r@ == backup_prefix() + stamp@ + ".json"@,
{
    let mut r = String::from_str("manhuaviewer-backup-");
    push_str(&mut r, stamp);
    push_str(&mut r, ".json");
    r
}

/// The backups among the names of the regular files of the backup
/// directory, oldest first (backup names sort by their time stamp).
pub fn backup_listing(names: &Vec<String>) -> (r: Vec<String>)
    ensures
        r@.to_multiset() == names@.filter(|s: String| has_prefix(s@, backup_prefix())).to_multiset(),
        lex_sorted(string_views(r@)),
{
    let mut kept: Vec<String> = Vec::new();
    let mut i: usize = 0;
    while i < names.len()
        invariant
            i <= names@.len(),
            kept@ == names@.take(i as int).filter(|s: String| has_prefix(s@, backup_prefix())),
        decreases names.len() - i,
    {
        let ghost before = names@.take(i as int);
        assert(names@.take(i as int + 1) =~= before.push(names@[i as int]));
        proof {
            before.lemma_filter_push(names@[i as int], |s: String| has_prefix(s@, backup_prefix()));
        }
        if is_backup_name(names[i].as_str()) {
            kept.push(copy_string(&names[i]));
        }
        i = i + 1;
    }
    assert(names@.take(names@.len() as int) =~= names@);
    sort_strings(&kept)
}

/// The backups a rotation deletes: with more than `keep` backups (oldest
/// first), the oldest ones beyond the newest `keep`; none otherwise.
pub fn rotation_victims(files: &Vec<String>, keep: u64) -> (r: Vec<String>)
    ensures
        files@.len() > keep ==> r@ == files@.take(files@.len() - keep),
        files@.len() <= keep ==> r@.len() == 0,
{
    let mut r: Vec<String> = Vec::new();
    if (files.len() as u64) <= keep {
        return r;
    }
    let n: usize = files.len() - (keep as usize);
    let mut i: usize = 0;
    while i < n
        invariant
            i <= n,
            n == files@.len() - keep,
            r@ == files@.take(i as int),
        decreases n - i,
    {
        r.push(files[i].clone());
        assert(files@.take(i as int + 1) =~= files@.take(i as int).push(files@[i as int]));
        i = i + 1;
    }
    r
}

/// The newest modification time among the backups; `None` when there are none.
pub fn newest_backup_mtime(mtimes: &Vec<i64>) -> (r: Option<i64>)
    ensures
        r is None <==> mtimes@.len() == 0,
        r matches Some(m) ==> mtimes@.contains(m) && forall|k: int|
            0 <= k < mtimes@.len() ==> mtimes@[k] <= m,
{
    if mtimes.len() == 0 {
        return None;
    }
    let mut best: i64 = mtimes[0];
    let mut i: usize = 1;
    assert(mtimes@.take(1)[0] == best);
    while i < mtimes.len()
        invariant
            1 <= i <= mtimes@.len(),
            mtimes@.take(i as int).contains(best),
            forall|k: int| 0 <= k < i ==> mtimes@[k] <= best,
        decreases mtimes.len() - i,
    {
        assert(mtimes@.take(i as int + 1) =~= mtimes@.take(i as int).push(mtimes@[i as int]));
        if mtimes[i] > best {
            best = mtimes[i];
            assert(mtimes@.take(i as int + 1)[i as int] == best);
        }
        i = i + 1;
    }
    assert(mtimes@.take(mtimes@.len() as int) =~= mtimes@);
    Some(best)
}

} // verus!

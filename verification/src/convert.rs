//! Converting archives to CBZ in place: where the CBZ goes, whether an
//! archive is converted (renamed or repacked) or skipped, and the job's
//! progress.

use vstd::prelude::*;
use crate::json::{count_model, count_value, model, object, object_of, string_array, text_array, JsonModel, JsonValue};
use crate::paths::{path_join, join_path, with_cbz, with_cbz_extension};
use crate::text::{chars_eq, chars_of, dec_int, push_str};

verus! {

/// Where an archive's CBZ goes: the same path with the extension `cbz`.
pub fn convert_target(path: &str) -> (r: String)
    ensures
        r@ == with_cbz(path@),
{
    with_cbz_extension(path)
}

/// What converting one archive does.
#[derive(PartialEq, Eq, Structural, Debug)]
pub enum ConvertStep {
    /// Nothing: the source is gone, already a CBZ, or the target is taken.
    Skip,
    /// A ZIP is already a valid CBZ: rename it.
    Rename,
    /// Any other archive: repack its pages into a new CBZ, then delete it.
    Repack,
}

/// The step for one archive: skipped when the source is not a file, when
/// the target is the source itself, when the target exists on disk, or when
/// another archive of the library has that path; otherwise a ZIP is renamed
/// and anything else repacked.
pub open spec fn convert_step_of(
    path: Seq<char>,
    archive_type: Seq<char>,
    source_is_file: bool,
    target_exists: bool,
    target_in_library: bool,
) -> ConvertStep {
    if !source_is_file || with_cbz(path) == path || target_exists || target_in_library {
        ConvertStep::Skip
    } else if archive_type == "zip"@ {
        ConvertStep::Rename
    } else {
        ConvertStep::Repack
    }
}

/// Decides the step for one archive (see [`convert_step_of`]).
pub fn convert_step(
    path: &str,
    archive_type: &str,
    source_is_file: bool,
    target_exists: bool,
    target_in_library: bool,
) -> (r: ConvertStep)
    ensures
        r == convert_step_of(path@, archive_type@, source_is_file, target_exists, target_in_library),
{
    if !source_is_file {
        return ConvertStep::Skip;
    }
    let target = with_cbz_extension(path);
    let t = chars_of(target.as_str());
    let p = chars_of(path);
    if chars_eq(t.as_slice(), p.as_slice()) || target_exists || target_in_library {
        return ConvertStep::Skip;
    }
    let a = chars_of(archive_type);
    let z = chars_of("zip");
    if chars_eq(a.as_slice(), z.as_slice()) {
        ConvertStep::Rename
    } else {
        ConvertStep::Repack
    }
}

/// Only a ZIP is renamed into a CBZ: every other archive that is not
/// skipped (a RAR, a 7z, a folder...) has its pages repacked. An archive is
/// skipped exactly when its file is gone, it already has the CBZ name, or
/// the CBZ name is taken on disk or in the library.
pub proof fn law_only_zip_is_renamed(
    path: Seq<char>,
    archive_type: Seq<char>,
    source_is_file: bool,
    target_exists: bool,
    target_in_library: bool,
)
    ensures
        ({
            let step = convert_step_of(path, archive_type, source_is_file, target_exists, target_in_library);
            let skipped = !source_is_file || with_cbz(path) == path || target_exists || target_in_library;
            &&& (step == ConvertStep::Skip) == skipped
            &&& step == ConvertStep::Rename ==> archive_type == "zip"@
            &&& !skipped && archive_type != "zip"@ ==> step == ConvertStep::Repack
            &&& !skipped && archive_type == "zip"@ ==> step == ConvertStep::Rename
        }),
{
}

/// The cache directories of an archive that a conversion clears: its
/// extraction, page thumbnails and cover thumbnail directories.
pub fn stale_cache_dirs(data_dir: &str, id: i64) -> (r: Vec<String>)
    ensures
        r@.len() == 3,
        r@[0]@ == path_join(path_join(data_dir@, "extract"@), dec_int(id as int)),
        r@[1]@ == path_join(path_join(data_dir@, "page_thumbs"@), dec_int(id as int)),
        r@[2]@ == path_join(path_join(data_dir@, "thumbnails"@), dec_int(id as int)),
{
    let name = crate::text::i64_to_string(id);
    let mut r: Vec<String> = Vec::new();
    let e = join_path(data_dir, "extract");
    r.push(join_path(e.as_str(), name.as_str()));
    let p = join_path(data_dir, "page_thumbs");
    r.push(join_path(p.as_str(), name.as_str()));
    let t = join_path(data_dir, "thumbnails");
    r.push(join_path(t.as_str(), name.as_str()));
    r
}

/// The archives a conversion is asked for: the given ids, or all
/// convertible archives when none (or an empty list) is given.
pub fn requested_ids(ids: Option<Vec<i64>>) -> (r: Option<Vec<i64>>)
    ensures
        match ids {
            Some(v) => if v@.len() > 0 {
                r == Some(v)
            } else {
                r is None
            },
            None => r is None,
        },
{
    match ids {
        Some(v) => if v.len() > 0 {
            Some(v)
        } else {
            None
        },
        None => None,
    }
}

/// The number of conversion workers: the hardware's parallelism (2 when
/// unknown), kept between 1 and 3, and no more than the number of tasks
/// (at least 1).
pub fn worker_count(tasks: usize, hardware: Option<usize>) -> (r: usize)
    ensures
        ({
            let hw = match hardware {
                Some(h) => h as int,
                None => 2,
            };
            let clamped = if hw < 1 {
                1
            } else if hw > 3 {
                3
            } else {
                hw
            };
            let cap = if tasks < 1 {
                1
            } else {
                tasks as int
            };
            r == if clamped < cap {
                clamped
            } else {
                cap
            }
        }),
        1 <= r <= 3,
{
    let hw: usize = match hardware {
        Some(h) => h,
        None => 2,
    };
    let clamped: usize = if hw < 1 {
        1
    } else if hw > 3 {
        3
    } else {
        hw
    };
    let cap: usize = if tasks < 1 {
        1
    } else {
        tasks
    };
    if clamped < cap {
        clamped
    } else {
        cap
    }
}

/// What came of converting one archive.
pub enum ConvertOutcome {
    Converted,
    Skipped,
    /// Failed with this message.
    Failed(String),
}

/// The observable state of a conversion job.
pub struct ConvertJob {
    pub running: bool,
    pub cancel: bool,
    pub total: usize,
    pub done: usize,
    pub converted: usize,
    pub skipped: usize,
    pub failed: usize,
    /// The archive being converted, or a note.
    pub current: String,
    /// `title: error` for each failure.
    pub errors: Vec<String>,
}

/// `n + 1`, wrapping to 0 past the largest value, as an atomic counter does.
pub open spec fn bump(n: usize) -> usize {
    if n == usize::MAX {
        0
    } else {
        (n + 1) as usize
    }
}

fn bumped(n: usize) -> (r: usize)
    ensures
        r == bump(n),
{
    if n == usize::MAX {
        0
    } else {
        n + 1
    }
}

impl ConvertJob {
    /// The job's status document (see [`convert_status_model`]).
    pub fn status(&self) -> (r: JsonValue)
        ensures
            model(r) == convert_status_model(*self),
    {
        let mut m: Vec<(String, JsonValue)> = Vec::new();
        m.push((String::from_str("running"), JsonValue::Bool(self.running)));
        m.push((String::from_str("total"), count_value(self.total)));
        m.push((String::from_str("done"), count_value(self.done)));
        m.push((String::from_str("converted"), count_value(self.converted)));
        m.push((String::from_str("skipped"), count_value(self.skipped)));
        m.push((String::from_str("failed"), count_value(self.failed)));
        m.push((String::from_str("current"), JsonValue::Str(self.current.clone())));
        m.push((String::from_str("errors"), string_array(&self.errors)));
        let ghost mv = m@.map_values(|e: (String, JsonValue)| (e.0@, model(e.1)));
        assert(mv =~= match convert_status_model(*self) {
            JsonModel::Object(x) => x,
            _ => Seq::<(Seq<char>, JsonModel)>::empty(),
        });
        object(m)
    }

    /// A job that has not started.
    pub fn new() -> (r: Self)
        ensures
            !r.running && !r.cancel,
            r.total == 0 && r.done == 0 && r.converted == 0 && r.skipped == 0 && r.failed == 0,
            r.current@.len() == 0,
            r.errors@.len() == 0,
    {
        ConvertJob {
            running: false,
            cancel: false,
            total: 0,
            done: 0,
            converted: 0,
            skipped: 0,
            failed: 0,
            current: String::new(),
            errors: Vec::new(),
        }
    }

    /// Records the outcome of one archive: it is done, and counted as
    /// converted, skipped or failed (a failure listed as `title: message`).
    pub fn record(&mut self, title: &str, outcome: ConvertOutcome)
        ensures
            final(self).done == bump(old(self).done),
            outcome is Converted ==> final(self).converted == bump(old(self).converted)
                && final(self).skipped == old(self).skipped && final(self).failed == old(self).failed
                && final(self).errors == old(self).errors,
            outcome is Skipped ==> final(self).skipped == bump(old(self).skipped)
                && final(self).converted == old(self).converted && final(self).failed == old(self).failed
                && final(self).errors == old(self).errors,
            outcome matches ConvertOutcome::Failed(m) ==> final(self).failed == bump(old(self).failed)
                && final(self).converted == old(self).converted && final(self).skipped == old(self).skipped
                && final(self).errors@.len() == old(self).errors@.len() + 1
                && final(self).errors@.take(old(self).errors@.len() as int) == old(self).errors@
                && final(self).errors@.last()@ == title@ + ": "@ + m@,
            final(self).total == old(self).total,
            final(self).running == old(self).running,
            final(self).cancel == old(self).cancel,
    {
        match outcome {
            ConvertOutcome::Converted => {
                self.converted = bumped(self.converted);
            },
            ConvertOutcome::Skipped => {
                self.skipped = bumped(self.skipped);
            },
            ConvertOutcome::Failed(m) => {
                self.failed = bumped(self.failed);
                let mut line = String::from_str(title);
                push_str(&mut line, ": ");
                push_str(&mut line, m.as_str());
                let ghost before = self.errors@;
                self.errors.push(line);
                assert(self.errors@.take(before.len() as int) =~= before);
            },
        }
        self.done = bumped(self.done);
    }
}

/// The job's status as sent to clients: an object with running, total, done, converted, skipped, failed, current, errors.
pub open spec fn convert_status_model(j: ConvertJob) -> JsonModel {
    object_of(
        seq![
            ("running"@, JsonModel::Bool(j.running)),
            ("total"@, count_model(j.total)),
            ("done"@, count_model(j.done)),
            ("converted"@, count_model(j.converted)),
            ("skipped"@, count_model(j.skipped)),
            ("failed"@, count_model(j.failed)),
            ("current"@, JsonModel::Str(j.current@)),
            ("errors"@, text_array(j.errors@)),
        ],
    )
}

} // verus!

//! Working with the external extractors (`unrar`, `7z`): the command lines
//! they are given, the check of a page name before it reaches them, and the
//! audit of what a whole-archive extraction wrote.

use vstd::prelude::*;
use crate::media::{is_safe_page_name, safe_page_name};
use crate::paths::{path_is_within, within};
use crate::text::{dec, push_str, push_u64};

verus! {

// ---------------------------------------------------------------------------
// Command lines
// ---------------------------------------------------------------------------

/// The texts of a command line.
pub open spec fn arg_texts(v: Seq<String>) -> Seq<Seq<char>> {
    v.map_values(|s: String| s@)
}

fn args_of(parts: &[&str]) -> (r: Vec<String>)
    ensures
        r@.len() == parts@.len(),
        forall|i: int| 0 <= i < parts@.len() ==> #[trigger] r@[i]@ == parts@[i]@,
{
    let mut r: Vec<String> = Vec::new();
    let mut i: usize = 0;
    while i < parts.len()
        invariant
            i <= parts@.len(),
            r@.len() == i,
            forall|k: int| 0 <= k < i ==> #[trigger] r@[k]@ == parts@[k]@,
        decreases parts.len() - i,
    {
        r.push(String::from_str(parts[i]));
        i = i + 1;
    }
    r
}

/// `unrar lb <archive>`: the bare list of entry names.
pub fn unrar_list_args(archive: &str) -> (r: Vec<String>)
    ensures
        arg_texts(r@) == seq!["lb"@, archive@],
{
    let r = args_of(&["lb", archive]);
    assert(arg_texts(r@) =~= seq!["lb"@, archive@]);
    r
}

/// `unrar x -o+ -y <archive> <dir>`: the whole archive into `dir`,
/// overwriting, answering yes.
pub fn unrar_extract_all_args(archive: &str, dir: &str) -> (r: Vec<String>)
    ensures
        arg_texts(r@) == seq!["x"@, "-o+"@, "-y"@, archive@, dir@],
{
    let r = args_of(&["x", "-o+", "-y", archive, dir]);
    assert(arg_texts(r@) =~= seq!["x"@, "-o+"@, "-y"@, archive@, dir@]);
    r
}

/// `unrar x <archive> <page> <dest> -o+`: one page into `dest`. The page
/// name must be safe (see [`safe_page_name`]), so it never reads as a
/// switch.
pub fn unrar_extract_one_args(archive: &str, page: &str, dest: &str) -> (r: Vec<String>)
    requires
        safe_page_name(page@),
    ensures
        arg_texts(r@) == seq!["x"@, archive@, page@, dest@, "-o+"@],
        r@[2]@[0] != '-',
{
    let r = args_of(&["x", archive, page, dest, "-o+"]);
    assert(arg_texts(r@) =~= seq!["x"@, archive@, page@, dest@, "-o+"@]);
    r
}

/// `7z l <archive>`: the technical listing of the archive.
pub fn sevenz_list_args(archive: &str) -> (r: Vec<String>)
    ensures
        arg_texts(r@) == seq!["l"@, archive@],
{
    let r = args_of(&["l", archive]);
    assert(arg_texts(r@) =~= seq!["l"@, archive@]);
    r
}

/// `-o<dir>`: 7-Zip's output directory switch.
pub open spec fn output_switch(dir: Seq<char>) -> Seq<char> {
    "-o"@ + dir
}

fn output_switch_exec(dir: &str) -> (r: String)
    ensures
        r@ == output_switch(dir@),
{
    let mut s = String::from_str("-o");
    push_str(&mut s, dir);
    s
}

/// `7z x -y <archive> -o<dir>`: the whole archive into `dir`.
pub fn sevenz_extract_all_args(archive: &str, dir: &str) -> (r: Vec<String>)
    ensures
        arg_texts(r@) == seq!["x"@, "-y"@, archive@, output_switch(dir@)],
{
    let o = output_switch_exec(dir);
    let r = args_of(&["x", "-y", archive, o.as_str()]);
    assert(arg_texts(r@) =~= seq!["x"@, "-y"@, archive@, output_switch(dir@)]);
    r
}

/// `7z x <archive> -o<dest> <page> -y`: one page into `dest`. The page name
/// must be safe (see [`safe_page_name`]), so it never reads as a switch.
pub fn sevenz_extract_one_args(archive: &str, dest: &str, page: &str) -> (r: Vec<String>)
    requires
        safe_page_name(page@),
    ensures
        arg_texts(r@) == seq!["x"@, archive@, output_switch(dest@), page@, "-y"@],
        r@[3]@[0] != '-',
{
    let o = output_switch_exec(dest);
    let r = args_of(&["x", archive, o.as_str(), page, "-y"]);
    assert(arg_texts(r@) =~= seq!["x"@, archive@, output_switch(dest@), page@, "-y"@]);
    r
}

/// Checks a page name before an extraction: refused unless safe (see
/// [`safe_page_name`]), with `Unsafe page name rejected: <name>`.
pub fn check_page_name(name: &str) -> (r: Result<(), String>)
    ensures
        r is Ok <==> safe_page_name(name@),
        r matches Err(m) ==> m@ == "Unsafe page name rejected: "@ + name@,
{
    if is_safe_page_name(name) {
        Ok(())
    } else {
        let mut m = String::from_str("Unsafe page name rejected: ");
        push_str(&mut m, name);
        Err(m)
    }
}

// ---------------------------------------------------------------------------
// Auditing an extraction
// ---------------------------------------------------------------------------

/// The most entries an extraction tree may hold.
pub const MAX_AUDITED_ENTRIES: usize = 100000;

/// The most bytes an extraction tree may hold (32 GiB).
pub const MAX_EXTRACT_TOTAL_BYTES: u64 = 34359738368;

/// Why an extraction tree is rejected.
pub enum AuditError {
    /// An entry resolves outside the cache directory.
    Escapes(String),
    /// More than [`MAX_AUDITED_ENTRIES`] entries.
    TooManyEntries,
    /// More than [`MAX_EXTRACT_TOTAL_BYTES`] bytes of files.
    TooLarge(u64),
}

/// The walk over an extraction tree: entries seen and bytes of files so far.
pub struct TreeAudit {
    pub checked: usize,
    pub total_bytes: u64,
}

impl TreeAudit {
    /// A walk that has seen nothing.
    pub fn new() -> (r: Self)
        ensures
            r.checked == 0,
            r.total_bytes == 0,
    {
        TreeAudit { checked: 0, total_bytes: 0 }
    }

    /// Records one entry, given by its resolved path, whether it is a
    /// directory and its size. The entry is rejected when it resolves
    /// outside `base` (nothing is counted then); otherwise a file's size is
    /// added, the entry counted, and the walk rejected once it has seen too
    /// many entries or too many bytes.
    pub fn visit(&mut self, base: &str, resolved: &str, is_dir: bool, size: u64) -> (r: Result<(), AuditError>)
        requires
            old(self).checked < usize::MAX,
            !is_dir ==> old(self).total_bytes + size <= u64::MAX,
        ensures
            !within(base@, resolved@) ==> (r matches Err(AuditError::Escapes(p)) && p@ == resolved@)
                && *final(self) == *old(self),
            within(base@, resolved@) ==> {
                &&& final(self).checked == old(self).checked + 1
                &&& final(self).total_bytes == if is_dir {
                    old(self).total_bytes as int
                } else {
                    old(self).total_bytes + size
                }
                &&& final(self).checked > MAX_AUDITED_ENTRIES ==> (r matches Err(AuditError::TooManyEntries))
                &&& final(self).checked <= MAX_AUDITED_ENTRIES && final(self).total_bytes
                    > MAX_EXTRACT_TOTAL_BYTES ==> (r matches Err(AuditError::TooLarge(t)) && t
                    == final(self).total_bytes)
                &&& final(self).checked <= MAX_AUDITED_ENTRIES && final(self).total_bytes
                    <= MAX_EXTRACT_TOTAL_BYTES ==> r is Ok
            },
    {
        if !path_is_within(base, resolved) {
            return Err(AuditError::Escapes(String::from_str(resolved)));
        }
        if !is_dir {
            self.total_bytes = self.total_bytes + size;
        }
        self.checked = self.checked + 1;
        if self.checked > MAX_AUDITED_ENTRIES {
            return Err(AuditError::TooManyEntries);
        }
        if self.total_bytes > MAX_EXTRACT_TOTAL_BYTES {
            return Err(AuditError::TooLarge(self.total_bytes));
        }
        Ok(())
    }
}

/// The message of a rejected extraction tree.
pub open spec fn audit_error_text(e: AuditError) -> Seq<char> {
    match e {
        AuditError::Escapes(p) => "extracted entry escapes cache dir: "@ + p@,
        AuditError::TooManyEntries => "extraction tree too large, aborting validation"@,
        AuditError::TooLarge(t) => "extraction tree too large ("@ + dec(t as nat) + " bytes > 34359738368), aborting validation"@,
    }
}

/// The message of a rejected extraction tree (see [`audit_error_text`]).
pub fn audit_error_message(e: &AuditError) -> (r: String)
    ensures
        r@ == audit_error_text(*e),
{
    match e {
        AuditError::Escapes(p) => {
            let mut m = String::from_str("extracted entry escapes cache dir: ");
            push_str(&mut m, p.as_str());
            m
        },
        AuditError::TooManyEntries => String::from_str("extraction tree too large, aborting validation"),
        AuditError::TooLarge(t) => {
            let mut m = String::from_str("extraction tree too large (");
            push_u64(&mut m, *t);
            push_str(&mut m, " bytes > 34359738368), aborting validation");
            m
        },
    }
}

} // verus!

//! Packing a folder of images into a CBZ file: which files go in and in
//! what order, what the file is called, where it goes, and the listing of
//! the packed files.

use vstd::prelude::*;
use crate::archive::{natural_sort, naturally_sorted, text_bag, texts};
use crate::media::{is_image_file, is_image_name};
use crate::paths::{extension, extension_of_path, file_name, file_name_chars};
use crate::text::{chars_eq, chars_of, dec, push_str, push_u64, string_from_chars};

verus! {

/// Why a folder cannot be packed.
#[derive(Clone, Copy, PartialEq, Eq, Structural, Debug)]
pub enum PackError {
    /// The path does not exist.
    Missing,
    /// The path is not a folder.
    NotAFolder,
    /// The folder holds nothing.
    Empty,
    /// The folder holds no image file.
    NoImages,
}

/// The message of a packing error for the folder at `path`.
pub open spec fn pack_error_text(e: PackError, path: Seq<char>) -> Seq<char> {
    match e {
        PackError::Missing => "路径不存在: "@ + path,
        PackError::NotAFolder => "路径不是文件夹: "@ + path,
        PackError::Empty => "无法打包：该文件夹为空"@,
        PackError::NoImages => "无法打包：未在当前目录找到有效的漫画图片"@,
    }
}

/// The message of a packing error (see [`pack_error_text`]).
pub fn pack_error_message(e: PackError, path: &str) -> (r: String)
    ensures
        r@ == pack_error_text(e, path@),
{
    match e {
        PackError::Missing => {
            let mut m = String::from_str("路径不存在: ");
            push_str(&mut m, path);
            m
        },
        PackError::NotAFolder => {
            let mut m = String::from_str("路径不是文件夹: ");
            push_str(&mut m, path);
            m
        },
        PackError::Empty => String::from_str("无法打包：该文件夹为空"),
        PackError::NoImages => String::from_str("无法打包：未在当前目录找到有效的漫画图片"),
    }
}

/// One entry of a folder: its file name and whether it is a regular file.
pub struct FolderEntry {
    pub name: String,
    pub is_file: bool,
}

/// The entries that go into the archive: regular files named as images.
pub open spec fn is_page_entry(e: FolderEntry) -> bool {
    e.is_file && is_image_name(e.name@)
}

/// The names of the page entries, in folder order.
pub open spec fn page_entry_names(entries: Seq<FolderEntry>) -> Seq<Seq<char>> {
    entries.filter(|e: FolderEntry| is_page_entry(e)).map_values(|e: FolderEntry| e.name@)
}

/// The images of a folder to pack, in natural order: an error when the
/// path is missing, is not a folder, is an empty folder, or holds no image
/// file (the first of these that applies); otherwise the names of the
/// image files, each no later than the next in natural order.
pub fn select_images(exists: bool, is_dir: bool, entries: &Vec<FolderEntry>) -> (r: Result<Vec<String>, PackError>)
    ensures
        !exists ==> r == Err::<Vec<String>, PackError>(PackError::Missing),
        exists && !is_dir ==> r == Err::<Vec<String>, PackError>(PackError::NotAFolder),
        exists && is_dir && entries@.len() == 0 ==> r == Err::<Vec<String>, PackError>(PackError::Empty),
        exists && is_dir && entries@.len() > 0 && page_entry_names(entries@).len() == 0 ==> r == Err::<
            Vec<String>,
            PackError,
        >(PackError::NoImages),
        r is Ok ==> exists && is_dir && page_entry_names(entries@).len() > 0,
        r matches Ok(names) ==> text_bag(names@) == page_entry_names(entries@).to_multiset()
            && naturally_sorted(texts(names@)),
{
    if !exists {
        return Err(PackError::Missing);
    }
    if !is_dir {
        return Err(PackError::NotAFolder);
    }
    if entries.len() == 0 {
        return Err(PackError::Empty);
    }
    let mut images: Vec<String> = Vec::new();
    let mut i: usize = 0;
    while i < entries.len()
        invariant
            i <= entries@.len(),
            texts(images@) == page_entry_names(entries@.take(i as int)),
        decreases entries.len() - i,
    {
        let ghost before = entries@.take(i as int);
        assert(entries@.take(i as int + 1) =~= before.push(entries@[i as int]));
        proof {
            before.lemma_filter_push(entries@[i as int], |e: FolderEntry| is_page_entry(e));
        }
        if entries[i].is_file && is_image_file(entries[i].name.as_str()) {
            let ghost tb = texts(images@);
            images.push(entries[i].name.clone());
            assert(texts(images@) =~= tb.push(entries@[i as int].name@));
            assert(page_entry_names(entries@.take(i as int + 1)) =~= page_entry_names(before).push(
                entries@[i as int].name@,
            ));
        } else {
            assert(page_entry_names(entries@.take(i as int + 1)) =~= page_entry_names(before));
        }
        i = i + 1;
    }
    assert(entries@.take(entries@.len() as int) =~= entries@);
    if images.len() == 0 {
        return Err(PackError::NoImages);
    }
    let sorted = natural_sort(images);
    Ok(sorted)
}

/// The file name of the packed archive: the folder's name (empty when it
/// has none) then `.cbz`; when that file exists, `_1`, `_2`, ... before the
/// extension, for the `attempt`-th try.
pub open spec fn cbz_name(folder: Seq<char>, attempt: nat) -> Seq<char> {
    let base = match file_name(folder) {
        Some(n) => n,
        None => Seq::<char>::empty(),
    };
    if attempt == 0 {
        base + ".cbz"@
    } else {
        base + "_"@ + dec(attempt) + ".cbz"@
    }
}

/// The file name for the `attempt`-th try (see [`cbz_name`]).
pub fn cbz_file_name(folder_path: &str, attempt: u32) -> (r: String)
    ensures
        r@ == cbz_name(folder_path@, attempt as nat),
{
    let v = chars_of(folder_path);
    let mut r = match file_name_chars(v.as_slice()) {
        Some(n) => string_from_chars(n.as_slice()),
        None => String::new(),
    };
    if attempt > 0 {
        push_str(&mut r, "_");
        push_u64(&mut r, attempt as u64);
    }
    push_str(&mut r, ".cbz");
    r
}

/// Where a pack goes: the requested directory when given and not empty,
/// else the `cbz_export_dir` setting when set and not empty, else nowhere
/// (the request is refused).
pub fn cbz_output_dir(requested: Option<&str>, setting: Option<&str>) -> (r: Option<String>)
    ensures
        match requested {
            Some(d) if d@.len() > 0 => r matches Some(x) && x@ == d@,
            _ => match setting {
                Some(s) if s@.len() > 0 => r matches Some(x) && x@ == s@,
                _ => r is None,
            },
        },
{
    match requested {
        Some(d) => if !d.is_empty() {
            return Some(String::from_str(d));
        },
        None => {},
    }
    match setting {
        Some(s) => if !s.is_empty() {
            Some(String::from_str(s))
        } else {
            None
        },
        None => None,
    }
}

/// Whether a directory entry is listed as a packed file: a regular file
/// whose extension is exactly `cbz`.
pub fn is_cbz_file(name: &str, is_file: bool) -> (r: bool)
    ensures
        r == (is_file && extension(name@) == Some("cbz"@)),
{
    if !is_file {
        return false;
    }
    let v = chars_of(name);
    let cbz = chars_of("cbz");
    match extension_of_path(v.as_slice()) {
        Some(e) => chars_eq(e.as_slice(), cbz.as_slice()),
        None => false,
    }
}

/// A packed file of the export directory.
pub struct CbzFile {
    pub name: String,
    pub path: String,
    pub size: u64,
    /// Modification time in seconds since the epoch.
    pub modified: u64,
}

impl CbzFile {
    /// An exact copy.
    pub fn copy(&self) -> (r: Self)
        ensures
            r == *self,
    {
        CbzFile { name: self.name.clone(), path: self.path.clone(), size: self.size, modified: self.modified }
    }
}

/// Newest first: no file is older than the one that follows it.
pub open spec fn newest_first(s: Seq<CbzFile>) -> bool {
    forall|i: int, j: int| 0 <= i < j < s.len() ==> (#[trigger] s[i]).modified >= (#[trigger] s[j]).modified
}

/// Where a file goes among files already ordered newest first: after the
/// last one that is not older (0 when all are).
pub open spec fn cbz_slot(s: Seq<CbzFile>, x: CbzFile) -> nat
    decreases s.len(),
{
    if s.len() == 0 {
        0
    } else if s.last().modified < x.modified {
        cbz_slot(s.drop_last(), x)
    } else {
        s.len()
    }
}

/// The packed files newest first: each, in turn, goes after the last file
/// already placed that is not older, so files of the same time keep their
/// order (a stable sort by time, descending).
pub open spec fn newest_cbz_order(files: Seq<CbzFile>) -> Seq<CbzFile>
    decreases files.len(),
{
    if files.len() == 0 {
        Seq::<CbzFile>::empty()
    } else {
        let placed = newest_cbz_order(files.drop_last());
        placed.insert(cbz_slot(placed, files.last()) as int, files.last())
    }
}

/// Orders packed files newest first (see [`newest_cbz_order`]).
pub fn newest_cbz_first(files: &Vec<CbzFile>) -> (r: Vec<CbzFile>)
    ensures
        r@ == newest_cbz_order(files@),
        r@.to_multiset() == files@.to_multiset(),
        newest_first(r@),
{
    let mut out: Vec<CbzFile> = Vec::new();
    let mut k: usize = 0;
    assert(files@.take(0) =~= Seq::<CbzFile>::empty());
    while k < files.len()
        invariant
            k <= files@.len(),
            out@.to_multiset() == files@.take(k as int).to_multiset(),
            newest_first(out@),
            out@ == newest_cbz_order(files@.take(k as int)),
        decreases files.len() - k,
    {
        let x = files[k].copy();
        let mut p: usize = out.len();
        let ghost placed = out@;
        assert(placed.take(p as int) =~= placed);
        while p > 0 && out[p - 1].modified < x.modified
            invariant
                p <= out@.len(),
                placed == out@,
                newest_first(out@),
                forall|q: int| p <= q < out@.len() ==> (#[trigger] out@[q]).modified < x.modified,
                cbz_slot(placed, x) == cbz_slot(placed.take(p as int), x),
            decreases p,
        {
            assert(placed.take(p as int).drop_last() =~= placed.take(p - 1));
            p = p - 1;
        }
        assert(cbz_slot(placed, x) == p);
        let ghost before = out@;
        out.insert(p, x);
        proof {
            assert(files@.take(k as int + 1).drop_last() =~= files@.take(k as int));
            assert(x == files@[k as int]);
            let t = out@;
            assert(t =~= before.insert(p as int, x));
            assert forall|i: int, j: int| 0 <= i < j < t.len() implies (#[trigger] t[i]).modified >= (#[trigger] t[j]).modified by {
                if j < p {
                    assert(t[i] == before[i] && t[j] == before[j]);
                } else if j == p {
                    assert(t[i] == before[i]);
                    assert(before[i].modified >= before[p - 1].modified);
                } else if i < p {
                    assert(t[i] == before[i] && t[j] == before[j - 1]);
                    if i < p - 1 {
                        assert(before[i].modified >= before[p - 1].modified);
                    }
                    assert(before[p - 1].modified >= x.modified);
                } else if i == p {
                    assert(t[i] == x && t[j] == before[j - 1]);
                } else {
                    assert(t[i] == before[i - 1] && t[j] == before[j - 1]);
                }
            }
            vstd::seq_lib::to_multiset_insert(before, p as int, x);
            assert(files@.take(k as int + 1) =~= files@.take(k as int).push(files@[k as int]));
            vstd::seq_lib::to_multiset_build(files@.take(k as int), files@[k as int]);
        }
        k = k + 1;
    }
    assert(files@.take(files@.len() as int) =~= files@);
    out
}

} // verus!

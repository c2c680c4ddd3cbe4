//! What counts as a page image and as an archive: file extensions, archive
//! types, archive file signatures and safe entry names.

use vstd::prelude::*;
use crate::paths::{
    components, components_exec, dot_dot, extension, extension_of_path, lemma_segment_len,
    seq_prefix,
};
use crate::text::{
    chars_eq, chars_of, lower_chars, lower_seq, seqs_of, string_from_chars, to_lowercase,
    unicode_lower,
};

verus! {

/// The image extensions a page may have (compared after lower-casing).
pub open spec fn image_extensions() -> Seq<Seq<char>> {
    seq![
        seq!['j', 'p', 'g'],
        seq!['j', 'p', 'e', 'g'],
        seq!['p', 'n', 'g'],
        seq!['g', 'i', 'f'],
        seq!['w', 'e', 'b', 'p'],
        seq!['b', 'm', 'p'],
        seq!['t', 'i', 'f', 'f'],
        seq!['a', 'v', 'i', 'f'],
    ]
}

/// A file name is an image page: it has an extension whose lower-case form
/// is one of [`image_extensions`].
pub open spec fn is_image_name(name: Seq<char>) -> bool {
    match extension(name) {
        Some(e) => image_extensions().contains(unicode_lower(e)),
        None => false,
    }
}

fn ext_in_list(e: &str) -> (r: bool)
    ensures
        r == image_extensions().contains(e@),
{
    let v = chars_of(e);
    let exts: [&str; 8] = ["jpg", "jpeg", "png", "gif", "webp", "bmp", "tiff", "avif"];
    let mut i: usize = 0;
    proof {
        reveal_strlit("jpg");
        reveal_strlit("jpeg");
        reveal_strlit("png");
        reveal_strlit("gif");
        reveal_strlit("webp");
        reveal_strlit("bmp");
        reveal_strlit("tiff");
        reveal_strlit("avif");
    }
    assert(forall|k: int| 0 <= k < 8 ==> #[trigger] exts@[k]@ == image_extensions()[k]);
    while i < 8
        invariant
            i <= 8,
            v@ == e@,
            forall|k: int| 0 <= k < 8 ==> #[trigger] exts@[k]@ == image_extensions()[k],
            forall|k: int| 0 <= k < i ==> image_extensions()[k] != e@,
        decreases 8 - i,
    {
        let cand = chars_of(exts[i]);
        if chars_eq(cand.as_slice(), v.as_slice()) {
            assert(image_extensions()[i as int] == e@);
            return true;
        }
        i = i + 1;
    }
    assert(image_extensions().len() == 8);
    false
}

/// Whether a file name denotes a page image (by extension, case-insensitively).
pub fn is_image_file(name: &str) -> (r: bool)
    ensures
        r == is_image_name(name@),
{
    let v = chars_of(name);
    match extension_of_path(v.as_slice()) {
        Some(e) => {
            let es = string_from_chars(e.as_slice());
            let lower = to_lowercase(es.as_str());
            ext_in_list(lower.as_str())
        },
        None => false,
    }
}

/// Archive types whose pages sit inside a compressed file.
pub open spec fn compressed_type(t: Seq<char>) -> bool {
    t == seq!['z', 'i', 'p'] || t == seq!['r', 'a', 'r'] || t == seq!['c', 'b', 'z'] || t == seq![
        'c',
        'b',
        'r',
    ] || t == seq!['7', 'z']
}

/// Equality of a string with a literal.
pub fn str_is(s: &str, lit: &str) -> (r: bool)
    ensures
        r == (s@ == lit@),
{
    let a = chars_of(s);
    let b = chars_of(lit);
    chars_eq(a.as_slice(), b.as_slice())
}

/// Whether an archive type is a compressed one (its page list is cached).
pub fn is_compressed(archive_type: &str) -> (r: bool)
    ensures
        r == compressed_type(archive_type@),
{
    proof {
        reveal_strlit("zip");
        reveal_strlit("rar");
        reveal_strlit("cbz");
        reveal_strlit("cbr");
        reveal_strlit("7z");
    }
    let r = str_is(archive_type, "zip") || str_is(archive_type, "rar") || str_is(
        archive_type,
        "cbz",
    ) || str_is(archive_type, "cbr") || str_is(archive_type, "7z");
    assert("zip"@ =~= seq!['z', 'i', 'p']);
    assert("rar"@ =~= seq!['r', 'a', 'r']);
    assert("cbz"@ =~= seq!['c', 'b', 'z']);
    assert("cbr"@ =~= seq!['c', 'b', 'r']);
    assert("7z"@ =~= seq!['7', 'z']);
    r
}

/// Whether `header` starts with the bytes `p`.
pub open spec fn bytes_start_with(header: Seq<u8>, p: Seq<u8>) -> bool {
    seq_prefix(header, p)
}

/// The file signature a stored archive of the given type must open with:
/// `PK` for zip/cbz, `Rar!` for rar/cbr, `7z\xBC\xAF\x27\x1C` for 7z, and
/// `MZ` (a self-extracting executable) for any of them. Other types
/// (folders) never match.
pub open spec fn magic_ok(archive_type: Seq<char>, header: Seq<u8>) -> bool {
    let sfx = bytes_start_with(header, seq![0x4du8, 0x5au8]);
    if archive_type == seq!['z', 'i', 'p'] || archive_type == seq!['c', 'b', 'z'] {
        bytes_start_with(header, seq![0x50u8, 0x4bu8]) || sfx
    } else if archive_type == seq!['r', 'a', 'r'] || archive_type == seq!['c', 'b', 'r'] {
        bytes_start_with(header, seq![0x52u8, 0x61u8, 0x72u8, 0x21u8]) || sfx
    } else if archive_type == seq!['7', 'z'] {
        bytes_start_with(header, seq![0x37u8, 0x7au8, 0xbcu8, 0xafu8, 0x27u8, 0x1cu8]) || sfx
    } else {
        false
    }
}

fn bytes_prefix(header: &[u8], p: &[u8]) -> (r: bool)
    ensures
        r == bytes_start_with(header@, p@),
{
    if p.len() > header.len() {
        return false;
    }
    let mut i: usize = 0;
    while i < p.len()
        invariant
            i <= p.len() <= header.len(),
            forall|j: int| 0 <= j < i ==> header@[j] == p@[j],
        decreases p.len() - i,
    {
        if header[i] != p[i] {
            assert(header@.take(p@.len() as int)[i as int] != p@[i as int]);
            return false;
        }
        i = i + 1;
    }
    assert(header@.take(p@.len() as int) =~= p@);
    true
}

/// Whether a file header matches the archive type it is stored as
/// (see [`magic_ok`]).
pub fn magic_matches(archive_type: &str, header: &[u8]) -> (r: bool)
    ensures
        r == magic_ok(archive_type@, header@),
{
    proof {
        reveal_strlit("zip");
        reveal_strlit("rar");
        reveal_strlit("cbz");
        reveal_strlit("cbr");
        reveal_strlit("7z");
    }
    assert("zip"@ =~= seq!['z', 'i', 'p']);
    assert("rar"@ =~= seq!['r', 'a', 'r']);
    assert("cbz"@ =~= seq!['c', 'b', 'z']);
    assert("cbr"@ =~= seq!['c', 'b', 'r']);
    assert("7z"@ =~= seq!['7', 'z']);
    let mz: [u8; 2] = [0x4d, 0x5a];
    let pk: [u8; 2] = [0x50, 0x4b];
    let rar: [u8; 4] = [0x52, 0x61, 0x72, 0x21];
    let sz: [u8; 6] = [0x37, 0x7a, 0xbc, 0xaf, 0x27, 0x1c];
    assert(mz@ =~= seq![0x4du8, 0x5au8]);
    assert(pk@ =~= seq![0x50u8, 0x4bu8]);
    assert(rar@ =~= seq![0x52u8, 0x61u8, 0x72u8, 0x21u8]);
    assert(sz@ =~= seq![0x37u8, 0x7au8, 0xbcu8, 0xafu8, 0x27u8, 0x1cu8]);
    let sfx = bytes_prefix(header, &mz);
    if str_is(archive_type, "zip") || str_is(archive_type, "cbz") {
        bytes_prefix(header, &pk) || sfx
    } else if str_is(archive_type, "rar") || str_is(archive_type, "cbr") {
        bytes_prefix(header, &rar) || sfx
    } else if str_is(archive_type, "7z") {
        bytes_prefix(header, &sz) || sfx
    } else {
        false
    }
}

/// A page name that can be joined under a cache directory and handed to an
/// external extractor: not empty, no backslash, not starting with `-` or
/// `/`, and no `..` component.
pub open spec fn safe_page_name(name: Seq<char>) -> bool {
    name.len() > 0 && !name.contains('\\') && name[0] != '-' && name[0] != '/'
        && !components(name).contains(dot_dot())
}

/// Whether an archive entry name is safe to extract (see [`safe_page_name`]).
pub fn is_safe_page_name(name: &str) -> (r: bool)
    ensures
        r == safe_page_name(name@),
{
    let v = chars_of(name);
    if v.len() == 0 {
        return false;
    }
    let mut i: usize = 0;
    while i < v.len()
        invariant
            i <= v@.len(),
            v@ == name@,
            forall|j: int| 0 <= j < i ==> v@[j] != '\\',
        decreases v.len() - i,
    {
        if v[i] == '\\' {
            assert(v@[i as int] == '\\');
            return false;
        }
        i = i + 1;
    }
    if v[0] == '-' || v[0] == '/' {
        return false;
    }
    let cs = components_exec(v.as_slice());
    let dd: [char; 2] = ['.', '.'];
    assert(dd@ =~= dot_dot());
    let mut k: usize = 0;
    while k < cs.len()
        invariant
            k <= cs@.len(),
            seqs_of(cs@) == components(name@),
            dd@ == dot_dot(),
            forall|j: int| 0 <= j < k ==> seqs_of(cs@)[j] != dot_dot(),
        decreases cs.len() - k,
    {
        if chars_eq(cs[k].as_slice(), &dd) {
            assert(seqs_of(cs@)[k as int] == dot_dot());
            return false;
        }
        k = k + 1;
    }
    true
}

/// Zip and cbz share a format, as do rar and cbr; 7z stands alone: the type
/// and the (ASCII lower-cased) extension of the path belong to the same family.
pub open spec fn type_matches_extension(archive_type: Seq<char>, path: Seq<char>) -> bool {
    let ext = match extension(path) {
        Some(e) => lower_seq(e),
        None => Seq::<char>::empty(),
    };
    if archive_type == seq!['z', 'i', 'p'] || archive_type == seq!['c', 'b', 'z'] {
        ext == seq!['z', 'i', 'p'] || ext == seq!['c', 'b', 'z']
    } else if archive_type == seq!['r', 'a', 'r'] || archive_type == seq!['c', 'b', 'r'] {
        ext == seq!['r', 'a', 'r'] || ext == seq!['c', 'b', 'r']
    } else if archive_type == seq!['7', 'z'] {
        ext == seq!['7', 'z']
    } else {
        false
    }
}

/// Whether the path's extension belongs to the archive type's family
/// (see [`type_matches_extension`]).
pub fn extension_matches_type(archive_type: &str, path: &str) -> (r: bool)
    ensures
        r == type_matches_extension(archive_type@, path@),
{
    proof {
        reveal_strlit("zip");
        reveal_strlit("rar");
        reveal_strlit("cbz");
        reveal_strlit("cbr");
        reveal_strlit("7z");
    }
    assert("zip"@ =~= seq!['z', 'i', 'p']);
    assert("rar"@ =~= seq!['r', 'a', 'r']);
    assert("cbz"@ =~= seq!['c', 'b', 'z']);
    assert("cbr"@ =~= seq!['c', 'b', 'r']);
    assert("7z"@ =~= seq!['7', 'z']);
    let pv = chars_of(path);
    let ext: Vec<char> = match extension_of_path(pv.as_slice()) {
        Some(e) => lower_chars(e.as_slice()),
        None => Vec::new(),
    };
    let es = string_from_chars(ext.as_slice());
    if str_is(archive_type, "zip") || str_is(archive_type, "cbz") {
        str_is(es.as_str(), "zip") || str_is(es.as_str(), "cbz")
    } else if str_is(archive_type, "rar") || str_is(archive_type, "cbr") {
        str_is(es.as_str(), "rar") || str_is(es.as_str(), "cbr")
    } else if str_is(archive_type, "7z") {
        str_is(es.as_str(), "7z")
    } else {
        false
    }
}

/// Whether an archive of this type is still on disk: folders must be
/// directories, every other type a regular file.
pub open spec fn exists_as(archive_type: Seq<char>, is_dir: bool, is_file: bool) -> bool {
    if archive_type == seq!['f', 'o', 'l', 'd', 'e', 'r'] {
        is_dir
    } else {
        is_file
    }
}

/// Whether the archive is still on disk, given what the file system says of
/// its path (see [`exists_as`]).
pub fn archive_exists(archive_type: &str, is_dir: bool, is_file: bool) -> (r: bool)
    ensures
        r == exists_as(archive_type@, is_dir, is_file),
{
    proof {
        reveal_strlit("folder");
    }
    assert("folder"@ =~= seq!['f', 'o', 'l', 'd', 'e', 'r']);
    if str_is(archive_type, "folder") {
        is_dir
    } else {
        is_file
    }
}

/// The archive type a path denotes: `folder` for a directory, otherwise
/// its lower-cased extension when that is one of zip, cbz, rar, cbr, 7z,
/// otherwise `unknown`.
pub open spec fn archive_type_of(path: Seq<char>, is_dir: bool) -> Seq<char> {
    if is_dir {
        seq!['f', 'o', 'l', 'd', 'e', 'r']
    } else {
        match extension(path) {
            Some(e) => {
                let l = unicode_lower(e);
                if l == seq!['z', 'i', 'p'] || l == seq!['c', 'b', 'z'] || l == seq!['r', 'a', 'r']
                    || l == seq!['c', 'b', 'r'] || l == seq!['7', 'z'] {
                    l
                } else {
                    seq!['u', 'n', 'k', 'n', 'o', 'w', 'n']
                }
            },
            None => seq!['u', 'n', 'k', 'n', 'o', 'w', 'n'],
        }
    }
}

/// Finds archives in a library and tells their type.
pub struct Scanner;

/// A folder whose entries include an image is a folder archive.
pub open spec fn image_folder(names: Seq<String>) -> bool {
    exists|k: int| 0 <= k < names.len() && is_image_name(#[trigger] names[k]@)
}

/// A walked entry is an archive: a directory when it holds an image, a
/// file when its extension is a packed-archive one.
pub open spec fn archive_entry(path: Seq<char>, is_dir: bool, holds_image: bool) -> bool {
    if is_dir {
        holds_image
    } else {
        compressed_type(archive_type_of(path, false))
    }
}

impl Scanner {
    /// A scanner.
    pub fn new() -> (r: Self) {
        Scanner
    }

    /// Whether a folder, given the names of its entries, holds an image
    /// (see [`image_folder`]).
    pub fn is_image_folder(&self, names: &Vec<String>) -> (r: bool)
        ensures
            r == image_folder(names@),
    {
        let mut i: usize = 0;
        while i < names.len()
            invariant
                i <= names@.len(),
                forall|k: int| 0 <= k < i ==> !is_image_name(#[trigger] names@[k]@),
            decreases names.len() - i,
        {
            if is_image_file(names[i].as_str()) {
                return true;
            }
            i = i + 1;
        }
        false
    }

    /// How deep a library scan walks: one level for depth 0, else `depth`.
    pub fn walk_depth(&self, depth: u32) -> (r: u32)
        ensures
            r == if depth == 0 {
                1
            } else {
                depth
            },
    {
        if depth == 0 {
            1
        } else {
            depth
        }
    }

    /// Whether a walked entry is listed as an archive (see [`archive_entry`]).
    pub fn is_archive_entry(&self, path: &str, is_dir: bool, holds_image: bool) -> (r: bool)
        ensures
            r == archive_entry(path@, is_dir, holds_image),
    {
        if is_dir {
            return holds_image;
        }
        let t = self.detect_archive_type(path, false);
        is_compressed(t.as_str())
    }

    /// The archive type of a path, given whether it is a directory
    /// (see [`archive_type_of`]).
    pub fn detect_archive_type(&self, path: &str, is_dir: bool) -> (r: String)
        ensures
            r@ == archive_type_of(path@, is_dir),
    {
        proof {
            reveal_strlit("zip");
            reveal_strlit("rar");
            reveal_strlit("cbz");
            reveal_strlit("cbr");
            reveal_strlit("7z");
            reveal_strlit("folder");
            reveal_strlit("unknown");
        }
        assert("zip"@ =~= seq!['z', 'i', 'p']);
        assert("rar"@ =~= seq!['r', 'a', 'r']);
        assert("cbz"@ =~= seq!['c', 'b', 'z']);
        assert("cbr"@ =~= seq!['c', 'b', 'r']);
        assert("7z"@ =~= seq!['7', 'z']);
        assert("folder"@ =~= seq!['f', 'o', 'l', 'd', 'e', 'r']);
        assert("unknown"@ =~= seq!['u', 'n', 'k', 'n', 'o', 'w', 'n']);
        if is_dir {
            return String::from_str("folder");
        }
        let v = chars_of(path);
        match extension_of_path(v.as_slice()) {
            Some(e) => {
                let es = string_from_chars(e.as_slice());
                let l = to_lowercase(es.as_str());
                let ls = l.as_str();
                if str_is(ls, "zip") || str_is(ls, "cbz") || str_is(ls, "rar") || str_is(ls, "cbr")
                    || str_is(ls, "7z") {
                    l
                } else {
                    String::from_str("unknown")
                }
            },
            None => String::from_str("unknown"),
        }
    }
}

} // verus!

//! Reading archives: which entries are pages and in what order, how the
//! listings of the external extractors are read, the marker that keeps an
//! extraction cache in step with its archive, and which reader an archive
//! type gets.

use vstd::prelude::*;
use vstd::multiset::Multiset;
use crate::media::{is_image_file, is_image_name, is_safe_page_name, safe_page_name};
use crate::models::PageRow;
use crate::paths::{file_name, file_name_chars};
use crate::text::{
    chars_eq, chars_of, dec, dec_int, find_char, first_index_of, has_prefix, is_ws, lemma_first_index_of,
    parse_i64, parse_i64_spec, parse_u64, parse_u64_spec, push_char, push_i64, push_str, push_u64,
    slice_chars, starts_with, string_from_chars, trim_chars, trim_ws,
};

verus! {

// ---------------------------------------------------------------------------
// Natural order
// ---------------------------------------------------------------------------

/// What `natord::compare(a, b)` gives, as -1, 0 or 1: the natural order of
/// file names (digit runs compared as numbers, white space skipped).
pub uninterp spec fn natural_order(a: Seq<char>, b: Seq<char>) -> i8;

/// `natord::compare`: the natural order of two names (-1, 0, 1), named by
/// `natural_order`. The crate's comparison treats both sides alike, so
/// comparing the other way round gives the opposite answer.
#[verifier::external_body]
fn natural_compare(a: &str, b: &str) -> (r: i8)
    ensures
        r == natural_order(a@, b@),
        -1 <= r <= 1,
        natural_order(b@, a@) == -r,
{
    match natord::compare(a, b) {
        std::cmp::Ordering::Less => -1,
        std::cmp::Ordering::Equal => 0,
        std::cmp::Ordering::Greater => 1,
    }
}

/// The texts of a vector of strings.
pub open spec fn texts(v: Seq<String>) -> Seq<Seq<char>> {
    v.map_values(|s: String| s@)
}

/// Names in natural order: no name is naturally after the one that follows it.
pub open spec fn naturally_sorted(s: Seq<Seq<char>>) -> bool {
    forall|i: int| 0 <= i < s.len() - 1 ==> natural_order(#[trigger] s[i], s[i + 1]) <= 0
}

/// Where a name goes among names already in natural order: after the last
/// one that is not naturally after it (0 when all are).
pub open spec fn natural_slot(s: Seq<Seq<char>>, x: Seq<char>) -> nat
    decreases s.len(),
{
    if s.len() == 0 {
        0
    } else if natural_order(s.last(), x) > 0 {
        natural_slot(s.drop_last(), x)
    } else {
        s.len()
    }
}

/// The names in natural order: each, in turn, goes after the last name
/// already placed that is not naturally after it, so names that compare
/// equal keep their relative order.
pub open spec fn natural_insertion(names: Seq<Seq<char>>) -> Seq<Seq<char>>
    decreases names.len(),
{
    if names.len() == 0 {
        Seq::<Seq<char>>::empty()
    } else {
        let placed = natural_insertion(names.drop_last());
        placed.insert(natural_slot(placed, names.last()) as int, names.last())
    }
}

/// Sorts names in natural order (as `sort_by(natord::compare)` does; see
/// [`natural_insertion`]): the result holds the same names, each no later
/// than the next. Names that compare equal keep their relative order.
pub fn natural_sort(v: Vec<String>) -> (r: Vec<String>)
    ensures
        texts(r@) == natural_insertion(texts(v@)),
        text_bag(r@) == text_bag(v@),
        naturally_sorted(texts(r@)),
{
    let mut out: Vec<String> = Vec::new();
    let n = v.len();
    let mut consumed: usize = 0;
    assert(texts(v@.take(0)) =~= Seq::<Seq<char>>::empty());
    assert(texts(out@) =~= Seq::<Seq<char>>::empty());
    while consumed < n
        invariant
            consumed <= n == v@.len(),
            text_bag(out@) == text_bag(v@.take(consumed as int)),
            naturally_sorted(texts(out@)),
            texts(out@) == natural_insertion(texts(v@.take(consumed as int))),
        decreases n - consumed,
    {
        let x = v[consumed].clone();
        let mut p: usize = out.len();
        let ghost ts = texts(out@);
        assert(ts.take(p as int) =~= ts);
        loop
            invariant
                p <= out@.len(),
                ts == texts(out@),
                naturally_sorted(texts(out@)),
                p < out@.len() ==> natural_order(x@, out@[p as int]@) < 0,
                natural_slot(ts, x@) == natural_slot(ts.take(p as int), x@),
            ensures
                p <= out@.len(),
                p > 0 ==> natural_order(out@[p - 1]@, x@) <= 0,
                p < out@.len() ==> natural_order(x@, out@[p as int]@) < 0,
                natural_slot(ts, x@) == p,
            decreases p,
        {
            if p == 0 {
                break;
            }
            let c = natural_compare(out[p - 1].as_str(), x.as_str());
            if c <= 0 {
                assert(ts.take(p as int).last() == ts[p - 1]);
                break;
            }
            assert(ts.take(p as int).drop_last() =~= ts.take(p - 1));
            assert(ts.take(p as int).last() == ts[p - 1]);
            p = p - 1;
        }
        let ghost before = out@;
        let ghost gx = x;
        out.insert(p, x);
        proof {
            let vt = texts(v@.take(consumed as int + 1));
            assert(vt.drop_last() =~= texts(v@.take(consumed as int)));
            assert(vt.last() == gx@);
            assert(texts(out@) =~= ts.insert(p as int, gx@));
            let t = texts(out@);
            assert(t =~= texts(before).insert(p as int, gx@));
            assert forall|i: int| 0 <= i < t.len() - 1 implies natural_order(#[trigger] t[i], t[i + 1]) <= 0 by {
                if i + 1 < p {
                    assert(t[i] == texts(before)[i] && t[i + 1] == texts(before)[i + 1]);
                } else if i + 1 == p {
                    assert(t[i] == before[p - 1]@ && t[i + 1] == gx@);
                } else if i == p {
                    assert(t[i] == gx@ && t[i + 1] == before[p as int]@);
                } else {
                    assert(t[i] == texts(before)[i - 1] && t[i + 1] == texts(before)[i]);
                }
            }
            vstd::seq_lib::to_multiset_insert(texts(before), p as int, gx@);
            vstd::seq_lib::to_multiset_build(texts(v@.take(consumed as int)), v@[consumed as int]@);
            assert(v@.take(consumed as int + 1) =~= v@.take(consumed as int).push(v@[consumed as int]));
            assert(texts(v@.take(consumed as int + 1)) =~= texts(v@.take(consumed as int)).push(
                v@[consumed as int]@,
            ));
        }
        consumed = consumed + 1;
    }
    assert(v@.take(n as int) =~= v@);
    out
}


// ---------------------------------------------------------------------------
// Page lists
// ---------------------------------------------------------------------------

/// The names among `names` that are page images, in order.
pub open spec fn image_names(names: Seq<Seq<char>>) -> Seq<Seq<char>> {
    names.filter(|n: Seq<char>| is_image_name(n))
}

/// The multiset of texts of a vector of strings.
pub open spec fn text_bag(v: Seq<String>) -> Multiset<Seq<char>> {
    texts(v).to_multiset()
}

/// Pages of a ZIP/CBZ archive: the entry names that are images, in
/// natural order.
pub fn zip_page_names(names: &Vec<String>) -> (r: Vec<String>)
    ensures
        texts(r@) == natural_insertion(image_names(texts(names@))),
        text_bag(r@) == image_names(texts(names@)).to_multiset(),
        naturally_sorted(texts(r@)),
{
    let mut kept: Vec<String> = Vec::new();
    let mut i: usize = 0;
    while i < names.len()
        invariant
            i <= names@.len(),
            texts(kept@) == image_names(texts(names@).take(i as int)),
        decreases names.len() - i,
    {
        let ghost before = texts(names@).take(i as int);
        assert(texts(names@).take(i as int + 1) =~= before.push(names@[i as int]@));
        proof {
            before.lemma_filter_push(names@[i as int]@, |n: Seq<char>| is_image_name(n));
        }
        if is_image_file(names[i].as_str()) {
            let ghost kb = kept@;
            kept.push(names[i].clone());
            assert(texts(kept@) =~= texts(kb).push(names@[i as int]@));
        }
        i = i + 1;
    }
    assert(texts(names@).take(names@.len() as int) =~= texts(names@));
    natural_sort(kept)
}

/// Lines of text as `str::lines` gives them: split at `\n`, a `\r`
/// before a `\n` dropped, and no empty line after a final `\n`.
pub open spec fn text_lines(s: Seq<char>) -> Seq<Seq<char>> {
    let pieces = crate::text::split_on(s, '\n');
    let body = Seq::new((pieces.len() - 1) as nat, |i: int| strip_cr(pieces[i]));
    if pieces.last().len() == 0 {
        body
    } else {
        body.push(pieces.last())
    }
}

/// A line without one trailing `\r`.
pub open spec fn strip_cr(l: Seq<char>) -> Seq<char> {
    if l.len() > 0 && l.last() == '\r' {
        l.drop_last()
    } else {
        l
    }
}

/// The views of a vector of character vectors.
pub open spec fn views(v: Seq<Vec<char>>) -> Seq<Seq<char>> {
    v.map_values(|x: Vec<char>| x@)
}

/// Splits a text into lines (see [`text_lines`]).
pub fn lines_of(s: &[char]) -> (r: Vec<Vec<char>>)
    ensures
        views(r@) == text_lines(s@),
{
    let pieces = crate::text::split_chars(s, '\n');
    proof {
        crate::text::lemma_split_on_nonempty(s@, '\n');
    }
    let ghost ps = crate::text::seqs_of(pieces@);
    let n = pieces.len();
    let mut r: Vec<Vec<char>> = Vec::new();
    let mut i: usize = 0;
    while i + 1 < n
        invariant
            n == pieces@.len(),
            n >= 1,
            ps == crate::text::seqs_of(pieces@),
            ps == crate::text::split_on(s@, '\n'),
            i < n,
            views(r@) == Seq::new(i as nat, |k: int| strip_cr(ps[k])),
        decreases n - i,
    {
        let p = &pieces[i];
        assert(ps[i as int] == p@);
        let line = if p.len() > 0 && p[p.len() - 1] == '\r' {
            crate::text::take_chars(p.as_slice(), p.len() - 1)
        } else {
            crate::text::take_chars(p.as_slice(), p.len())
        };
        assert(p@.take(p@.len() as int) =~= p@);
        assert(p@.take(p@.len() - 1) =~= p@.drop_last());
        let ghost rb = views(r@);
        r.push(line);
        assert(views(r@) =~= rb.push(strip_cr(ps[i as int])));
        assert(views(r@) =~= Seq::new(i as nat + 1, |k: int| strip_cr(ps[k])));
        i = i + 1;
    }
    let last = &pieces[n - 1];
    assert(ps.last() == last@);
    if last.len() > 0 {
        let ghost rb = views(r@);
        r.push(crate::text::take_chars(last.as_slice(), last.len()));
        assert(last@.take(last@.len() as int) =~= last@);
        assert(views(r@) =~= rb.push(ps.last()));
    }
    r
}

/// The entries of an `unrar lb` listing that are safe page images, in
/// listing order.
pub open spec fn rar_names(lines: Seq<Seq<char>>) -> Seq<Seq<char>> {
    lines.filter(|l: Seq<char>| safe_page_name(l) && is_image_name(l))
}

/// Pages of a RAR/CBR archive from the output of `unrar lb`: the lines
/// that are safe page images, in natural order.
pub fn rar_listing_pages(stdout: &str) -> (r: Vec<String>)
    ensures
        texts(r@) == natural_insertion(rar_names(text_lines(stdout@))),
        text_bag(r@) == rar_names(text_lines(stdout@)).to_multiset(),
        naturally_sorted(texts(r@)),
{
    let v = chars_of(stdout);
    let ls = lines_of(v.as_slice());
    let mut kept: Vec<String> = Vec::new();
    let mut i: usize = 0;
    while i < ls.len()
        invariant
            i <= ls@.len(),
            texts(kept@) == rar_names(views(ls@).take(i as int)),
        decreases ls.len() - i,
    {
        let ghost before = views(ls@).take(i as int);
        assert(views(ls@).take(i as int + 1) =~= before.push(ls@[i as int]@));
        proof {
            before.lemma_filter_push(ls@[i as int]@, |l: Seq<char>| safe_page_name(l) && is_image_name(l));
        }
        let name = string_from_chars(ls[i].as_slice());
        if is_safe_page_name(name.as_str()) && is_image_file(name.as_str()) {
            let ghost kb = kept@;
            kept.push(name);
            assert(texts(kept@) =~= texts(kb).push(ls@[i as int]@));
        }
        i = i + 1;
    }
    assert(views(ls@).take(ls@.len() as int) =~= views(ls@));
    natural_sort(kept)
}

/// The page named on one line of a `7z l` listing: none for an empty line
/// or a `----` rule; otherwise the line's last word, when it is a safe page
/// image.
pub open spec fn sevenz_name(line: Seq<char>) -> Option<Seq<char>> {
    if line.len() == 0 || has_prefix(line, "----"@) {
        None
    } else {
        let w = crate::search::ws_words(line);
        if w.len() == 0 {
            None
        } else if safe_page_name(w.last()) && is_image_name(w.last()) {
            Some(w.last())
        } else {
            None
        }
    }
}

/// The pages named on a sequence of listing lines, in order.
pub open spec fn sevenz_names(lines: Seq<Seq<char>>) -> Seq<Seq<char>>
    decreases lines.len(),
{
    if lines.len() == 0 {
        Seq::<Seq<char>>::empty()
    } else {
        match sevenz_name(lines.last()) {
            Some(n) => sevenz_names(lines.drop_last()).push(n),
            None => sevenz_names(lines.drop_last()),
        }
    }
}

/// The lines of a `7z l` listing after its 20 header lines.
pub open spec fn after_header(lines: Seq<Seq<char>>) -> Seq<Seq<char>> {
    if lines.len() > 20 {
        lines.skip(20)
    } else {
        Seq::<Seq<char>>::empty()
    }
}

/// Pages of a 7z archive from the output of `7z l`: after the 20 header
/// lines, the names of [`sevenz_name`], in natural order.
pub fn sevenz_listing_pages(stdout: &str) -> (r: Vec<String>)
    ensures
        texts(r@) == natural_insertion(sevenz_names(after_header(text_lines(stdout@)))),
        text_bag(r@) == sevenz_names(after_header(text_lines(stdout@))).to_multiset(),
        naturally_sorted(texts(r@)),
{
    let v = chars_of(stdout);
    let ls = lines_of(v.as_slice());
    let ghost all = views(ls@);
    let mut kept: Vec<String> = Vec::new();
    if ls.len() <= 20 {
        assert(texts(kept@) =~= sevenz_names(after_header(all)));
        return natural_sort(kept);
    }
    let ghost tail = all.skip(20);
    let mut i: usize = 20;
    assert(tail.take(0) =~= Seq::<Seq<char>>::empty());
    let dashes = chars_of("----");
    while i < ls.len()
        invariant
            20 <= i <= ls@.len(),
            all == views(ls@),
            tail == all.skip(20),
            dashes@ == "----"@,
            texts(kept@) == sevenz_names(tail.take(i - 20)),
        decreases ls.len() - i,
    {
        let line = &ls[i];
        assert(tail.take(i - 20 + 1).drop_last() =~= tail.take(i - 20));
        assert(tail.take(i - 20 + 1).last() == line@);
        if line.len() == 0 || starts_with(line.as_slice(), dashes.as_slice()) {
        } else {
            let words = crate::search::split_words(line.as_slice());
            if words.len() > 0 {
                let w = &words[words.len() - 1];
                assert(crate::search::views(words@).last() == w@);
                let name = string_from_chars(w.as_slice());
                if is_safe_page_name(name.as_str()) && is_image_file(name.as_str()) {
                    let ghost kb = kept@;
                    kept.push(name);
                    assert(texts(kept@) =~= texts(kb).push(w@));
                }
            }
        }
        i = i + 1;
    }
    assert(tail.take(ls@.len() - 20) =~= tail);
    natural_sort(kept)
}

/// The image pages among a folder's files (given by their paths), judged by
/// their file names, in order.
pub open spec fn folder_names(paths: Seq<Seq<char>>) -> Seq<Seq<char>> {
    paths.filter(|p: Seq<char>| file_name(p) matches Some(n) && is_image_name(n))
}

/// Pages of a folder archive from the paths of its regular files: those
/// whose file name is an image, in natural order of their paths.
pub fn folder_page_paths(paths: &Vec<String>) -> (r: Vec<String>)
    ensures
        texts(r@) == natural_insertion(folder_names(texts(paths@))),
        text_bag(r@) == folder_names(texts(paths@)).to_multiset(),
        naturally_sorted(texts(r@)),
{
    let mut kept: Vec<String> = Vec::new();
    let mut i: usize = 0;
    while i < paths.len()
        invariant
            i <= paths@.len(),
            texts(kept@) == folder_names(texts(paths@).take(i as int)),
        decreases paths.len() - i,
    {
        let ghost before = texts(paths@).take(i as int);
        assert(texts(paths@).take(i as int + 1) =~= before.push(paths@[i as int]@));
        proof {
            before.lemma_filter_push(
                paths@[i as int]@,
                |p: Seq<char>| file_name(p) matches Some(n) && is_image_name(n),
            );
        }
        let v = chars_of(paths[i].as_str());
        match file_name_chars(v.as_slice()) {
            Some(n) => {
                let name = string_from_chars(n.as_slice());
                if is_image_file(name.as_str()) {
                    let ghost kb = kept@;
                    kept.push(paths[i].clone());
                    assert(texts(kept@) =~= texts(kb).push(paths@[i as int]@));
                }
            },
            None => {},
        }
        i = i + 1;
    }
    assert(texts(paths@).take(paths@.len() as int) =~= texts(paths@));
    natural_sort(kept)
}

/// The page rows of an archive from its page list: row `i` has id and sort
/// order `i`, the entry's path, and its file name (empty when it has none).
pub fn to_page_rows(archive_id: i64, list: &Vec<String>) -> (r: Vec<PageRow>)
    requires
        list@.len() <= i64::MAX,
    ensures
        r@.len() == list@.len(),
        forall|i: int|
            0 <= i < r@.len() ==> {
                &&& (#[trigger] r@[i]).id == i
                &&& r@[i].sort_order == i
                &&& r@[i].archive_id == archive_id
                &&& r@[i].filepath@ == list@[i]@
                &&& r@[i].filename@ == match file_name(list@[i]@) {
                    Some(n) => n,
                    None => Seq::<char>::empty(),
                }
            },
{
    let mut r: Vec<PageRow> = Vec::new();
    let mut i: usize = 0;
    while i < list.len()
        invariant
            i <= list@.len() <= i64::MAX,
            r@.len() == i,
            forall|k: int|
                0 <= k < i ==> {
                    &&& (#[trigger] r@[k]).id == k
                    &&& r@[k].sort_order == k
                    &&& r@[k].archive_id == archive_id
                    &&& r@[k].filepath@ == list@[k]@
                    &&& r@[k].filename@ == match file_name(list@[k]@) {
                        Some(n) => n,
                        None => Seq::<char>::empty(),
                    }
                },
        decreases list.len() - i,
    {
        let v = chars_of(list[i].as_str());
        let filename = match file_name_chars(v.as_slice()) {
            Some(n) => string_from_chars(n.as_slice()),
            None => String::new(),
        };
        r.push(PageRow {
            id: i as i64,
            archive_id,
            filename,
            filepath: list[i].clone(),
            sort_order: i as i64,
        });
        i = i + 1;
    }
    r
}

// ---------------------------------------------------------------------------
// Extraction cache marker
// ---------------------------------------------------------------------------

/// The text of the marker that records which archive version an extraction
/// cache holds: `<mtime>:<length>`.
pub open spec fn marker_text(mtime: i64, len: u64) -> Seq<char> {
    dec_int(mtime as int) + seq![':'] + dec(len as nat)
}

/// The signature a marker's text records: the trimmed text cut at its
/// first `:`, the part before it an `i64`, the part after it a `u64`.
pub open spec fn marker_signature(text: Seq<char>) -> Option<(i64, u64)> {
    let t = trim_ws(text);
    let k = first_index_of(t, ':');
    if k < 0 {
        None
    } else {
        match (parse_i64_spec(t.take(k)), parse_u64_spec(t.skip(k + 1))) {
            (Some(m), Some(l)) => Some((m, l)),
            _ => None,
        }
    }
}

/// The marker text for an archive signature (modification time, length).
pub fn extract_marker_text(sig: (i64, u64)) -> (r: String)
    ensures
        r@ == marker_text(sig.0, sig.1),
{
    let mut r = String::new();
    push_i64(&mut r, sig.0);
    push_char(&mut r, ':');
    push_u64(&mut r, sig.1);
    assert(r@ =~= marker_text(sig.0, sig.1));
    r
}

/// Reads the signature recorded in a marker's text (see [`marker_signature`]).
pub fn read_extract_marker(text: &str) -> (r: Option<(i64, u64)>)
    ensures
        r == marker_signature(text@),
{
    let v = chars_of(text);
    let t = trim_chars(v.as_slice());
    proof {
        lemma_first_index_of(t@, ':');
    }
    match find_char(t.as_slice(), ':') {
        Some(k) => {
            assert(k < t@.len());
            assert(k < t.len());
            let a = slice_chars(t.as_slice(), 0, k);
            let b = slice_chars(t.as_slice(), k + 1, t.len());
            assert(a@ =~= t@.take(k as int));
            assert(b@ =~= t@.skip(k as int + 1));
            match (parse_i64(a.as_slice()), parse_u64(b.as_slice())) {
                (Some(m), Some(l)) => Some((m, l)),
                _ => None,
            }
        },
        None => None,
    }
}

proof fn lemma_trim_identity(s: Seq<char>)
    requires
        s.len() >= 1,
        !is_ws(s[0]),
        !is_ws(s.last()),
    ensures
        trim_ws(s) == s,
{
    assert(crate::text::trim_end_ws(s) == s);
    assert(crate::text::trim_start_ws(s) == s);
}

/// Reading a marker written for a signature gives that signature back.
pub proof fn law_marker_roundtrip(mtime: i64, len: u64)
    ensures
        marker_signature(marker_text(mtime, len)) == Some((mtime, len)),
{
    crate::text::lemma_parse_dec_int(mtime);
    crate::text::lemma_parse_dec_u64(len);
    let a = dec_int(mtime as int);
    let b = dec(len as nat);
    let t = marker_text(mtime, len);
    assert(t[0] == a[0]);
    assert(t.last() == b.last());
    lemma_trim_identity(t);
    lemma_first_index_of(t, ':');
    let k = first_index_of(t, ':');
    assert(t[a.len() as int] == ':');
    assert forall|j: int| 0 <= j < a.len() implies t[j] != ':' by {
        assert(t[j] == a[j]);
    }
    assert(k == a.len());
    assert(t.take(k) =~= a);
    assert(t.skip(k + 1) =~= b);
}

// ---------------------------------------------------------------------------
// Readers
// ---------------------------------------------------------------------------

/// A ZIP/CBZ archive.
pub struct ZipArchive {
    pub path: String,
}

impl ZipArchive {
    /// A reader for the ZIP archive at `path`.
    pub fn new(path: &str) -> (r: Self)
        ensures
            r.path@ == path@,
    {
        ZipArchive { path: String::from_str(path) }
    }
}

/// A folder of page images.
pub struct FolderArchive {
    pub path: String,
}

impl FolderArchive {
    /// A reader for the folder at `path`.
    pub fn new(path: &str) -> (r: Self)
        ensures
            r.path@ == path@,
    {
        FolderArchive { path: String::from_str(path) }
    }
}

/// A RAR/CBR archive, read with the `unrar` program.
pub struct RarArchive {
    pub path: String,
    pub unrar: String,
    /// Where the whole archive is extracted once, if anywhere.
    pub cache: Option<String>,
}

impl RarArchive {
    /// A reader for the RAR archive at `path`, using `unrar`.
    pub fn new(path: &str, unrar: String, cache: Option<String>) -> (r: Self)
        ensures
            r.path@ == path@,
            r.unrar == unrar,
            r.cache == cache,
    {
        RarArchive { path: String::from_str(path), unrar, cache }
    }
}

/// A 7z archive, read with the `7z` program.
pub struct SevenZArchive {
    pub path: String,
    pub sevenz: String,
    /// Where the whole archive is extracted once, if anywhere.
    pub cache: Option<String>,
}

impl SevenZArchive {
    /// A reader for the 7z archive at `path`, using `7z`.
    pub fn new(path: &str, sevenz: String, cache: Option<String>) -> (r: Self)
        ensures
            r.path@ == path@,
            r.sevenz == sevenz,
            r.cache == cache,
    {
        SevenZArchive { path: String::from_str(path), sevenz, cache }
    }
}

/// The reader an archive gets.
pub enum ArchiveHandle {
    Zip(ZipArchive),
    Folder(FolderArchive),
    Rar(RarArchive),
    SevenZ(SevenZArchive),
}

/// Why no reader could be made.
pub open spec fn no_unrar_message() -> Seq<char> {
    "RAR support requires the unrar tool. Install it via Homebrew (macOS: brew install unrar), 7-Zip/WinRAR (Windows: put unrar.exe in PATH or install WinRAR), or apt (Linux: sudo apt install unrar)"@
}

/// Why no reader could be made.
pub open spec fn no_sevenz_message() -> Seq<char> {
    "7Z support requires the 7z tool. Install 7-Zip (Windows), Homebrew p7zip (macOS: brew install p7zip), or apt (Linux: sudo apt install p7zip-full), and make sure 7z is in PATH"@
}

/// The reader for an archive type, given where the `unrar` and `7z`
/// programs were found (if they were): `zip`/`cbz` and `folder` need none;
/// `rar`/`cbr` need `unrar` and `7z` needs `7z`, with an error naming the
/// missing tool otherwise; any other type is unsupported. A RAR or 7z
/// reader extracts into `cache_dir` when one is given.
pub fn create_archive_reader_with_cache(
    path: &str,
    archive_type: &str,
    cache_dir: Option<String>,
    unrar: Option<String>,
    sevenz: Option<String>,
) -> (r: Result<ArchiveHandle, String>)
    ensures
        (archive_type@ == "zip"@ || archive_type@ == "cbz"@) ==> (r matches Ok(ArchiveHandle::Zip(z))
            && z.path@ == path@),
        archive_type@ == "folder"@ ==> (r matches Ok(ArchiveHandle::Folder(f)) && f.path@ == path@),
        (archive_type@ == "rar"@ || archive_type@ == "cbr"@) ==> match unrar {
            Some(bin) => r matches Ok(ArchiveHandle::Rar(a)) && a.path@ == path@ && a.unrar == bin
                && a.cache == cache_dir,
            None => r matches Err(m) && m@ == no_unrar_message(),
        },
        archive_type@ == "7z"@ ==> match sevenz {
            Some(bin) => r matches Ok(ArchiveHandle::SevenZ(a)) && a.path@ == path@ && a.sevenz == bin
                && a.cache == cache_dir,
            None => r matches Err(m) && m@ == no_sevenz_message(),
        },
        !(archive_type@ == "zip"@ || archive_type@ == "cbz"@ || archive_type@ == "folder"@
            || archive_type@ == "rar"@ || archive_type@ == "cbr"@ || archive_type@ == "7z"@) ==> (r matches Err(
            m,
        ) && m@ == "Unsupported archive type: "@ + archive_type@),
{
    create_archive_reader_impl(path, archive_type, cache_dir, unrar, sevenz)
}

/// The reader for an archive type without an extraction cache (see
/// [`create_archive_reader_with_cache`]).
pub fn create_archive_reader(path: &str, archive_type: &str, unrar: Option<String>, sevenz: Option<String>) -> (r: Result<ArchiveHandle, String>)
    ensures
        (archive_type@ == "zip"@ || archive_type@ == "cbz"@) ==> (r matches Ok(ArchiveHandle::Zip(z))
            && z.path@ == path@),
        archive_type@ == "folder"@ ==> (r matches Ok(ArchiveHandle::Folder(f)) && f.path@ == path@),
        (archive_type@ == "rar"@ || archive_type@ == "cbr"@) ==> match unrar {
            Some(bin) => r matches Ok(ArchiveHandle::Rar(a)) && a.path@ == path@ && a.unrar == bin
                && a.cache is None,
            None => r matches Err(m) && m@ == no_unrar_message(),
        },
        archive_type@ == "7z"@ ==> match sevenz {
            Some(bin) => r matches Ok(ArchiveHandle::SevenZ(a)) && a.path@ == path@ && a.sevenz == bin
                && a.cache is None,
            None => r matches Err(m) && m@ == no_sevenz_message(),
        },
        !(archive_type@ == "zip"@ || archive_type@ == "cbz"@ || archive_type@ == "folder"@
            || archive_type@ == "rar"@ || archive_type@ == "cbr"@ || archive_type@ == "7z"@) ==> (r matches Err(
            m,
        ) && m@ == "Unsupported archive type: "@ + archive_type@),
{
    create_archive_reader_impl(path, archive_type, None, unrar, sevenz)
}

fn is_text(s: &[char], w: &str) -> (r: bool)
    ensures
        r == (s@ == w@),
{
    let v = chars_of(w);
    chars_eq(s, v.as_slice())
}

fn create_archive_reader_impl(
    path: &str,
    archive_type: &str,
    cache_dir: Option<String>,
    unrar: Option<String>,
    sevenz: Option<String>,
) -> (r: Result<ArchiveHandle, String>)
    ensures
        (archive_type@ == "zip"@ || archive_type@ == "cbz"@) ==> (r matches Ok(ArchiveHandle::Zip(z))
            && z.path@ == path@),
        archive_type@ == "folder"@ ==> (r matches Ok(ArchiveHandle::Folder(f)) && f.path@ == path@),
        (archive_type@ == "rar"@ || archive_type@ == "cbr"@) ==> match unrar {
            Some(bin) => r matches Ok(ArchiveHandle::Rar(a)) && a.path@ == path@ && a.unrar == bin
                && a.cache == cache_dir,
            None => r matches Err(m) && m@ == no_unrar_message(),
        },
        archive_type@ == "7z"@ ==> match sevenz {
            Some(bin) => r matches Ok(ArchiveHandle::SevenZ(a)) && a.path@ == path@ && a.sevenz == bin
                && a.cache == cache_dir,
            None => r matches Err(m) && m@ == no_sevenz_message(),
        },
        !(archive_type@ == "zip"@ || archive_type@ == "cbz"@ || archive_type@ == "folder"@
            || archive_type@ == "rar"@ || archive_type@ == "cbr"@ || archive_type@ == "7z"@) ==> (r matches Err(
            m,
        ) && m@ == "Unsupported archive type: "@ + archive_type@),
{
    let t = chars_of(archive_type);
    proof {
        reveal_strlit("zip");
        reveal_strlit("cbz");
        reveal_strlit("folder");
        reveal_strlit("rar");
        reveal_strlit("cbr");
        reveal_strlit("7z");
        assert("folder"@.len() == 6);
        assert("zip"@.len() == 3);
        assert("folder"@ != "zip"@);
        assert("folder"@ != "cbz"@);
        assert("rar"@[0] != "zip"@[0]);
        assert("rar"@[0] != "cbz"@[0]);
        assert("cbr"@[0] != "zip"@[0]);
        assert("cbr"@[2] != "cbz"@[2]);
        assert("rar"@ != "zip"@);
        assert("rar"@ != "cbz"@);
        assert("rar"@ != "folder"@);
        assert("cbr"@ != "zip"@);
        assert("cbr"@ != "cbz"@);
        assert("cbr"@ != "folder"@);
        assert("7z"@ != "zip"@);
        assert("7z"@ != "cbz"@);
        assert("7z"@ != "folder"@);
        assert("7z"@ != "rar"@);
        assert("7z"@ != "cbr"@);
    }
    if is_text(t.as_slice(), "zip") || is_text(t.as_slice(), "cbz") {
        Ok(ArchiveHandle::Zip(ZipArchive::new(path)))
    } else if is_text(t.as_slice(), "folder") {
        Ok(ArchiveHandle::Folder(FolderArchive::new(path)))
    } else if is_text(t.as_slice(), "rar") || is_text(t.as_slice(), "cbr") {
        match unrar {
            Some(bin) => Ok(ArchiveHandle::Rar(RarArchive::new(path, bin, cache_dir))),
            None => Err(String::from_str("RAR support requires the unrar tool. Install it via Homebrew (macOS: brew install unrar), 7-Zip/WinRAR (Windows: put unrar.exe in PATH or install WinRAR), or apt (Linux: sudo apt install unrar)")),
        }
    } else if is_text(t.as_slice(), "7z") {
        match sevenz {
            Some(bin) => Ok(ArchiveHandle::SevenZ(SevenZArchive::new(path, bin, cache_dir))),
            None => Err(String::from_str("7Z support requires the 7z tool. Install 7-Zip (Windows), Homebrew p7zip (macOS: brew install p7zip), or apt (Linux: sudo apt install p7zip-full), and make sure 7z is in PATH")),
        }
    } else {
        let mut m = String::from_str("Unsupported archive type: ");
        push_str(&mut m, archive_type);
        Err(m)
    }
}

// ---------------------------------------------------------------------------
// Process-wide memory
// ---------------------------------------------------------------------------

/// Where each external tool was found (or that it was not), remembered for
/// the life of the process.
pub struct ToolCache {
    pub entries: Vec<(String, Option<String>)>,
}

/// What the cache remembers for a tool: the last entry under its name.
pub open spec fn tool_entry(entries: Seq<(String, Option<String>)>, name: Seq<char>) -> Option<Option<String>>
    decreases entries.len(),
{
    if entries.len() == 0 {
        None
    } else if entries.last().0@ == name {
        Some(entries.last().1)
    } else {
        tool_entry(entries.drop_last(), name)
    }
}

impl ToolCache {
    /// An empty cache.
    pub fn new() -> (r: Self)
        ensures
            r.entries@.len() == 0,
    {
        ToolCache { entries: Vec::new() }
    }

    /// What is remembered for a tool, if anything (see [`tool_entry`]).
    pub fn lookup(&self, name: &str) -> (r: Option<Option<String>>)
        ensures
            r == tool_entry(self.entries@, name@),
    {
        let n = chars_of(name);
        let mut k: usize = self.entries.len();
        assert(self.entries@.take(k as int) =~= self.entries@);
        while k > 0
            invariant
                k <= self.entries@.len(),
                n@ == name@,
                tool_entry(self.entries@, name@) == tool_entry(self.entries@.take(k as int), name@),
            decreases k,
        {
            let e = chars_of(self.entries[k - 1].0.as_str());
            if chars_eq(e.as_slice(), n.as_slice()) {
                return Some(self.entries[k - 1].1.clone());
            }
            assert(self.entries@.take(k as int).drop_last() =~= self.entries@.take(k as int - 1));
            k = k - 1;
        }
        None
    }

    /// Remembers where a tool was found (or that it was not).
    pub fn remember(&mut self, name: &str, found: Option<String>)
        ensures
            final(self).entries@ == old(self).entries@.push((final(self).entries@.last().0, found)),
            final(self).entries@.last().0@ == name@,
    {
        self.entries.push((String::from_str(name), found));
    }
}

/// Where a tool is: what the cache remembers for it when it remembers
/// anything, else what `probe` finds, which is then remembered. `probe` is
/// only called on a miss.
pub fn resolve_tool_cached<F: Fn() -> Option<String>>(cache: &mut ToolCache, name: &str, probe: F) -> (r: Option<String>)
    requires
        call_requires(probe, ()),
    ensures
        tool_entry(old(cache).entries@, name@) matches Some(hit) ==> r == hit && final(cache).entries@
            == old(cache).entries@,
        tool_entry(old(cache).entries@, name@) is None ==> call_ensures(probe, (), r),
        tool_entry(final(cache).entries@, name@) == Some(r),
        forall|other: Seq<char>|
            other != name@ ==> #[trigger] tool_entry(final(cache).entries@, other) == tool_entry(
                old(cache).entries@,
                other,
            ),
{
    match cache.lookup(name) {
        Some(hit) => hit,
        None => {
            let found = probe();
            let ghost before = cache.entries@;
            cache.remember(name, found.clone());
            proof {
                let e = cache.entries@.last();
                assert(cache.entries@ == before.push(e));
                law_tool_cache_read_after_write(before, e.0, e.1, name@);
                assert forall|other: Seq<char>| other != name@ implies #[trigger] tool_entry(cache.entries@, other) == tool_entry(before, other) by {
                    law_tool_cache_read_after_write(before, e.0, e.1, other);
                }
            }
            found
        },
    }
}

/// Once a tool's location is remembered, looking it up gives that location
/// until it is remembered again; remembering one tool leaves what is known
/// of the others unchanged.
pub proof fn law_tool_cache_read_after_write(
    entries: Seq<(String, Option<String>)>,
    name: String,
    found: Option<String>,
    other: Seq<char>,
)
    ensures
        tool_entry(entries.push((name, found)), name@) == Some(found),
        other != name@ ==> tool_entry(entries.push((name, found)), other) == tool_entry(entries, other),
{
    assert(entries.push((name, found)).drop_last() =~= entries);
}

/// The throttle of extraction-cache eviction: due when at least a minute
/// has passed since it last ran (a clock that went back counts as no time);
/// when due, `now` becomes the new last run.
pub fn extract_eviction_due(last_run: u64, now: u64) -> (r: (bool, u64))
    ensures
        r.0 == (now >= last_run && now - last_run >= 60),
        r.1 == if r.0 {
            now
        } else {
            last_run
        },
{
    let elapsed: u64 = if now >= last_run {
        now - last_run
    } else {
        0
    };
    if elapsed < 60 {
        (false, last_run)
    } else {
        (true, now)
    }
}

/// The largest page an extraction may produce, in bytes (256 MiB).
pub const MAX_PAGE_BYTES: u64 = 268435456;

/// Whether a page of this size may be read.
pub fn page_size_allowed(size: u64) -> (r: bool)
    ensures
        r == (size <= MAX_PAGE_BYTES),
{
    size <= MAX_PAGE_BYTES
}

} // verus!

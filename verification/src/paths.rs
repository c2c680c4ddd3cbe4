//! A model of Unix path syntax (`/`-separated, as `std::path::Path` reads it
//! on Unix): components, parent directory, file name, stem and extension,
//! component-wise prefix tests, and the title rules built on them.

use vstd::prelude::*;
use crate::text::{
    chars_eq, chars_of, join_prefix, join_with, seqs_of, slice_chars, split_chars, split_on,
    string_from_chars, take_chars, trim_end_seps, trim_end_seps_exec,
};

verus! {

// ---------------------------------------------------------------------------
// Model
// ---------------------------------------------------------------------------

/// The one-character sequence `.`.
pub open spec fn dot() -> Seq<char> {
    seq!['.']
}

/// The two-character sequence `..`.
pub open spec fn dot_dot() -> Seq<char> {
    seq!['.', '.']
}

/// The root marker used in component lists: `/`.
pub open spec fn root_marker() -> Seq<char> {
    seq!['/']
}

/// Segment `i` of a `/`-split path is a component: non-empty, and not a
/// `.` except when it opens a relative path (the leading current-directory
/// component).
pub open spec fn is_real_segment(segs: Seq<Seq<char>>, i: int) -> bool {
    segs[i].len() > 0 && (segs[i] != dot() || i == 0)
}

/// Index of the last component segment below `k`, or -1.
pub open spec fn last_real_before(segs: Seq<Seq<char>>, k: int) -> int
    decreases k,
{
    if k <= 0 {
        -1
    } else if is_real_segment(segs, k - 1) {
        k - 1
    } else {
        last_real_before(segs, k - 1)
    }
}

/// The last real segment before `k` is before `k` (or -1 when none).
pub proof fn lemma_last_real_before(segs: Seq<Seq<char>>, k: int)
    requires
        0 <= k <= segs.len(),
    ensures
        -1 <= last_real_before(segs, k) < k,
        last_real_before(segs, k) >= 0 ==> is_real_segment(segs, last_real_before(segs, k)),
        forall|j: int|
            last_real_before(segs, k) < j < k && 0 <= j ==> !is_real_segment(segs, j),
    decreases k,
{
    if k > 0 {
        lemma_last_real_before(segs, k - 1);
        if !is_real_segment(segs, k - 1) {
            assert forall|j: int|
                last_real_before(segs, k) < j < k && 0 <= j implies !is_real_segment(segs, j) by {
                if j < k - 1 {
                }
            }
        }
    }
}

/// The components of a path in order: `/` for the root, `.` for a leading
/// current-directory component, then every other non-empty segment except
/// inner `.` segments (`..` is kept).
pub open spec fn components(s: Seq<char>) -> Seq<Seq<char>> {
    let segs = split_on(s, '/');
    (if s.len() > 0 && s[0] == '/' {
        seq![root_marker()]
    } else {
        Seq::<Seq<char>>::empty()
    }) + real_segments(segs, segs.len() as int)
}

/// The component segments among the first `k` segments.
pub open spec fn real_segments(segs: Seq<Seq<char>>, k: int) -> Seq<Seq<char>>
    decreases k,
{
    if k <= 0 {
        Seq::<Seq<char>>::empty()
    } else if is_real_segment(segs, k - 1) {
        real_segments(segs, k - 1).push(segs[k - 1])
    } else {
        real_segments(segs, k - 1)
    }
}

/// A normal component: neither the root, `.` nor `..`.
pub open spec fn is_normal(c: Seq<char>) -> bool {
    c != root_marker() && c != dot() && c != dot_dot()
}

/// The normal components among the first `k` entries of `cs`.
pub open spec fn normal_prefix(cs: Seq<Seq<char>>, k: int) -> Seq<Seq<char>>
    decreases k,
{
    if k <= 0 {
        Seq::<Seq<char>>::empty()
    } else if is_normal(cs[k - 1]) {
        normal_prefix(cs, k - 1).push(cs[k - 1])
    } else {
        normal_prefix(cs, k - 1)
    }
}

/// The normal components of a path (`Component::Normal` names), in order.
pub open spec fn normal_components(s: Seq<char>) -> Seq<Seq<char>> {
    normal_prefix(components(s), components(s).len() as int)
}

/// `Path::parent`, rendered as text and with trailing `/` and `\` trimmed;
/// empty when the path has no parent.
pub open spec fn parent_dir(s: Seq<char>) -> Seq<char> {
    let segs = split_on(s, '/');
    let l = last_real_before(segs, segs.len() as int);
    let p = last_real_before(segs, l);
    if l < 0 || p < 0 {
        Seq::<char>::empty()
    } else {
        trim_end_seps(join_with(segs.take(p + 1), '/'))
    }
}

/// `Path::file_name`: the last component when it is a normal one.
pub open spec fn file_name(s: Seq<char>) -> Option<Seq<char>> {
    let segs = split_on(s, '/');
    let l = last_real_before(segs, segs.len() as int);
    if l < 0 || segs[l] == dot() || segs[l] == dot_dot() {
        None
    } else {
        Some(segs[l])
    }
}

/// Index of the last `.` in a name, or -1.
pub open spec fn last_dot(name: Seq<char>) -> int
    decreases name.len(),
{
    if name.len() == 0 {
        -1
    } else if name.last() == '.' {
        name.len() - 1
    } else {
        last_dot(name.drop_last())
    }
}

/// The last dot of a name is a dot, and no dot follows it.
pub proof fn lemma_last_dot(name: Seq<char>)
    ensures
        -1 <= last_dot(name) < name.len(),
        last_dot(name) >= 0 ==> name[last_dot(name)] == '.',
        forall|j: int| last_dot(name) < j < name.len() && 0 <= j ==> name[j] != '.',
    decreases name.len(),
{
    if name.len() > 0 {
        let d = name.drop_last();
        lemma_last_dot(d);
        assert forall|j: int| last_dot(name) < j < name.len() && 0 <= j implies name[j] != '.' by {
            if j < name.len() - 1 {
                assert(name[j] == d[j]);
            }
        }
    }
}

/// `file_stem` of a single file name: the part before the last `.`, unless
/// that dot opens the name (then the whole name).
pub open spec fn stem_of(name: Seq<char>) -> Seq<char> {
    if last_dot(name) <= 0 {
        name
    } else {
        name.take(last_dot(name))
    }
}

/// `extension` of a single file name: the part after the last `.`, when the
/// dot does not open the name.
pub open spec fn extension_of(name: Seq<char>) -> Option<Seq<char>> {
    if last_dot(name) <= 0 {
        None
    } else {
        Some(name.skip(last_dot(name) + 1))
    }
}

/// `Path::file_stem`.
pub open spec fn file_stem(s: Seq<char>) -> Option<Seq<char>> {
    match file_name(s) {
        Some(n) => Some(stem_of(n)),
        None => None,
    }
}

/// `Path::extension`.
pub open spec fn extension(s: Seq<char>) -> Option<Seq<char>> {
    match file_name(s) {
        Some(n) => extension_of(n),
        None => None,
    }
}

/// Whether `p` is a prefix of `s`, element by element.
pub open spec fn seq_prefix<A>(s: Seq<A>, p: Seq<A>) -> bool {
    p.len() <= s.len() && s.take(p.len() as int) == p
}

/// `Path::new(path) == Path::new(root) || Path::new(path).starts_with(root)`:
/// the components of `root` open the components of `path`.
pub open spec fn within(root: Seq<char>, path: Seq<char>) -> bool {
    seq_prefix(components(path), components(root))
}

// ---------------------------------------------------------------------------
// Executable counterparts
// ---------------------------------------------------------------------------

fn is_real_segment_exec(segs: &Vec<Vec<char>>, i: usize) -> (r: bool)
    requires
        i < segs@.len(),
    ensures
        r == is_real_segment(seqs_of(segs@), i as int),
{
    let s = &segs[i];
    let d = ['.'];
    let is_dot = chars_eq(s.as_slice(), &d);
    assert(d@ =~= dot());
    s.len() > 0 && (!is_dot || i == 0)
}

pub(crate) fn last_real_before_exec(segs: &Vec<Vec<char>>, k: usize) -> (r: Option<usize>)
    requires
        k <= segs@.len(),
    ensures
        match r {
            Some(i) => i as int == last_real_before(seqs_of(segs@), k as int),
            None => last_real_before(seqs_of(segs@), k as int) == -1,
        },
{
    let mut j: usize = k;
    while j > 0
        invariant
            j <= k <= segs@.len(),
            last_real_before(seqs_of(segs@), k as int) == last_real_before(
                seqs_of(segs@),
                j as int,
            ),
        decreases j,
    {
        if is_real_segment_exec(segs, j - 1) {
            return Some(j - 1);
        }
        j = j - 1;
    }
    None
}

/// The `/`-separated segments of a path.
pub(crate) fn segments_of(s: &[char]) -> (r: Vec<Vec<char>>)
    ensures
        seqs_of(r@) == split_on(s@, '/'),
        r@.len() >= 1,
        r@.len() <= s@.len() + 1,
{
    let r = split_chars(s, '/');
    proof {
        lemma_split_len(s@, '/');
    }
    r
}

proof fn lemma_split_len(s: Seq<char>, sep: char)
    ensures
        split_on(s, sep).len() <= s.len() + 1,
        split_on(s, sep).len() >= 1,
    decreases s.len(),
{
    if s.len() > 0 {
        lemma_split_len(s.drop_last(), sep);
    }
}

/// The components of a path (see [`components`]).
pub fn components_exec(s: &[char]) -> (r: Vec<Vec<char>>)
    ensures
        seqs_of(r@) == components(s@),
{
    let segs = segments_of(s);
    let mut r: Vec<Vec<char>> = Vec::new();
    if s.len() > 0 && s[0] == '/' {
        let root_v: Vec<char> = vec!['/'];
        assert(root_v@ =~= root_marker());
        r.push(root_v);
    }
    let ghost head = seqs_of(r@);
    assert(head =~= (if s@.len() > 0 && s@[0] == '/' {
        seq![root_marker()]
    } else {
        Seq::<Seq<char>>::empty()
    }));
    let mut i: usize = 0;
    while i < segs.len()
        invariant
            i <= segs@.len(),
            seqs_of(segs@) == split_on(s@, '/'),
            seqs_of(r@) == head + real_segments(seqs_of(segs@), i as int),
        decreases segs.len() - i,
    {
        if is_real_segment_exec(&segs, i) {
            let c = segs[i].clone();
            let ghost before = seqs_of(r@);
            r.push(c);
            assert(seqs_of(r@) =~= before.push(seqs_of(segs@)[i as int]));
            assert(seqs_of(r@) =~= head + real_segments(seqs_of(segs@), i as int + 1));
        } else {
            assert(real_segments(seqs_of(segs@), i as int + 1) == real_segments(
                seqs_of(segs@),
                i as int,
            ));
        }
        i = i + 1;
    }
    r
}

fn is_normal_exec(c: &Vec<char>) -> (r: bool)
    ensures
        r == is_normal(c@),
{
    let root = ['/'];
    let d = ['.'];
    let dd = ['.', '.'];
    assert(root@ =~= root_marker());
    assert(d@ =~= dot());
    assert(dd@ =~= dot_dot());
    !chars_eq(c.as_slice(), &root) && !chars_eq(c.as_slice(), &d) && !chars_eq(c.as_slice(), &dd)
}

/// The normal components of a path (see [`normal_components`]).
pub fn normal_components_exec(s: &[char]) -> (r: Vec<Vec<char>>)
    ensures
        seqs_of(r@) == normal_components(s@),
{
    let cs = components_exec(s);
    let mut r: Vec<Vec<char>> = Vec::new();
    let mut i: usize = 0;
    while i < cs.len()
        invariant
            i <= cs@.len(),
            seqs_of(cs@) == components(s@),
            seqs_of(r@) == normal_prefix(seqs_of(cs@), i as int),
        decreases cs.len() - i,
    {
        if is_normal_exec(&cs[i]) {
            let c = cs[i].clone();
            r.push(c);
            assert(seqs_of(r@) =~= normal_prefix(seqs_of(cs@), i as int + 1));
        }
        i = i + 1;
    }
    r
}

/// The parent directory of a path as text, trailing separators trimmed
/// (empty when there is none).
pub fn parent_dir_chars(s: &[char]) -> (r: Vec<char>)
    ensures
        r@ == parent_dir(s@),
{
    let segs = segments_of(s);
    proof {
        lemma_last_real_before(seqs_of(segs@), segs@.len() as int);
    }
    let l = match last_real_before_exec(&segs, segs.len()) {
        Some(l) => l,
        None => return Vec::new(),
    };
    proof {
        lemma_last_real_before(seqs_of(segs@), l as int);
    }
    let p = match last_real_before_exec(&segs, l) {
        Some(p) => p,
        None => return Vec::new(),
    };
    let joined = join_prefix(&segs, p + 1, '/');
    trim_end_seps_exec(&joined)
}

/// The parent directory of a path, with trailing `/` and `\` trimmed; empty
/// when the path has none.
pub fn parent_dir_of(path: &str) -> (r: String)
    ensures
        r@ == parent_dir(path@),
{
    let v = chars_of(path);
    let p = parent_dir_chars(v.as_slice());
    string_from_chars(p.as_slice())
}

/// `Path::join` on Unix: an absolute `rel` replaces `base`; otherwise `rel`
/// is appended, with a `/` between unless `base` is empty or already ends in one.
pub open spec fn path_join(base: Seq<char>, rel: Seq<char>) -> Seq<char> {
    if rel.len() > 0 && rel[0] == '/' {
        rel
    } else if base.len() == 0 || base.last() == '/' {
        base + rel
    } else {
        base.push('/') + rel
    }
}

/// Joins `rel` onto `base` as `Path::join` does.
pub fn join_path(base: &str, rel: &str) -> (r: String)
    ensures
        r@ == path_join(base@, rel@),
{
    let b = chars_of(base);
    let t = chars_of(rel);
    if t.len() > 0 && t[0] == '/' {
        return string_from_chars(t.as_slice());
    }
    let mut r = string_from_chars(b.as_slice());
    if b.len() > 0 && b[b.len() - 1] != '/' {
        crate::text::push_char(&mut r, '/');
    }
    crate::text::push_str(&mut r, rel);
    r
}

/// `Path::with_extension(path, "cbz")`: the text up to the end of the file
/// stem, then `.cbz`; the path unchanged when it has no file name.
pub open spec fn with_cbz(path: Seq<char>) -> Seq<char> {
    let segs = split_on(path, '/');
    let l = last_real_before(segs, segs.len() as int);
    if l < 0 || segs[l] == dot() || segs[l] == dot_dot() {
        path
    } else {
        (if l > 0 {
            join_with(segs.take(l), '/').push('/')
        } else {
            Seq::<char>::empty()
        }) + stem_of(segs[l]) + seq!['.', 'c', 'b', 'z']
    }
}

/// The path with its extension replaced by `cbz` (see [`with_cbz`]).
pub fn with_cbz_extension(path: &str) -> (r: String)
    ensures
        r@ == with_cbz(path@),
{
    let v = chars_of(path);
    let segs = segments_of(v.as_slice());
    proof {
        lemma_last_real_before(seqs_of(segs@), segs@.len() as int);
    }
    let l = match last_real_before_exec(&segs, segs.len()) {
        Some(l) => l,
        None => return String::from_str(path),
    };
    let seg = &segs[l];
    let d = ['.'];
    let dd = ['.', '.'];
    assert(d@ =~= dot());
    assert(dd@ =~= dot_dot());
    if chars_eq(seg.as_slice(), &d) || chars_eq(seg.as_slice(), &dd) {
        return String::from_str(path);
    }
    let mut r = String::new();
    if l > 0 {
        let prefix = join_prefix(&segs, l, '/');
        crate::text::push_chars(&mut r, prefix.as_slice());
        crate::text::push_char(&mut r, '/');
    }
    let stem = stem_chars(seg.as_slice());
    crate::text::push_chars(&mut r, stem.as_slice());
    crate::text::push_str(&mut r, ".cbz");
    proof {
        reveal_strlit(".cbz");
    }
    assert(r@ =~= with_cbz(path@));
    r
}

/// The file name of a path (see [`file_name`]).
pub fn file_name_chars(s: &[char]) -> (r: Option<Vec<char>>)
    ensures
        match r {
            Some(v) => file_name(s@) == Some(v@),
            None => file_name(s@) is None,
        },
{
    let segs = segments_of(s);
    proof {
        lemma_last_real_before(seqs_of(segs@), segs@.len() as int);
    }
    let l = match last_real_before_exec(&segs, segs.len()) {
        Some(l) => l,
        None => return None,
    };
    let seg = &segs[l];
    let d = ['.'];
    let dd = ['.', '.'];
    assert(d@ =~= dot());
    assert(dd@ =~= dot_dot());
    if chars_eq(seg.as_slice(), &d) || chars_eq(seg.as_slice(), &dd) {
        None
    } else {
        Some(seg.clone())
    }
}

fn last_dot_exec(name: &[char]) -> (r: Option<usize>)
    ensures
        match r {
            Some(i) => i as int == last_dot(name@),
            None => last_dot(name@) == -1,
        },
{
    let mut j: usize = name.len();
    assert(name@.take(j as int) =~= name@);
    while j > 0
        invariant
            j <= name@.len(),
            last_dot(name@) == last_dot(name@.take(j as int)),
        decreases j,
    {
        if name[j - 1] == '.' {
            return Some(j - 1);
        }
        assert(name@.take(j as int).drop_last() =~= name@.take(j as int - 1));
        j = j - 1;
    }
    None
}

/// The stem of a single file name (see [`stem_of`]).
pub fn stem_chars(name: &[char]) -> (r: Vec<char>)
    ensures
        r@ == stem_of(name@),
{
    proof {
        lemma_last_dot(name@);
    }
    match last_dot_exec(name) {
        Some(k) if k > 0 => take_chars(name, k),
        _ => take_chars(name, name.len()),
    }
}

/// The extension of a single file name (see [`extension_of`]).
pub fn extension_chars(name: &[char]) -> (r: Option<Vec<char>>)
    ensures
        match r {
            Some(v) => extension_of(name@) == Some(v@),
            None => extension_of(name@) is None,
        },
{
    proof {
        lemma_last_dot(name@);
    }
    match last_dot_exec(name) {
        Some(k) if k > 0 => {
            assert(k < name.len());
            let e = slice_chars(name, k + 1, name.len());
            assert(e@ =~= name@.skip(k + 1));
            Some(e)
        },
        _ => None,
    }
}

/// The extension of a path (see [`extension`]).
pub fn extension_of_path(s: &[char]) -> (r: Option<Vec<char>>)
    ensures
        match r {
            Some(v) => extension(s@) == Some(v@),
            None => extension(s@) is None,
        },
{
    match file_name_chars(s) {
        Some(n) => {
            proof {
                lemma_split_len(s@, '/');
                lemma_last_real_before(split_on(s@, '/'), split_on(s@, '/').len() as int);
                lemma_segment_len(s@, '/', last_real_before(split_on(s@, '/'), split_on(s@, '/').len() as int));
            }
            extension_chars(n.as_slice())
        },
        None => None,
    }
}

/// Every piece of a split is no longer than the whole.
pub proof fn lemma_segment_len(s: Seq<char>, sep: char, i: int)
    requires
        0 <= i < split_on(s, sep).len(),
    ensures
        split_on(s, sep)[i].len() <= s.len(),
    decreases s.len(),
{
    if s.len() > 0 {
        let p = split_on(s.drop_last(), sep);
        lemma_split_len(s.drop_last(), sep);
        if i < p.len() {
            lemma_segment_len(s.drop_last(), sep, i);
        }
    }
}

/// Whether `root`'s components open `path`'s components (`p == r || p.starts_with(r)`).
pub fn path_is_within(root: &str, path: &str) -> (r: bool)
    ensures
        r == within(root@, path@),
{
    let rc = components_exec(chars_of(root).as_slice());
    let pc = components_exec(chars_of(path).as_slice());
    if rc.len() > pc.len() {
        return false;
    }
    let mut i: usize = 0;
    while i < rc.len()
        invariant
            i <= rc@.len() <= pc@.len(),
            seqs_of(rc@) == components(root@),
            seqs_of(pc@) == components(path@),
            forall|j: int| 0 <= j < i ==> seqs_of(pc@)[j] == seqs_of(rc@)[j],
        decreases rc.len() - i,
    {
        if !chars_eq(rc[i].as_slice(), pc[i].as_slice()) {
            assert(seqs_of(pc@).take(rc@.len() as int)[i as int] != seqs_of(rc@)[i as int]);
            return false;
        }
        i = i + 1;
    }
    assert(seqs_of(pc@).take(rc@.len() as int) =~= seqs_of(rc@));
    true
}

// ---------------------------------------------------------------------------
// Titles
// ---------------------------------------------------------------------------

/// The title taken from the `level`-th component counted from the end:
/// level 1 is the last component with its extension removed, a deeper
/// level is that directory's name as it stands; a level past the number of
/// components falls back to level 1. No normal component: empty.
pub open spec fn derived_title(path: Seq<char>, level: nat) -> Seq<char> {
    let cs = normal_components(path);
    let n = cs.len();
    if n == 0 {
        Seq::<char>::empty()
    } else {
        let idx = if level > n {
            1
        } else {
            level
        };
        if idx == 1 {
            stem_of(cs[n - 1])
        } else {
            cs[n - idx]
        }
    }
}

proof fn lemma_normal_prefix_len(cs: Seq<Seq<char>>, k: int)
    requires
        0 <= k <= cs.len(),
    ensures
        normal_prefix(cs, k).len() <= k,
        forall|j: int|
            #![trigger normal_prefix(cs, k)[j]]
            0 <= j < normal_prefix(cs, k).len() ==> exists|m: int|
                0 <= m < k && normal_prefix(cs, k)[j] == #[trigger] cs[m],
    decreases k,
{
    if k > 0 {
        lemma_normal_prefix_len(cs, k - 1);
        let prev = normal_prefix(cs, k - 1);
        let cur = normal_prefix(cs, k);
        assert forall|j: int| #![trigger cur[j]] 0 <= j < cur.len() implies exists|m: int|
            0 <= m < k && cur[j] == #[trigger] cs[m] by {
            if j < prev.len() {
                let m = choose|m: int| 0 <= m < k - 1 && prev[j] == #[trigger] cs[m];
                assert(cur[j] == cs[m]);
            } else {
                assert(cur[j] == cs[k - 1]);
            }
        }
    }
}

proof fn lemma_real_segments_from(segs: Seq<Seq<char>>, k: int)
    requires
        0 <= k <= segs.len(),
    ensures
        real_segments(segs, k).len() <= k,
        forall|j: int|
            #![trigger real_segments(segs, k)[j]]
            0 <= j < real_segments(segs, k).len() ==> exists|m: int|
                0 <= m < k && real_segments(segs, k)[j] == #[trigger] segs[m],
    decreases k,
{
    if k > 0 {
        lemma_real_segments_from(segs, k - 1);
        let prev = real_segments(segs, k - 1);
        let cur = real_segments(segs, k);
        assert forall|j: int| #![trigger cur[j]] 0 <= j < cur.len() implies exists|m: int|
            0 <= m < k && cur[j] == #[trigger] segs[m] by {
            if j < prev.len() {
                let m = choose|m: int| 0 <= m < k - 1 && prev[j] == #[trigger] segs[m];
                assert(cur[j] == segs[m]);
            } else {
                assert(cur[j] == segs[k - 1]);
            }
        }
    }
}

/// Every normal component is no longer than the path.
proof fn lemma_normal_component_len(s: Seq<char>, j: int)
    requires
        0 <= j < normal_components(s).len(),
    ensures
        normal_components(s)[j].len() <= s.len(),
{
    let cs = components(s);
    let segs = split_on(s, '/');
    lemma_split_len(s, '/');
    lemma_normal_prefix_len(cs, cs.len() as int);
    let m = choose|m: int| 0 <= m < cs.len() && normal_prefix(cs, cs.len() as int)[j] == #[trigger] cs[m];
    let head = (if s.len() > 0 && s[0] == '/' {
        seq![root_marker()]
    } else {
        Seq::<Seq<char>>::empty()
    });
    lemma_real_segments_from(segs, segs.len() as int);
    if m < head.len() {
        assert(cs[m] == root_marker());
        assert(is_normal(cs[m]) == false);
        // root is never normal, so it cannot be the chosen component
        lemma_normal_prefix_members_normal(cs, cs.len() as int);
        assert(false);
    } else {
        let k = m - head.len();
        assert(cs[m] == real_segments(segs, segs.len() as int)[k]);
        let q = choose|q: int|
            0 <= q < segs.len() && real_segments(segs, segs.len() as int)[k] == #[trigger] segs[q];
        lemma_segment_len(s, '/', q);
    }
}

proof fn lemma_normal_prefix_members_normal(cs: Seq<Seq<char>>, k: int)
    requires
        0 <= k <= cs.len(),
    ensures
        forall|j: int| 0 <= j < normal_prefix(cs, k).len() ==> is_normal(#[trigger] normal_prefix(cs, k)[j]),
    decreases k,
{
    if k > 0 {
        lemma_normal_prefix_members_normal(cs, k - 1);
        let prev = normal_prefix(cs, k - 1);
        let cur = normal_prefix(cs, k);
        assert forall|j: int| 0 <= j < cur.len() implies is_normal(#[trigger] cur[j]) by {
            if j < prev.len() {
                assert(cur[j] == prev[j]);
            }
        }
    }
}

/// Title of an archive from its path and the title depth setting
/// (see [`derived_title`]). Level 0 is only accepted for a path without
/// components (whose title is empty): elsewhere it would index past the end.
pub fn derive_title(path: &str, level: u32) -> (r: String)
    requires
        level >= 1 || normal_components(path@).len() == 0,
    ensures
        r@ == derived_title(path@, level as nat),
{
    let v = chars_of(path);
    let cs = normal_components_exec(v.as_slice());
    let n = cs.len();
    if n == 0 {
        return String::new();
    }
    let idx: usize = if level as usize > n {
        1
    } else {
        level as usize
    };
    if idx == 1 {
        proof {
            lemma_normal_component_len(path@, n - 1);
        }
        let stem = stem_chars(cs[n - 1].as_slice());
        string_from_chars(stem.as_slice())
    } else {
        string_from_chars(cs[n - idx].as_slice())
    }
}

} // verus!

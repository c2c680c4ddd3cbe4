//! Disk cache budgets: which cached directories (covers, page thumbnails,
//! extractions) to evict, newest kept first, so that the rest fits.

use vstd::prelude::*;
use crate::http::{instant, time_le, FileTime};
use crate::paths::{file_name, file_name_chars};
use crate::text::{chars_of, parse_i64, parse_i64_spec, string_from_chars};

verus! {

/// The budget of the library's cover cache (512 MiB).
pub const COVER_CACHE_BUDGET_BYTES: u64 = 536870912;

/// The budget of the reader's page thumbnail cache (1 GiB).
pub const PAGE_THUMB_CACHE_BUDGET_BYTES: u64 = 1073741824;

/// The budget of the RAR/7z extraction cache (4 GiB).
pub const EXTRACT_CACHE_BUDGET_BYTES: u64 = 4294967296;

/// A cached directory: its path, modification time and size.
pub struct CacheDir {
    pub path: String,
    pub mtime: FileTime,
    pub size: u64,
}

/// The eviction state after going through the first entries, newest
/// first: the bytes kept so far and, for each entry, whether it goes. The
/// newest entry and the excluded one always stay; any other stays when it
/// still fits in the budget beside what is kept.
pub open spec fn evictions(sizes: Seq<u64>, ids: Seq<Option<i64>>, budget: u64, exclude: Option<i64>, n: int) -> (int, Seq<bool>)
    decreases n,
{
    if n <= 0 {
        (0, Seq::<bool>::empty())
    } else {
        let (used, ev) = evictions(sizes, ids, budget, exclude, n - 1);
        let i = n - 1;
        let excluded = exclude is Some && ids[i] == exclude;
        if i == 0 || excluded || used + sizes[i] <= budget {
            (used + sizes[i], ev.push(false))
        } else {
            (used, ev.push(true))
        }
    }
}

/// The sum of the first `n` sizes.
pub open spec fn size_sum(sizes: Seq<u64>, n: int) -> int
    decreases n,
{
    if n <= 0 {
        0
    } else {
        size_sum(sizes, n - 1) + sizes[n - 1]
    }
}

proof fn lemma_used_bounded(sizes: Seq<u64>, ids: Seq<Option<i64>>, budget: u64, exclude: Option<i64>, n: int)
    requires
        0 <= n <= sizes.len(),
        n <= ids.len(),
    ensures
        0 <= evictions(sizes, ids, budget, exclude, n).0 <= size_sum(sizes, n),
        evictions(sizes, ids, budget, exclude, n).1.len() == if n < 0 {
            0
        } else {
            n
        },
    decreases n,
{
    if n > 0 {
        lemma_used_bounded(sizes, ids, budget, exclude, n - 1);
    }
}

proof fn lemma_size_sum_mono(sizes: Seq<u64>, a: int, b: int)
    requires
        0 <= a <= b <= sizes.len(),
    ensures
        size_sum(sizes, a) <= size_sum(sizes, b),
    decreases b - a,
{
    if a < b {
        lemma_size_sum_mono(sizes, a, b - 1);
    }
}

/// Which entries (newest first) to evict under a budget (see [`evictions`]).
pub fn select_evictions(sizes: &Vec<u64>, ids: &Vec<Option<i64>>, budget: u64, exclude: Option<i64>) -> (r: Vec<bool>)
    requires
        ids@.len() == sizes@.len(),
        size_sum(sizes@, sizes@.len() as int) <= u64::MAX,
    ensures
        r@ == evictions(sizes@, ids@, budget, exclude, sizes@.len() as int).1,
{
    let mut used: u64 = 0;
    let mut ev: Vec<bool> = Vec::new();
    let mut i: usize = 0;
    while i < sizes.len()
        invariant
            i <= sizes@.len() == ids@.len(),
            size_sum(sizes@, sizes@.len() as int) <= u64::MAX,
            (used as int, ev@) == evictions(sizes@, ids@, budget, exclude, i as int),
        decreases sizes.len() - i,
    {
        proof {
            lemma_used_bounded(sizes@, ids@, budget, exclude, i as int);
            lemma_size_sum_mono(sizes@, i as int + 1, sizes@.len() as int);
        }
        let excluded = match exclude {
            Some(_) => ids[i] == exclude,
            None => false,
        };
        if i == 0 || excluded || used + sizes[i] <= budget {
            used = used + sizes[i];
            ev.push(false);
        } else {
            ev.push(true);
        }
        i = i + 1;
    }
    ev
}

/// Times in non-increasing order: newest first.
pub open spec fn newest_first(ts: Seq<FileTime>) -> bool {
    forall|a: int, b: int| 0 <= a < b < ts.len() ==> instant(#[trigger] ts[a]) >= instant(#[trigger] ts[b])
}

/// The modification times of a list of cached directories.
pub open spec fn mtimes_of(dirs: Seq<CacheDir>) -> Seq<FileTime> {
    dirs.map_values(|d: CacheDir| d.mtime)
}

proof fn lemma_insert_newest_first(s: Seq<FileTime>, p: int, x: FileTime)
    requires
        newest_first(s),
        0 <= p <= s.len(),
        p > 0 ==> instant(s[p - 1]) >= instant(x),
        forall|q: int| p <= q < s.len() ==> instant(#[trigger] s[q]) < instant(x),
    ensures
        newest_first(s.insert(p, x)),
{
    let t = s.insert(p, x);
    assert forall|a: int, b: int| 0 <= a < b < t.len() implies instant(#[trigger] t[a]) >= instant(#[trigger] t[b]) by {
        if b < p {
            assert(t[a] == s[a] && t[b] == s[b]);
        } else if b == p {
            assert(t[a] == s[a]);
            assert(instant(s[a]) >= instant(s[p - 1]));
        } else if a < p {
            assert(t[a] == s[a] && t[b] == s[b - 1]);
        } else if a == p {
            assert(t[a] == x && t[b] == s[b - 1]);
        } else {
            assert(t[a] == s[a - 1] && t[b] == s[b - 1]);
        }
    }
}

impl CacheDir {
    /// An exact copy.
    pub fn copy(&self) -> (r: Self)
        ensures
            r == *self,
    {
        CacheDir { path: self.path.clone(), mtime: self.mtime, size: self.size }
    }
}

/// Where a directory modified at `t` goes among times already ordered
/// newest first: after the last one that is not older (0 when all are).
pub open spec fn time_slot(ts: Seq<FileTime>, t: FileTime) -> nat
    decreases ts.len(),
{
    if ts.len() == 0 {
        0
    } else if instant(ts.last()) < instant(t) {
        time_slot(ts.drop_last(), t)
    } else {
        ts.len()
    }
}

/// The directories newest first: each, in turn, goes after the last one
/// already placed that is not older, so directories with equal times keep
/// their relative order (a stable sort by time, descending).
pub open spec fn newest_first_of(dirs: Seq<CacheDir>) -> Seq<CacheDir>
    decreases dirs.len(),
{
    if dirs.len() == 0 {
        Seq::<CacheDir>::empty()
    } else {
        let placed = newest_first_of(dirs.drop_last());
        placed.insert(time_slot(mtimes_of(placed), dirs.last().mtime) as int, dirs.last())
    }
}

/// Orders cached directories newest first (see [`newest_first_of`]).
pub fn newest_first_order(dirs: &Vec<CacheDir>) -> (r: Vec<CacheDir>)
    ensures
        r@ == newest_first_of(dirs@),
        r@.to_multiset() == dirs@.to_multiset(),
        newest_first(mtimes_of(r@)),
{
    let mut out: Vec<CacheDir> = Vec::new();
    let n = dirs.len();
    let mut taken: usize = 0;
    assert(dirs@.take(0) =~= Seq::<CacheDir>::empty());
    assert(out@ =~= Seq::<CacheDir>::empty());
    while taken < n
        invariant
            taken <= n == dirs@.len(),
            out@.to_multiset() == dirs@.take(taken as int).to_multiset(),
            newest_first(mtimes_of(out@)),
            out@ == newest_first_of(dirs@.take(taken as int)),
        decreases n - taken,
    {
        let x = dirs[taken].copy();
        let mut p: usize = out.len();
        let ghost ts = mtimes_of(out@);
        assert(ts.take(p as int) =~= ts);
        while p > 0 && !time_le(x.mtime, out[p - 1].mtime)
            invariant
                p <= out@.len(),
                ts == mtimes_of(out@),
                forall|q: int| p <= q < out@.len() ==> instant(#[trigger] mtimes_of(out@)[q]) < instant(x.mtime),
                time_slot(ts, x.mtime) == time_slot(ts.take(p as int), x.mtime),
            decreases p,
        {
            assert(ts.take(p as int).drop_last() =~= ts.take(p - 1));
            p = p - 1;
        }
        assert(time_slot(ts, x.mtime) == p);
        let ghost before = out@;
        let ghost gx = x;
        out.insert(p, x);
        proof {
            assert(dirs@.take(taken as int + 1).drop_last() =~= dirs@.take(taken as int));
            assert(gx == dirs@[taken as int]);
            lemma_insert_newest_first(mtimes_of(before), p as int, gx.mtime);
            assert(mtimes_of(out@) =~= mtimes_of(before).insert(p as int, gx.mtime));
            vstd::seq_lib::to_multiset_insert(before, p as int, gx);
            vstd::seq_lib::to_multiset_build(dirs@.take(taken as int), dirs@[taken as int]);
            assert(dirs@.take(taken as int + 1) =~= dirs@.take(taken as int).push(dirs@[taken as int]));
        }
        taken = taken + 1;
    }
    assert(dirs@.take(n as int) =~= dirs@);
    out
}

/// The id a cache directory is named by: its file name as an integer.
pub open spec fn dir_id(path: Seq<char>) -> Option<i64> {
    match file_name(path) {
        Some(n) => parse_i64_spec(n),
        None => None,
    }
}

fn dir_id_exec(path: &str) -> (r: Option<i64>)
    ensures
        r == dir_id(path@),
{
    let v = chars_of(path);
    match file_name_chars(v.as_slice()) {
        Some(n) => parse_i64(n.as_slice()),
        None => None,
    }
}

/// The paths of the entries marked for eviction, in order.
pub open spec fn evicted_paths(sorted: Seq<CacheDir>, ev: Seq<bool>, n: int) -> Seq<Seq<char>>
    decreases n,
{
    if n <= 0 {
        Seq::<Seq<char>>::empty()
    } else if ev[n - 1] {
        evicted_paths(sorted, ev, n - 1).push(sorted[n - 1].path@)
    } else {
        evicted_paths(sorted, ev, n - 1)
    }
}

/// The sizes of a list of cached directories.
pub open spec fn sizes_of(dirs: Seq<CacheDir>) -> Seq<u64> {
    dirs.map_values(|d: CacheDir| d.size)
}

/// The ids of a list of cached directories.
pub open spec fn ids_of(dirs: Seq<CacheDir>) -> Seq<Option<i64>> {
    dirs.map_values(|d: CacheDir| dir_id(d.path@))
}

/// The texts of a vector of strings.
pub open spec fn texts(v: Seq<String>) -> Seq<Seq<char>> {
    v.map_values(|s: String| s@)
}

/// The eviction decision for a newest-first list of directories (see
/// [`evictions`]): the paths to delete, newest first.
pub open spec fn eviction_of(sorted: Seq<CacheDir>, budget: u64, exclude_id: Option<i64>) -> Seq<Seq<char>> {
    evicted_paths(
        sorted,
        evictions(sizes_of(sorted), ids_of(sorted), budget, exclude_id, sorted.len() as int).1,
        sorted.len() as int,
    )
}

proof fn lemma_size_sum_perm(a: Seq<CacheDir>, b: Seq<CacheDir>)
    requires
        a.to_multiset() == b.to_multiset(),
    ensures
        size_sum(sizes_of(a), a.len() as int) == size_sum(sizes_of(b), b.len() as int),
    decreases a.len(),
{
    vstd::seq_lib::to_multiset_len(a);
    vstd::seq_lib::to_multiset_len(b);
    if a.len() > 0 {
        let x = a.last();
        vstd::seq_lib::to_multiset_contains(b, x);
        vstd::seq_lib::to_multiset_contains(a, x);
        assert(a.to_multiset().contains(x)) by {
            assert(a.contains(x)) by {
                assert(a[a.len() - 1] == x);
            }
        }
        let j = choose|j: int| 0 <= j < b.len() && b[j] == x;
        let b2 = b.remove(j);
        vstd::seq_lib::to_multiset_remove(b, j);
        vstd::seq_lib::to_multiset_build(a.drop_last(), x);
        assert(a.drop_last().push(x) =~= a);
        assert(a.drop_last().to_multiset() =~= b2.to_multiset());
        lemma_size_sum_perm(a.drop_last(), b2);
        assert(sizes_of(a.drop_last()) =~= sizes_of(a).drop_last());
        lemma_size_sum_prefix(sizes_of(a), a.len() - 1);
        lemma_size_sum_remove(sizes_of(b), j);
        assert(sizes_of(b2) =~= sizes_of(b).remove(j));
    }
}

proof fn lemma_size_sum_prefix(s: Seq<u64>, n: int)
    requires
        0 <= n <= s.len(),
    ensures
        size_sum(s.take(n), n) == size_sum(s, n),
    decreases n,
{
    if n > 0 {
        lemma_size_sum_prefix(s, n - 1);
        assert(s.take(n).take(n - 1) =~= s.take(n - 1));
        lemma_size_sum_prefix_same(s.take(n), s, n - 1);
    }
}

proof fn lemma_size_sum_prefix_same(a: Seq<u64>, b: Seq<u64>, n: int)
    requires
        0 <= n <= a.len(),
        n <= b.len(),
        forall|i: int| 0 <= i < n ==> a[i] == b[i],
    ensures
        size_sum(a, n) == size_sum(b, n),
    decreases n,
{
    if n > 0 {
        lemma_size_sum_prefix_same(a, b, n - 1);
    }
}

proof fn lemma_size_sum_remove(s: Seq<u64>, j: int)
    requires
        0 <= j < s.len(),
    ensures
        size_sum(s, s.len() as int) == size_sum(s.remove(j), s.len() - 1) + s[j],
    decreases s.len(),
{
    let t = s.remove(j);
    if j == s.len() - 1 {
        assert(t =~= s.drop_last());
        lemma_size_sum_prefix_same(t, s, s.len() - 1);
    } else {
        lemma_size_sum_remove(s.drop_last(), j);
        assert(s.drop_last().remove(j) =~= t.drop_last());
        lemma_size_sum_prefix_same(s.drop_last(), s, s.len() - 1);
        lemma_size_sum_prefix_same(s.drop_last().remove(j), t, s.len() - 2);
        assert(t[s.len() - 2] == s[s.len() - 1]);
    }
}

/// The cache directories to delete under a budget: the directories are put
/// newest first (see [`newest_first_of`]), then, going down the list,
/// the newest one and the one named by `exclude_id` are kept, any other is
/// kept when it still fits in the budget beside what is kept, and the rest
/// are evicted (see [`eviction_of`]).
pub fn evict_dirs_by_mtime(dirs: Vec<CacheDir>, budget: u64, exclude_id: Option<i64>) -> (r: Vec<String>)
    requires
        size_sum(sizes_of(dirs@), dirs@.len() as int) <= u64::MAX,
    ensures
        texts(r@) == eviction_of(newest_first_of(dirs@), budget, exclude_id),
        newest_first_of(dirs@).to_multiset() == dirs@.to_multiset(),
        newest_first(mtimes_of(newest_first_of(dirs@))),
{
    let ghost orig = dirs@;
    let sorted = newest_first_order(&dirs);
    proof {
        lemma_size_sum_perm(sorted@, orig);
    }
    let mut sizes: Vec<u64> = Vec::new();
    let mut ids: Vec<Option<i64>> = Vec::new();
    let mut i: usize = 0;
    while i < sorted.len()
        invariant
            i <= sorted@.len(),
            sizes@ == sizes_of(sorted@.take(i as int)),
            ids@ == ids_of(sorted@.take(i as int)),
        decreases sorted.len() - i,
    {
        sizes.push(sorted[i].size);
        ids.push(dir_id_exec(sorted[i].path.as_str()));
        assert(sorted@.take(i as int + 1) =~= sorted@.take(i as int).push(sorted@[i as int]));
        assert(sizes@ =~= sizes_of(sorted@.take(i as int + 1)));
        assert(ids@ =~= ids_of(sorted@.take(i as int + 1)));
        i = i + 1;
    }
    assert(sorted@.take(sorted@.len() as int) =~= sorted@);
    let ev = select_evictions(&sizes, &ids, budget, exclude_id);
    proof {
        lemma_used_bounded(sizes@, ids@, budget, exclude_id, sizes@.len() as int);
    }
    let mut r: Vec<String> = Vec::new();
    let mut k: usize = 0;
    while k < sorted.len()
        invariant
            k <= sorted@.len() == ev@.len(),
            ev@ == evictions(sizes_of(sorted@), ids_of(sorted@), budget, exclude_id, sorted@.len() as int).1,
            texts(r@) == evicted_paths(sorted@, ev@, k as int),
        decreases sorted.len() - k,
    {
        if ev[k] {
            let ghost rb = texts(r@);
            r.push(sorted[k].path.clone());
            assert(texts(r@) =~= rb.push(sorted@[k as int].path@));
        }
        k = k + 1;
    }
    assert(newest_first(mtimes_of(sorted@)));
    r
}

/// The covers to evict, given the cached covers' ids and sizes in order of
/// last access, most recent first (see [`evictions`]).
pub fn evict_cover_dirs(ids: &Vec<i64>, sizes: &Vec<u64>, budget: u64, exclude_id: Option<i64>) -> (r: Vec<i64>)
    requires
        ids@.len() == sizes@.len(),
        size_sum(sizes@, sizes@.len() as int) <= u64::MAX,
    ensures
        ({
            let ev = evictions(sizes@, ids@.map_values(|i: i64| Some(i)), budget, exclude_id, sizes@.len() as int).1;
            r@ == evicted_ids(ids@, ev, ids@.len() as int)
        }),
{
    let mut opt_ids: Vec<Option<i64>> = Vec::new();
    let mut i: usize = 0;
    while i < ids.len()
        invariant
            i <= ids@.len(),
            opt_ids@ == ids@.take(i as int).map_values(|x: i64| Some(x)),
        decreases ids.len() - i,
    {
        opt_ids.push(Some(ids[i]));
        assert(ids@.take(i as int + 1) =~= ids@.take(i as int).push(ids@[i as int]));
        assert(opt_ids@ =~= ids@.take(i as int + 1).map_values(|x: i64| Some(x)));
        i = i + 1;
    }
    assert(ids@.take(ids@.len() as int) =~= ids@);
    let ev = select_evictions(sizes, &opt_ids, budget, exclude_id);
    proof {
        lemma_used_bounded(sizes@, opt_ids@, budget, exclude_id, sizes@.len() as int);
    }
    let mut r: Vec<i64> = Vec::new();
    let mut k: usize = 0;
    while k < ids.len()
        invariant
            k <= ids@.len() == ev@.len(),
            r@ == evicted_ids(ids@, ev@, k as int),
        decreases ids.len() - k,
    {
        if ev[k] {
            r.push(ids[k]);
        }
        k = k + 1;
    }
    r
}

/// The ids of the entries marked for eviction, in order.
pub open spec fn evicted_ids(ids: Seq<i64>, ev: Seq<bool>, n: int) -> Seq<i64>
    decreases n,
{
    if n <= 0 {
        Seq::<i64>::empty()
    } else if ev[n - 1] {
        evicted_ids(ids, ev, n - 1).push(ids[n - 1])
    } else {
        evicted_ids(ids, ev, n - 1)
    }
}

/// Eviction never removes the most recent entry nor the excluded one, and
/// removes nothing when everything fits in the budget.
pub proof fn law_eviction_keeps_newest_and_excluded(
    sizes: Seq<u64>,
    ids: Seq<Option<i64>>,
    budget: u64,
    exclude: Option<i64>,
    n: int,
)
    requires
        0 <= n <= sizes.len(),
        n <= ids.len(),
    ensures
        n > 0 ==> !evictions(sizes, ids, budget, exclude, n).1[0],
        forall|i: int|
            0 <= i < n && exclude is Some && ids[i] == exclude ==> !#[trigger] evictions(sizes, ids, budget, exclude, n).1[i],
        size_sum(sizes, n) <= budget ==> forall|i: int| 0 <= i < n ==> !#[trigger] evictions(sizes, ids, budget, exclude, n).1[i],
    decreases n,
{
    if n > 0 {
        law_eviction_keeps_newest_and_excluded(sizes, ids, budget, exclude, n - 1);
        lemma_used_bounded(sizes, ids, budget, exclude, n - 1);
        lemma_size_sum_mono(sizes, n - 1, n);
        let (used, ev) = evictions(sizes, ids, budget, exclude, n - 1);
        let full = evictions(sizes, ids, budget, exclude, n).1;
        assert forall|i: int| 0 <= i < n - 1 implies full[i] == ev[i] by {}
    }
}

} // verus!

//! The library list: merging archives into group cards (explicit merges by
//! `group_id`, automatic ones by same folder and same title), the group key
//! used for grouped paging, and the seeded shuffle of the random order.

use vstd::prelude::*;
use crate::models::{ArchiveRow, ListItem};
use crate::paths::{parent_dir, parent_dir_of};
use crate::text::{chars_eq, chars_of, dec_int, push_char, push_i64, push_str, to_lowercase, unicode_lower};

verus! {

/// What an archive is grouped by.
pub enum RowKey {
    /// An explicit merge: the group id.
    Permanent(i64),
    /// An automatic group: parent folder, NUL, lower-cased title.
    Auto(Seq<char>),
}

/// The automatic group key: parent folder, a NUL, the lower-cased title.
pub open spec fn auto_key_of(path: Seq<char>, title: Seq<char>) -> Seq<char> {
    parent_dir(path) + seq!['\0'] + unicode_lower(title)
}

/// The group an archive belongs to.
pub open spec fn row_key(r: ArchiveRow) -> RowKey {
    match r.group_id {
        Some(g) => RowKey::Permanent(g),
        None => RowKey::Auto(auto_key_of(r.path@, r.title@)),
    }
}

/// The group keys of a list of archives.
pub open spec fn keys_of(rows: Seq<ArchiveRow>) -> Seq<RowKey> {
    rows.map_values(|r: ArchiveRow| row_key(r))
}

/// Row `i` is the first of its group.
pub open spec fn is_first(ks: Seq<RowKey>, i: int) -> bool {
    !ks.take(i).contains(ks[i])
}

/// The rows among the first `n` that open a group, in order.
pub open spec fn firsts(ks: Seq<RowKey>, n: int) -> Seq<int>
    decreases n,
{
    if n <= 0 {
        Seq::<int>::empty()
    } else if is_first(ks, n - 1) {
        firsts(ks, n - 1).push(n - 1)
    } else {
        firsts(ks, n - 1)
    }
}

/// How many of the first `n` rows have key `k`.
pub open spec fn count_key(ks: Seq<RowKey>, k: RowKey, n: int) -> nat
    decreases n,
{
    if n <= 0 {
        0
    } else {
        count_key(ks, k, n - 1) + (if ks[n - 1] == k {
            1nat
        } else {
            0nat
        })
    }
}

/// The first of the first `n` rows with key `k` and id `gid`, or -1.
pub open spec fn first_with_id(rows: Seq<ArchiveRow>, ks: Seq<RowKey>, k: RowKey, gid: i64, n: int) -> int
    decreases n,
{
    if n <= 0 {
        -1
    } else {
        let p = first_with_id(rows, ks, k, gid, n - 1);
        if p >= 0 {
            p
        } else if ks[n - 1] == k && rows[n - 1].id == gid {
            n - 1
        } else {
            -1
        }
    }
}

/// The card for the group opened by row `f`:
/// - an explicit merge shows the member whose id is the group id (else the
///   first member), is a group, and counts its members;
/// - an automatic group of one is the plain archive;
/// - a larger automatic group shows its first member, counts its members,
///   and carries its key and folder.
/// Reading progress and tags are not attached here.
pub open spec fn card_ok(rows: Seq<ArchiveRow>, f: int, item: ListItem) -> bool {
    let ks = keys_of(rows);
    let n = rows.len() as int;
    let cnt = count_key(ks, ks[f], n);
    &&& item.read_page is None
    &&& item.tags is None
    &&& match ks[f] {
        RowKey::Permanent(gid) => {
            let m = first_with_id(rows, ks, ks[f], gid, n);
            &&& item.archive == rows[if m >= 0 {
                m
            } else {
                f
            }]
            &&& item.is_group
            &&& item.chapter_count == Some(cnt as i64)
            &&& item.auto_group is None
            &&& item.auto_key is None
            &&& item.parent_dir is None
        },
        RowKey::Auto(key) => {
            &&& item.archive == rows[f]
            &&& if cnt < 2 {
                &&& !item.is_group
                &&& item.chapter_count is None
                &&& item.auto_group is None
                &&& item.auto_key is None
                &&& item.parent_dir is None
            } else {
                &&& item.is_group
                &&& item.chapter_count == Some(cnt as i64)
                &&& item.auto_group == Some(true)
                &&& item.auto_key matches Some(k) && k@ == key
                &&& item.parent_dir matches Some(p) && p@ == parent_dir(rows[f].path@)
            }
        },
    }
}

/// The list of cards for a list of archives: one card per group, in the
/// order of each group's first member (see [`card_ok`]).
pub open spec fn cards_ok(rows: Seq<ArchiveRow>, items: Seq<ListItem>) -> bool {
    let fs = firsts(keys_of(rows), rows.len() as int);
    &&& items.len() == fs.len()
    &&& forall|i: int| 0 <= i < items.len() ==> card_ok(rows, #[trigger] fs[i], items[i])
}

struct ExecKey {
    permanent: Option<i64>,
    auto: Vec<char>,
}

spec fn key_view(k: ExecKey) -> RowKey {
    match k.permanent {
        Some(g) => RowKey::Permanent(g),
        None => RowKey::Auto(k.auto@),
    }
}

spec fn key_views(ks: Seq<ExecKey>) -> Seq<RowKey> {
    ks.map_values(|k: ExecKey| key_view(k))
}

fn same_key(a: &ExecKey, b: &ExecKey) -> (r: bool)
    ensures
        r == (key_view(*a) == key_view(*b)),
{
    match (a.permanent, b.permanent) {
        (Some(x), Some(y)) => x == y,
        (None, None) => chars_eq(a.auto.as_slice(), b.auto.as_slice()),
        _ => false,
    }
}

fn key_for(r: &ArchiveRow) -> (k: ExecKey)
    ensures
        key_view(k) == row_key(*r),
{
    match r.group_id {
        Some(g) => ExecKey { permanent: Some(g), auto: Vec::new() },
        None => {
            let mut s = parent_dir_of(r.path.as_str());
            push_char(&mut s, '\0');
            let lower = to_lowercase(r.title.as_str());
            push_str(&mut s, lower.as_str());
            let v = chars_of(s.as_str());
            assert(v@ =~= auto_key_of(r.path@, r.title@));
            ExecKey { permanent: None, auto: v }
        },
    }
}

/// The automatic group key of an archive: parent folder, NUL, lower-cased
/// title (see [`auto_key_of`]).
pub fn auto_group_key(path: &str, title: &str) -> (r: String)
    ensures
        r@ == auto_key_of(path@, title@),
{
    let mut s = parent_dir_of(path);
    push_char(&mut s, '\0');
    let lower = to_lowercase(title);
    push_str(&mut s, lower.as_str());
    s
}

/// The grouping key used to page groups in SQL: `G<group id>` for an
/// explicit merge, otherwise `A` then the automatic key.
pub open spec fn group_key_text(path: Seq<char>, title: Seq<char>, group_id: Option<i64>) -> Seq<char> {
    match group_id {
        Some(g) => seq!['G'] + dec_int(g as int),
        None => seq!['A'] + auto_key_of(path, title),
    }
}

/// The grouping key of an archive (see [`group_key_text`]).
pub fn archive_group_key(path: &str, title: &str, group_id: Option<i64>) -> (r: String)
    ensures
        r@ == group_key_text(path@, title@, group_id),
{
    let mut s = String::new();
    match group_id {
        Some(g) => {
            push_char(&mut s, 'G');
            push_i64(&mut s, g);
            assert(s@ =~= seq!['G'] + dec_int(g as int));
        },
        None => {
            push_char(&mut s, 'A');
            let k = auto_group_key(path, title);
            push_str(&mut s, k.as_str());
            assert(s@ =~= seq!['A'] + auto_key_of(path@, title@));
        },
    }
    s
}

proof fn lemma_firsts_bounds(ks: Seq<RowKey>, n: int)
    requires
        0 <= n <= ks.len(),
    ensures
        forall|a: int| 0 <= a < firsts(ks, n).len() ==> 0 <= #[trigger] firsts(ks, n)[a] < n,
        forall|a: int|
            0 <= a < firsts(ks, n).len() ==> is_first(ks, #[trigger] firsts(ks, n)[a]),
        forall|a: int, b: int|
            0 <= a < b < firsts(ks, n).len() ==> #[trigger] firsts(ks, n)[a] < #[trigger] firsts(
                ks,
                n,
            )[b],
    decreases n,
{
    if n > 0 {
        lemma_firsts_bounds(ks, n - 1);
        let prev = firsts(ks, n - 1);
        let cur = firsts(ks, n);
        if is_first(ks, n - 1) {
            assert forall|a: int| 0 <= a < cur.len() implies cur[a] == (if a < prev.len() {
                prev[a]
            } else {
                n - 1
            }) by {}
        }
    }
}

proof fn lemma_first_with_id_bounds(rows: Seq<ArchiveRow>, ks: Seq<RowKey>, k: RowKey, gid: i64, n: int)
    requires
        0 <= n <= rows.len(),
        n <= ks.len(),
    ensures
        -1 <= first_with_id(rows, ks, k, gid, n) < n,
    decreases n,
{
    if n > 0 {
        lemma_first_with_id_bounds(rows, ks, k, gid, n - 1);
    }
}

/// Every archive falls in exactly one card: the cards' groups are pairwise
/// distinct, each row's group is one of them, and cards keep the order of
/// their first members.
pub proof fn lemma_each_row_in_one_card(rows: Seq<ArchiveRow>)
    ensures
        ({
            let ks = keys_of(rows);
            let fs = firsts(ks, rows.len() as int);
            &&& forall|a: int, b: int|
                0 <= a < b < fs.len() ==> ks[#[trigger] fs[a]] != ks[#[trigger] fs[b]]
            &&& forall|j: int|
                #![trigger ks[j]]
                0 <= j < rows.len() ==> exists|a: int| 0 <= a < fs.len() && ks[#[trigger] fs[a]] == ks[j]
            &&& forall|a: int, b: int| 0 <= a < b < fs.len() ==> #[trigger] fs[a] < #[trigger] fs[b]
        }),
{
    let ks = keys_of(rows);
    lemma_partition_distinct(ks, ks.len() as int);
    lemma_partition_covers(ks, ks.len() as int);
    lemma_firsts_bounds(ks, ks.len() as int);
}

proof fn lemma_partition_distinct(ks: Seq<RowKey>, n: int)
    requires
        0 <= n <= ks.len(),
    ensures
        forall|a: int, b: int|
            0 <= a < b < firsts(ks, n).len() ==> ks[#[trigger] firsts(ks, n)[a]] != ks[#[trigger] firsts(ks, n)[b]],
    decreases n,
{
    if n > 0 {
        lemma_partition_distinct(ks, n - 1);
        lemma_firsts_bounds(ks, n - 1);
        let prev = firsts(ks, n - 1);
        let cur = firsts(ks, n);
        if is_first(ks, n - 1) {
            assert forall|a: int, b: int|
                0 <= a < b < cur.len() implies ks[#[trigger] cur[a]] != ks[#[trigger] cur[b]] by {
                assert(cur[a] == prev[a]);
                if b == cur.len() - 1 {
                    let fa = prev[a];
                    assert(0 <= fa < n - 1);
                    assert(ks.take(n - 1)[fa] == ks[fa]);
                } else {
                    assert(cur[b] == prev[b]);
                }
            }
        }
    }
}

proof fn lemma_partition_covers(ks: Seq<RowKey>, n: int)
    requires
        0 <= n <= ks.len(),
    ensures
        forall|j: int|
            #![trigger ks[j]]
            0 <= j < n ==> exists|a: int|
                0 <= a < firsts(ks, n).len() && ks[#[trigger] firsts(ks, n)[a]] == ks[j],
    decreases n,
{
    if n > 0 {
        lemma_partition_covers(ks, n - 1);
        let prev = firsts(ks, n - 1);
        let cur = firsts(ks, n);
        assert forall|a: int| 0 <= a < prev.len() implies cur[a] == prev[a] by {}
        assert forall|j: int| #![trigger ks[j]] 0 <= j < n implies exists|a: int|
            0 <= a < cur.len() && ks[#[trigger] cur[a]] == ks[j] by {
            if j == n - 1 {
                if is_first(ks, n - 1) {
                    assert(cur[cur.len() - 1] == n - 1);
                } else {
                    let t = ks.take(n - 1);
                    let q = choose|q: int| 0 <= q < t.len() && t[q] == ks[n - 1];
                    assert(ks[q] == t[q]);
                    let a = choose|a: int| 0 <= a < prev.len() && ks[#[trigger] prev[a]] == ks[q];
                    assert(cur[a] == prev[a]);
                }
            } else {
                let a = choose|a: int| 0 <= a < prev.len() && ks[#[trigger] prev[a]] == ks[j];
                assert(cur[a] == prev[a]);
            }
        }
    }
}

/// Merges archives into cards: explicit merges by `group_id`, otherwise
/// same folder and same title (case-insensitively); each card keeps the
/// position of its group's first member (see [`cards_ok`]).
pub fn group_archives(rows: Vec<ArchiveRow>) -> (items: Vec<ListItem>)
    requires
        rows@.len() <= i64::MAX,
    ensures
        cards_ok(rows@, items@),
{
    let n = rows.len();
    let ghost ks = keys_of(rows@);
    let mut keys: Vec<ExecKey> = Vec::new();
    let mut i: usize = 0;
    while i < n
        invariant
            i <= n == rows@.len(),
            ks == keys_of(rows@),
            key_views(keys@) == ks.take(i as int),
        decreases n - i,
    {
        let k = key_for(&rows[i]);
        let ghost prev = key_views(keys@);
        keys.push(k);
        assert(key_views(keys@) =~= prev.push(key_view(k)));
        assert(ks.take(i as int + 1) =~= ks.take(i as int).push(ks[i as int]));
        assert(key_views(keys@) =~= ks.take(i as int + 1));
        i = i + 1;
    }
    assert(ks.take(n as int) =~= ks);
    let mut items: Vec<ListItem> = Vec::new();
    let mut f: usize = 0;
    while f < n
        invariant
            f <= n == rows@.len() <= i64::MAX,
            ks == keys_of(rows@),
            key_views(keys@) == ks,
            items@.len() == firsts(ks, f as int).len(),
            forall|a: int|
                0 <= a < items@.len() ==> card_ok(rows@, #[trigger] firsts(ks, f as int)[a], items@[a]),
        decreases n - f,
    {
        let mut j: usize = 0;
        while j < f && !same_key(&keys[j], &keys[f])
            invariant
                j <= f < n == keys@.len(),
                key_views(keys@) == ks,
                forall|q: int| 0 <= q < j ==> ks[q] != ks[f as int],
            decreases f - j,
        {
            j = j + 1;
        }
        let seen = j < f;
        proof {
            if seen {
                assert(ks.take(f as int)[j as int] == ks[f as int]);
                assert(!is_first(ks, f as int));
            } else {
                assert forall|q: int| 0 <= q < f implies ks.take(f as int)[q] != ks[f as int] by {
                    assert(ks.take(f as int)[q] == ks[q]);
                }
                assert(!ks.take(f as int).contains(ks[f as int]));
            }
        }
        if !seen {
            let mut cnt: usize = 0;
            let mut with_id: Option<usize> = None;
            let mut m: usize = 0;
            while m < n
                invariant
                    m <= n == keys@.len() == rows@.len(),
                    f < n,
                    key_views(keys@) == ks,
                    ks == keys_of(rows@),
                    cnt as nat == count_key(ks, ks[f as int], m as int),
                    cnt <= m,
                    match ks[f as int] {
                        RowKey::Permanent(gid) => match with_id {
                            Some(w) => w as int == first_with_id(rows@, ks, ks[f as int], gid, m as int),
                            None => first_with_id(rows@, ks, ks[f as int], gid, m as int) == -1,
                        },
                        RowKey::Auto(_) => true,
                    },
                decreases n - m,
            {
                if same_key(&keys[m], &keys[f]) {
                    cnt = cnt + 1;
                    if with_id.is_none() {
                        match keys[f].permanent {
                            Some(gid) => {
                                if rows[m].id == gid {
                                    with_id = Some(m);
                                }
                            },
                            None => {},
                        }
                    }
                }
                m = m + 1;
            }
            proof {
                match ks[f as int] {
                    RowKey::Permanent(gid) => {
                        lemma_first_with_id_bounds(rows@, ks, ks[f as int], gid, n as int);
                    },
                    RowKey::Auto(_) => {},
                }
            }
            let item = match keys[f].permanent {
                Some(_) => {
                    let rep = match with_id {
                        Some(w) => w,
                        None => f,
                    };
                    ListItem {
                        archive: rows[rep].copy(),
                        is_group: true,
                        chapter_count: Some(cnt as i64),
                        auto_group: None,
                        auto_key: None,
                        parent_dir: None,
                        read_page: None,
                        tags: None,
                    }
                },
                None => {
                    if cnt < 2 {
                        ListItem {
                            archive: rows[f].copy(),
                            is_group: false,
                            chapter_count: None,
                            auto_group: None,
                            auto_key: None,
                            parent_dir: None,
                            read_page: None,
                            tags: None,
                        }
                    } else {
                        let key = crate::text::string_from_chars(keys[f].auto.as_slice());
                        let parent = parent_dir_of(rows[f].path.as_str());
                        ListItem {
                            archive: rows[f].copy(),
                            is_group: true,
                            chapter_count: Some(cnt as i64),
                            auto_group: Some(true),
                            auto_key: Some(key),
                            parent_dir: Some(parent),
                            read_page: None,
                            tags: None,
                        }
                    }
                },
            };
            assert(card_ok(rows@, f as int, item));
            items.push(item);
        }
        assert(firsts(ks, f as int + 1) == if is_first(ks, f as int) {
            firsts(ks, f as int).push(f as int)
        } else {
            firsts(ks, f as int)
        });
        f = f + 1;
    }
    items
}

// ---------------------------------------------------------------------------
// Seeded shuffle
// ---------------------------------------------------------------------------

/// The sort key of an archive in the random order of a session: a fixed
/// mix of its id and the session seed (a splitmix64-style finalizer).
pub open spec fn random_key(id: i64, seed: i64) -> u64 {
    let h0 = (id as u64).wrapping_mul(0x9E37_79B9_7F4A_7C15u64) ^ (seed as u64);
    let h1 = h0 ^ (h0 >> 30u64);
    let h2 = h1.wrapping_mul(0xBF58_476D_1CE4_E5B9u64);
    let h3 = h2 ^ (h2 >> 27u64);
    let h4 = h3.wrapping_mul(0x94D0_49BB_1331_11EBu64);
    h4 ^ (h4 >> 31u64)
}

/// The random-order key of `(id, seed)` (see [`random_key`]); the same pair
/// always gives the same key.
pub fn stable_random_key(id: i64, seed: i64) -> (r: u64)
    ensures
        r == random_key(id, seed),
{
    let mut h: u64 = (id as u64).wrapping_mul(0x9E37_79B9_7F4A_7C15u64) ^ (seed as u64);
    h = h ^ (h >> 30u64);
    h = h.wrapping_mul(0xBF58_476D_1CE4_E5B9u64);
    h = h ^ (h >> 27u64);
    h = h.wrapping_mul(0x94D0_49BB_1331_11EBu64);
    h ^ (h >> 31u64)
}

/// A sequence of keys in non-decreasing order.
pub open spec fn keys_sorted(s: Seq<u64>) -> bool {
    forall|a: int, b: int| 0 <= a < b < s.len() ==> #[trigger] s[a] <= #[trigger] s[b]
}

/// The random-order keys of a list of archives.
pub open spec fn random_keys(rows: Seq<ArchiveRow>, seed: i64) -> Seq<u64> {
    rows.map_values(|r: ArchiveRow| random_key(r.id, seed))
}

proof fn lemma_insert_sorted(s: Seq<u64>, p: int, x: u64)
    requires
        keys_sorted(s),
        0 <= p <= s.len(),
        p > 0 ==> s[p - 1] <= x,
        forall|q: int| p <= q < s.len() ==> x < #[trigger] s[q],
    ensures
        keys_sorted(s.insert(p, x)),
{
    let t = s.insert(p, x);
    assert forall|a: int, b: int| 0 <= a < b < t.len() implies #[trigger] t[a] <= #[trigger] t[b] by {
        if b < p {
            assert(t[a] == s[a] && t[b] == s[b]);
        } else if b == p {
            assert(t[b] == x);
            assert(t[a] == s[a]);
            assert(s[a] <= s[p - 1]);
        } else if a < p {
            assert(t[a] == s[a] && t[b] == s[b - 1]);
        } else if a == p {
            assert(t[a] == x && t[b] == s[b - 1]);
        } else {
            assert(t[a] == s[a - 1] && t[b] == s[b - 1]);
        }
    }
}

/// Where a key goes among `keys`: after the last key that is not above it
/// (0 when every key is above it).
pub open spec fn slot(keys: Seq<u64>, k: u64) -> nat
    decreases keys.len(),
{
    if keys.len() == 0 {
        0
    } else if keys.last() > k {
        slot(keys.drop_last(), k)
    } else {
        keys.len()
    }
}

/// The archives in random order under `seed`: each archive, in turn, goes
/// after the last one already placed whose key is not above its own, so
/// archives with equal keys keep their relative order.
pub open spec fn seeded_order(rows: Seq<ArchiveRow>, seed: i64) -> Seq<ArchiveRow>
    decreases rows.len(),
{
    if rows.len() == 0 {
        Seq::<ArchiveRow>::empty()
    } else {
        let placed = seeded_order(rows.drop_last(), seed);
        placed.insert(slot(random_keys(placed, seed), random_key(rows.last().id, seed)) as int, rows.last())
    }
}

/// Orders archives by their random-order key under `seed` (see
/// [`seeded_order`]): the result holds the same archives, with
/// non-decreasing keys, archives with equal keys keeping their relative
/// order; the same rows and seed always give the same order.
pub fn shuffle_by_seed(rows: Vec<ArchiveRow>, seed: i64) -> (r: Vec<ArchiveRow>)
    ensures
        r@ == seeded_order(rows@, seed),
        r@.to_multiset() == rows@.to_multiset(),
        keys_sorted(random_keys(r@, seed)),
{
    let mut out: Vec<ArchiveRow> = Vec::new();
    let ghost orig = rows@;
    let n = rows.len();
    let mut consumed: usize = 0;
    assert(orig.take(0) =~= Seq::<ArchiveRow>::empty());
    assert(out@ =~= Seq::<ArchiveRow>::empty());
    while consumed < n
        invariant
            consumed <= n == orig.len(),
            rows@ == orig,
            out@.to_multiset() == orig.take(consumed as int).to_multiset(),
            keys_sorted(random_keys(out@, seed)),
            out@ == seeded_order(orig.take(consumed as int), seed),
        decreases n - consumed,
    {
        let x = rows[consumed].copy();
        let kx = stable_random_key(x.id, seed);
        let mut p: usize = out.len();
        let ghost keys = random_keys(out@, seed);
        assert(keys.take(p as int) =~= keys);
        while p > 0 && stable_random_key(out[p - 1].id, seed) > kx
            invariant
                p <= out@.len(),
                keys == random_keys(out@, seed),
                kx == random_key(x.id, seed),
                forall|q: int| p <= q < out@.len() ==> kx < #[trigger] random_keys(out@, seed)[q],
                slot(keys, kx) == slot(keys.take(p as int), kx),
            decreases p,
        {
            assert(keys.take(p as int).drop_last() =~= keys.take(p - 1));
            p = p - 1;
        }
        assert(slot(keys, kx) == p);
        let ghost before = out@;
        out.insert(p, x);
        proof {
            assert(orig.take(consumed as int + 1).drop_last() =~= orig.take(consumed as int));
            assert(x == orig[consumed as int]);
            lemma_insert_sorted(random_keys(before, seed), p as int, kx);
            assert(random_keys(out@, seed) =~= random_keys(before, seed).insert(p as int, kx));
            vstd::seq_lib::to_multiset_insert(before, p as int, x);
            vstd::seq_lib::to_multiset_build(orig.take(consumed as int), orig[consumed as int]);
            assert(orig.take(consumed as int + 1) =~= orig.take(consumed as int).push(
                orig[consumed as int],
            ));
        }
        consumed = consumed + 1;
    }
    assert(orig.take(n as int) =~= orig);
    out
}

} // verus!

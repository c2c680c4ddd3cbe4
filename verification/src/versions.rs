//! Release version strings: `x.y.z` comparison that ignores a leading `v`,
//! pre-release and build suffixes and missing components.

use vstd::prelude::*;
use core::cmp::Ordering;
use crate::json::{json_of_bytes, parse_json_bytes, str_member, JsonModel};
use crate::metadata::text_member;
use crate::text::{chars_of, parse_i64, parse_i64_spec, string_from_chars};

verus! {

/// Characters that separate version components.
pub open spec fn is_version_sep(c: char) -> bool {
    c == '.' || c == '-' || c == '+'
}

/// `s.trim_start_matches('v')`: every leading `v` removed.
pub open spec fn strip_leading_v(s: Seq<char>) -> Seq<char>
    decreases s.len(),
{
    if s.len() > 0 && s[0] == 'v' {
        strip_leading_v(s.skip(1))
    } else {
        s
    }
}

/// The pieces of `s` between version separators (`str::split` on `.`, `-`, `+`).
pub open spec fn version_pieces(s: Seq<char>) -> Seq<Seq<char>>
    decreases s.len(),
{
    if s.len() == 0 {
        seq![Seq::<char>::empty()]
    } else {
        let p = version_pieces(s.drop_last());
        if is_version_sep(s.last()) {
            p.push(Seq::<char>::empty())
        } else {
            p.update(p.len() - 1, p.last().push(s.last()))
        }
    }
}

proof fn lemma_version_pieces_nonempty(s: Seq<char>)
    ensures
        version_pieces(s).len() >= 1,
    decreases s.len(),
{
    if s.len() > 0 {
        lemma_version_pieces_nonempty(s.drop_last());
    }
}

/// The pieces that parse as `i64`, in order; the others are dropped.
pub open spec fn parsed_numbers(pieces: Seq<Seq<char>>) -> Seq<i64>
    decreases pieces.len(),
{
    if pieces.len() == 0 {
        Seq::<i64>::empty()
    } else {
        let p = parsed_numbers(pieces.drop_last());
        match parse_i64_spec(pieces.last()) {
            Some(v) => p.push(v),
            None => p,
        }
    }
}

/// A character that starts a pre-release (`-`) or build (`+`) suffix.
pub open spec fn is_suffix_mark(c: char) -> bool {
    c == '-' || c == '+'
}

/// Where the suffix of a version starts: the index of the first `-` or
/// `+`, or the length when there is none.
pub open spec fn suffix_start(s: Seq<char>) -> nat
    decreases s.len(),
{
    if s.len() == 0 {
        0
    } else if is_suffix_mark(s[0]) {
        0
    } else {
        1 + suffix_start(s.skip(1))
    }
}

/// The release part of a version: everything before the first `-` or `+`.
pub open spec fn release_part(s: Seq<char>) -> Seq<char> {
    s.take(suffix_start(s) as int)
}

/// The numeric components of a version string: a leading `v` removed, the
/// pre-release and build suffix cut off, the rest split at `.` and the
/// pieces that are integers kept in order.
pub open spec fn version_numbers(s: Seq<char>) -> Seq<i64> {
    parsed_numbers(version_pieces(release_part(strip_leading_v(s))))
}

proof fn lemma_suffix_start_at(s: Seq<char>, k: int)
    requires
        0 <= k <= s.len(),
        forall|j: int| 0 <= j < k ==> !is_suffix_mark(#[trigger] s[j]),
        k == s.len() || is_suffix_mark(s[k]),
    ensures
        suffix_start(s) == k,
    decreases k,
{
    if k > 0 {
        assert forall|j: int| 0 <= j < k - 1 implies !is_suffix_mark(#[trigger] s.skip(1)[j]) by {
            assert(s.skip(1)[j] == s[j + 1]);
        }
        if k < s.len() {
            assert(s.skip(1)[k - 1] == s[k]);
        }
        lemma_suffix_start_at(s.skip(1), k - 1);
    }
}

proof fn lemma_suffix_start_bound(s: Seq<char>)
    ensures
        suffix_start(s) <= s.len(),
        forall|j: int| 0 <= j < suffix_start(s) ==> !is_suffix_mark(#[trigger] s[j]),
        suffix_start(s) == s.len() || is_suffix_mark(s[suffix_start(s) as int]),
    decreases s.len(),
{
    if s.len() > 0 && !is_suffix_mark(s[0]) {
        lemma_suffix_start_bound(s.skip(1));
        assert forall|j: int| 0 <= j < suffix_start(s) implies !is_suffix_mark(#[trigger] s[j]) by {
            if j > 0 {
                assert(s[j] == s.skip(1)[j - 1]);
            }
        }
        if suffix_start(s) < s.len() {
            assert(s[suffix_start(s) as int] == s.skip(1)[suffix_start(s) - 1]);
        }
    }
}

/// Component `i`, a missing component counting as 0.
pub open spec fn component(ns: Seq<i64>, i: int) -> int {
    if 0 <= i < ns.len() {
        ns[i] as int
    } else {
        0
    }
}

/// The larger of two lengths.
pub open spec fn max_len(a: Seq<i64>, b: Seq<i64>) -> int {
    if a.len() >= b.len() {
        a.len() as int
    } else {
        b.len() as int
    }
}

/// Sign of the comparison of `a` and `b` from component `i` on: the first
/// component that differs decides, `-1` when `a` is smaller there, `1` when
/// it is larger, `0` when no component from `i` on differs.
pub open spec fn compare_from(a: Seq<i64>, b: Seq<i64>, i: int) -> int
    decreases max_len(a, b) - i,
{
    if i < 0 || i >= max_len(a, b) {
        0
    } else if component(a, i) < component(b, i) {
        -1
    } else if component(a, i) > component(b, i) {
        1
    } else {
        compare_from(a, b, i + 1)
    }
}

/// The order of two version strings as a sign: `-1`, `0` or `1`.
pub open spec fn version_order(a: Seq<char>, b: Seq<char>) -> int {
    compare_from(version_numbers(a), version_numbers(b), 0)
}

/// The `Ordering` that a sign stands for.
pub open spec fn ordering_of_sign(x: int) -> Ordering {
    if x < 0 {
        Ordering::Less
    } else if x > 0 {
        Ordering::Greater
    } else {
        Ordering::Equal
    }
}

/// Removes every leading `v`.
fn strip_leading_v_chars(s: &[char]) -> (r: usize)
    ensures
        r <= s@.len(),
        s@.skip(r as int) == strip_leading_v(s@),
{
    let mut i: usize = 0;
    assert(s@.skip(0) =~= s@);
    while i < s.len() && s[i] == 'v'
        invariant
            i <= s.len(),
            strip_leading_v(s@.skip(i as int)) == strip_leading_v(s@),
        decreases s.len() - i,
    {
        assert(s@.skip(i as int).skip(1) =~= s@.skip(i as int + 1));
        i = i + 1;
    }
    i
}

/// The numeric components of a version string.
pub fn version_numbers_exec(s: &str) -> (r: Vec<i64>)
    ensures
        r@ == version_numbers(s@),
{
    let v = chars_of(s);
    let start = strip_leading_v_chars(v.as_slice());
    let ghost stripped = v@.skip(start as int);
    let mut end: usize = start;
    while end < v.len() && v[end] != '-' && v[end] != '+'
        invariant
            start <= end <= v.len(),
            stripped == v@.skip(start as int),
            forall|j: int| 0 <= j < end - start ==> !is_suffix_mark(#[trigger] stripped[j]),
        decreases v.len() - end,
    {
        assert(stripped[end - start] == v@[end as int]);
        end = end + 1;
    }
    proof {
        if end < v.len() {
            assert(stripped[end - start] == v@[end as int]);
        }
        lemma_suffix_start_at(stripped, end - start);
    }
    let ghost body = v@.subrange(start as int, end as int);
    assert(body =~= release_part(stripped));
    let mut nums: Vec<i64> = Vec::new();
    let mut cur: Vec<char> = Vec::new();
    let mut i: usize = start;
    proof {
        assert(body.take(0) =~= Seq::<char>::empty());
        lemma_version_pieces_nonempty(body.take(0));
    }
    while i < end
        invariant
            start <= i <= end <= v.len(),
            body == v@.subrange(start as int, end as int),
            version_pieces(body.take(i - start)).len() >= 1,
            version_pieces(body.take(i - start)).last() == cur@,
            nums@ == parsed_numbers(version_pieces(body.take(i - start)).drop_last()),
        decreases end - i,
    {
        let c = v[i];
        let ghost k: int = i - start;
        assert(body[k] == v@[i as int]);
        let ghost before = version_pieces(body.take(k));
        assert(body.take(k + 1).drop_last() =~= body.take(k));
        assert(body.take(k + 1).last() == c);
        if c == '.' || c == '-' || c == '+' {
            let parsed = parse_i64(cur.as_slice());
            let ghost after = before.push(Seq::<char>::empty());
            assert(version_pieces(body.take(k + 1)) == after);
            assert(after.drop_last() =~= before);
            assert(before.drop_last().push(before.last()) =~= before);
            match parsed {
                Some(n) => {
                    nums.push(n);
                },
                None => {},
            }
            cur = Vec::new();
        } else {
            cur.push(c);
            let ghost after = before.update(before.len() - 1, before.last().push(c));
            assert(version_pieces(body.take(k + 1)) == after);
            assert(after.drop_last() =~= before.drop_last());
        }
        i = i + 1;
    }
    assert(body.take(end - start) =~= body);
    let ghost pieces = version_pieces(body);
    let parsed = parse_i64(cur.as_slice());
    assert(pieces.drop_last().push(pieces.last()) =~= pieces);
    match parsed {
        Some(n) => {
            nums.push(n);
        },
        None => {},
    }
    nums
}

/// Sign of the comparison of two version strings.
pub fn version_sign(a: &str, b: &str) -> (r: i8)
    ensures
        r as int == version_order(a@, b@),
{
    let na = version_numbers_exec(a);
    let nb = version_numbers_exec(b);
    let n: usize = if na.len() >= nb.len() {
        na.len()
    } else {
        nb.len()
    };
    let mut i: usize = 0;
    while i < n
        invariant
            i <= n,
            n as int == max_len(na@, nb@),
            na@ == version_numbers(a@),
            nb@ == version_numbers(b@),
            compare_from(na@, nb@, 0) == compare_from(na@, nb@, i as int),
        decreases n - i,
    {
        let x: i64 = if i < na.len() {
            na[i]
        } else {
            0
        };
        let y: i64 = if i < nb.len() {
            nb[i]
        } else {
            0
        };
        assert(x as int == component(na@, i as int));
        assert(y as int == component(nb@, i as int));
        if x < y {
            return -1;
        }
        if x > y {
            return 1;
        }
        i = i + 1;
    }
    0
}

/// Compares two `x.y.z` version strings: a leading `v` and any
/// pre-release or build suffix (from the first `-` or `+` on) are ignored,
/// the rest is cut at `.`, the pieces that are not integers are dropped,
/// and the remaining numbers are compared in order, a missing one counting
/// as 0.
pub fn compare_versions(a: &str, b: &str) -> (r: Ordering)
    ensures
        r == ordering_of_sign(version_order(a@, b@)),
{
    let s = version_sign(a, b);
    if s < 0 {
        Ordering::Less
    } else if s > 0 {
        Ordering::Greater
    } else {
        Ordering::Equal
    }
}

/// A release tag without its leading `v`s.
pub fn strip_v(tag: &str) -> (r: String)
    ensures
        r@ == strip_leading_v(tag@),
{
    let v = chars_of(tag);
    let start = strip_leading_v_chars(v.as_slice());
    let mut rest: Vec<char> = Vec::new();
    let mut i: usize = start;
    while i < v.len()
        invariant
            start <= i <= v.len(),
            rest@ == v@.subrange(start as int, i as int),
        decreases v.len() - i,
    {
        rest.push(v[i]);
        assert(v@.subrange(start as int, i as int + 1) =~= v@.subrange(start as int, i as int).push(
            v@[i as int],
        ));
        i = i + 1;
    }
    assert(v@.subrange(start as int, v.len() as int) =~= v@.skip(start as int));
    string_from_chars(rest.as_slice())
}

/// Whether the release `latest` is newer than the running version `local`.
pub fn update_available(latest: &str, local: &str) -> (r: bool)
    ensures
        r == (version_order(latest@, local@) > 0),
{
    version_sign(latest, local) > 0
}

proof fn lemma_compare_from_antisymmetric(a: Seq<i64>, b: Seq<i64>, i: int)
    ensures
        compare_from(a, b, i) == -compare_from(b, a, i),
    decreases max_len(a, b) - i,
{
    if !(i < 0 || i >= max_len(a, b)) {
        if component(a, i) == component(b, i) {
            lemma_compare_from_antisymmetric(a, b, i + 1);
        }
    }
}

proof fn lemma_compare_from_reflexive(a: Seq<i64>, i: int)
    ensures
        compare_from(a, a, i) == 0,
    decreases max_len(a, a) - i,
{
    if !(i < 0 || i >= max_len(a, a)) {
        lemma_compare_from_reflexive(a, i + 1);
    }
}

proof fn lemma_compare_from_sign(a: Seq<i64>, b: Seq<i64>, i: int)
    ensures
        -1 <= compare_from(a, b, i) <= 1,
    decreases max_len(a, b) - i,
{
    if !(i < 0 || i >= max_len(a, b)) {
        if component(a, i) == component(b, i) {
            lemma_compare_from_sign(a, b, i + 1);
        }
    }
}

/// The largest of three lengths.
pub open spec fn max3_len(a: Seq<i64>, b: Seq<i64>, c: Seq<i64>) -> int {
    let m = if a.len() >= b.len() {
        a.len() as int
    } else {
        b.len() as int
    };
    if m >= c.len() {
        m
    } else {
        c.len() as int
    }
}

proof fn lemma_compare_from_transitive(a: Seq<i64>, b: Seq<i64>, c: Seq<i64>, i: int)
    requires
        i >= 0,
        compare_from(a, b, i) <= 0,
        compare_from(b, c, i) <= 0,
    ensures
        compare_from(a, c, i) <= 0,
        compare_from(a, b, i) < 0 || compare_from(b, c, i) < 0 ==> compare_from(a, c, i) < 0,
    decreases max3_len(a, b, c) - i,
{
    if i < max3_len(a, b, c) {
        if component(a, i) == component(b, i) && component(b, i) == component(c, i) {
            lemma_compare_from_transitive(a, b, c, i + 1);
        }
    }
}

/// Comparing two versions one way round gives the reverse of comparing
/// them the other way round, and a version compares equal to itself.
pub proof fn law_version_order_antisymmetric(a: Seq<char>, b: Seq<char>)
    ensures
        version_order(a, b) == -version_order(b, a),
        version_order(a, a) == 0,
        -1 <= version_order(a, b) <= 1,
{
    lemma_compare_from_antisymmetric(version_numbers(a), version_numbers(b), 0);
    lemma_compare_from_reflexive(version_numbers(a), 0);
    lemma_compare_from_sign(version_numbers(a), version_numbers(b), 0);
}

/// The version order is transitive: `a <= b` and `b <= c` give `a <= c`,
/// strictly when either step is strict.
pub proof fn law_version_order_transitive(a: Seq<char>, b: Seq<char>, c: Seq<char>)
    requires
        version_order(a, b) <= 0,
        version_order(b, c) <= 0,
    ensures
        version_order(a, c) <= 0,
        version_order(a, b) < 0 || version_order(b, c) < 0 ==> version_order(a, c) < 0,
{
    lemma_compare_from_transitive(version_numbers(a), version_numbers(b), version_numbers(c), 0);
}


proof fn lemma_strip_leading_v_append(v: Seq<char>, t: Seq<char>)
    requires
        t.len() > 0,
        t[0] != 'v',
    ensures
        strip_leading_v(v + t) == strip_leading_v(v) + t,
    decreases v.len(),
{
    if v.len() > 0 {
        assert((v + t).skip(1) =~= v.skip(1) + t);
        if v[0] == 'v' {
            lemma_strip_leading_v_append(v.skip(1), t);
        }
    } else {
        assert(v + t =~= t);
        assert(Seq::<char>::empty() + t =~= t);
    }
}

proof fn lemma_release_part_append(w: Seq<char>, t: Seq<char>)
    requires
        t.len() > 0,
        is_suffix_mark(t[0]),
    ensures
        release_part(w + t) == release_part(w),
{
    lemma_suffix_start_bound(w);
    let k = suffix_start(w) as int;
    let wt = w + t;
    assert forall|j: int| 0 <= j < k implies !is_suffix_mark(#[trigger] wt[j]) by {
        assert(wt[j] == w[j]);
    }
    if k < w.len() {
        assert(wt[k] == w[k]);
    } else {
        assert(wt[k] == t[0]);
    }
    lemma_suffix_start_at(wt, k);
    assert(wt.take(k) =~= w.take(k));
}

/// A pre-release or build suffix is ignored: a version followed by `-` or
/// `+` and anything at all compares equal to the version alone.
pub proof fn law_version_suffix_ignored(v: Seq<char>, s: Seq<char>)
    ensures
        version_order(v + seq!['-'] + s, v) == 0,
        version_order(v + seq!['+'] + s, v) == 0,
        ordering_of_sign(version_order(v + seq!['-'] + s, v)) == Ordering::Equal,
{
    let t1 = seq!['-'] + s;
    let t2 = seq!['+'] + s;
    assert(v + seq!['-'] + s =~= v + t1);
    assert(v + seq!['+'] + s =~= v + t2);
    assert(t1[0] == '-' && t2[0] == '+');
    lemma_strip_leading_v_append(v, t1);
    lemma_strip_leading_v_append(v, t2);
    let w = strip_leading_v(v);
    lemma_release_part_append(w, t1);
    lemma_release_part_append(w, t2);
    lemma_compare_from_reflexive(version_numbers(v), 0);
}


/// A text, empty when absent.
pub open spec fn text_or_blank(t: Option<Seq<char>>) -> Seq<char> {
    match t {
        Some(x) => x,
        None => Seq::<char>::empty(),
    }
}

/// The latest release as the release service describes it: its tag name
/// and page address, each empty when missing or not a string.
pub open spec fn release_of(root: JsonModel) -> (Seq<char>, Seq<char>) {
    (text_or_blank(text_member(root, "tag_name"@)), text_or_blank(text_member(root, "html_url"@)))
}

/// Reads the release service's answer: the tag name and page address of
/// the latest release (see [`release_of`]); none when the answer is not
/// JSON.
pub fn release_of_answer(body: &[u8]) -> (r: Option<(String, String)>)
    ensures
        match json_of_bytes(body@) {
            Some(root) => r matches Some((tag, url)) && (tag@, url@) == release_of(root),
            None => r is None,
        },
{
    match parse_json_bytes(body) {
        Some(root) => {
            let tag = match str_member(&root, "tag_name") {
                Some(t) => t,
                None => String::new(),
            };
            let url = match str_member(&root, "html_url") {
                Some(t) => t,
                None => String::new(),
            };
            Some((tag, url))
        },
        None => None,
    }
}


proof fn lemma_release_part_extend(w: Seq<char>, t: Seq<char>)
    requires
        forall|i: int| 0 <= i < t.len() ==> !is_suffix_mark(#[trigger] t[i]),
    ensures
        suffix_start(w) < w.len() ==> release_part(w + t) == release_part(w),
        suffix_start(w) == w.len() ==> release_part(w + t) == w + t,
{
    lemma_suffix_start_bound(w);
    let k = suffix_start(w) as int;
    let wt = w + t;
    if k < w.len() {
        assert forall|j: int| 0 <= j < k implies !is_suffix_mark(#[trigger] wt[j]) by {
            assert(wt[j] == w[j]);
        }
        assert(wt[k] == w[k]);
        lemma_suffix_start_at(wt, k);
        assert(wt.take(k) =~= w.take(k));
    } else {
        assert forall|j: int| 0 <= j < wt.len() implies !is_suffix_mark(#[trigger] wt[j]) by {
            if j < w.len() {
                assert(wt[j] == w[j]);
            } else {
                assert(wt[j] == t[j - w.len()]);
            }
        }
        lemma_suffix_start_at(wt, wt.len() as int);
        assert(wt.take(wt.len() as int) =~= wt);
    }
}

proof fn lemma_compare_trailing_zero(ns: Seq<i64>, i: int)
    requires
        0 <= i,
    ensures
        compare_from(ns.push(0), ns, i) == 0,
    decreases max_len(ns.push(0), ns) - i,
{
    if i < max_len(ns.push(0), ns) {
        if i < ns.len() {
            assert(ns.push(0)[i] == ns[i]);
        } else {
            assert(ns.push(0)[i] == 0);
        }
        lemma_compare_trailing_zero(ns, i + 1);
    }
}

/// A missing component counts as 0: a version followed by `.0` compares
/// equal to the version alone.
pub proof fn law_version_trailing_zero(v: Seq<char>)
    ensures
        version_order(v + seq!['.', '0'], v) == 0,
        version_order(v, v + seq!['.', '0']) == 0,
{
    let t = seq!['.', '0'];
    lemma_strip_leading_v_append(v, t);
    let w = strip_leading_v(v);
    lemma_release_part_extend(w, t);
    lemma_suffix_start_bound(w);
    if suffix_start(w) == w.len() {
        assert(release_part(w) =~= w);
        let p = version_pieces(w);
        lemma_version_pieces_nonempty(w);
        assert((w + t).drop_last() =~= w.push('.'));
        assert(w.push('.').drop_last() =~= w);
        assert(version_pieces(w.push('.')) == p.push(Seq::<char>::empty()));
        assert(version_pieces(w + t) == p.push(seq!['0'])) by {
            assert((w + t).last() == '0');
            assert(p.push(Seq::<char>::empty()).update(p.len() as int, Seq::<char>::empty().push('0')) =~= p.push(
                seq!['0'],
            ));
        }
        assert(p.push(seq!['0']).drop_last() =~= p);
        assert(seq!['0'][0] == '0');
        assert(crate::text::digits_value(seq!['0']) == 0) by {
            let z = seq!['0'];
            assert(z.drop_last() =~= Seq::<char>::empty());
            assert(crate::text::digits_value(z.drop_last()) == 0);
            assert(z.last() == '0');
            assert(('0' as int) == 48);
        }
        assert(crate::text::all_digits(seq!['0']));
        assert(parse_i64_spec(seq!['0']) == Some(0i64));
        lemma_compare_trailing_zero(version_numbers(v), 0);
    } else {
        lemma_compare_from_reflexive(version_numbers(v), 0);
    }
    law_version_order_antisymmetric(v + t, v);
}

} // verus!

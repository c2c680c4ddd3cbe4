//! The order in which `String`s compare (code point by code point, a
//! proper prefix first) and a stable sort of strings by it.

use vstd::prelude::*;
use crate::text::{chars_of, copy_string};

verus! {

/// `a` comes no later than `b` in the lexicographic order of code points,
/// the order that `String`'s comparison gives (its UTF-8 bytes compare in
/// the same order as the code points they encode).
pub open spec fn lex_le(a: Seq<char>, b: Seq<char>) -> bool
    decreases a.len(),
{
    if a.len() == 0 {
        true
    } else if b.len() == 0 {
        false
    } else if a[0] != b[0] {
        a[0] < b[0]
    } else {
        lex_le(a.skip(1), b.skip(1))
    }
}

/// The lexicographic order is total.
pub proof fn lemma_lex_total(a: Seq<char>, b: Seq<char>)
    ensures
        lex_le(a, b) || lex_le(b, a),
    decreases a.len(),
{
    if a.len() > 0 && b.len() > 0 && a[0] == b[0] {
        lemma_lex_total(a.skip(1), b.skip(1));
    }
}

/// The lexicographic order is transitive.
pub proof fn lemma_lex_transitive(a: Seq<char>, b: Seq<char>, c: Seq<char>)
    requires
        lex_le(a, b),
        lex_le(b, c),
    ensures
        lex_le(a, c),
    decreases a.len(),
{
    if a.len() > 0 && b.len() > 0 && c.len() > 0 && a[0] == b[0] && b[0] == c[0] {
        lemma_lex_transitive(a.skip(1), b.skip(1), c.skip(1));
    }
}

/// The lexicographic order is antisymmetric.
pub proof fn lemma_lex_antisymmetric(a: Seq<char>, b: Seq<char>)
    requires
        lex_le(a, b),
        lex_le(b, a),
    ensures
        a == b,
    decreases a.len(),
{
    if a.len() > 0 && b.len() > 0 {
        lemma_lex_antisymmetric(a.skip(1), b.skip(1));
        assert(a =~= seq![a[0]] + a.skip(1));
        assert(b =~= seq![b[0]] + b.skip(1));
    }
}

/// Whether `a` comes no later than `b`.
pub fn lex_le_exec(a: &[char], b: &[char]) -> (r: bool)
    ensures
        r == lex_le(a@, b@),
{
    let mut i: usize = 0;
    assert(a@.skip(0) =~= a@ && b@.skip(0) =~= b@);
    while i < a.len() && i < b.len() && a[i] == b[i]
        invariant
            i <= a.len(),
            i <= b.len(),
            lex_le(a@, b@) == lex_le(a@.skip(i as int), b@.skip(i as int)),
        decreases a.len() - i,
    {
        assert(a@.skip(i as int).skip(1) =~= a@.skip(i as int + 1));
        assert(b@.skip(i as int).skip(1) =~= b@.skip(i as int + 1));
        i = i + 1;
    }
    if i == a.len() {
        true
    } else if i == b.len() {
        false
    } else {
        a[i] < b[i]
    }
}

/// The character views of a sequence of strings.
pub open spec fn string_views(v: Seq<String>) -> Seq<Seq<char>> {
    v.map_values(|s: String| s@)
}

/// Strings in non-decreasing lexicographic order.
pub open spec fn lex_sorted(s: Seq<Seq<char>>) -> bool {
    forall|a: int, b: int| 0 <= a < b < s.len() ==> lex_le(#[trigger] s[a], #[trigger] s[b])
}

proof fn lemma_insert_lex_sorted(s: Seq<Seq<char>>, p: int, x: Seq<char>)
    requires
        lex_sorted(s),
        0 <= p <= s.len(),
        p > 0 ==> lex_le(s[p - 1], x),
        forall|q: int| p <= q < s.len() ==> !lex_le(#[trigger] s[q], x),
    ensures
        lex_sorted(s.insert(p, x)),
{
    let t = s.insert(p, x);
    assert forall|a: int, b: int| 0 <= a < b < t.len() implies lex_le(
        #[trigger] t[a],
        #[trigger] t[b],
    ) by {
        if b < p {
            assert(t[a] == s[a] && t[b] == s[b]);
        } else if b == p {
            assert(t[a] == s[a]);
            if a < p - 1 {
                lemma_lex_transitive(s[a], s[p - 1], x);
            }
        } else if a < p {
            assert(t[a] == s[a] && t[b] == s[b - 1]);
        } else if a == p {
            assert(t[a] == x && t[b] == s[b - 1]);
            lemma_lex_total(s[b - 1], x);
        } else {
            assert(t[a] == s[a - 1] && t[b] == s[b - 1]);
        }
    }
}

/// Sorts strings in lexicographic order, as `sort` on `String`s does: the
/// result holds the same strings, in non-decreasing order.
pub fn sort_strings(v: &Vec<String>) -> (r: Vec<String>)
    ensures
        r@.to_multiset() == v@.to_multiset(),
        lex_sorted(string_views(r@)),
{
    let mut out: Vec<String> = Vec::new();
    let n = v.len();
    let mut consumed: usize = 0;
    assert(v@.take(0) =~= Seq::<String>::empty());
    assert(out@ =~= Seq::<String>::empty());
    while consumed < n
        invariant
            consumed <= n == v@.len(),
            out@.to_multiset() == v@.take(consumed as int).to_multiset(),
            lex_sorted(string_views(out@)),
        decreases n - consumed,
    {
        let x = copy_string(&v[consumed]);
        let xc = chars_of(x.as_str());
        let mut p: usize = out.len();
        loop
            invariant
                p <= out@.len(),
                xc@ == x@,
                forall|q: int| p <= q < out@.len() ==> !lex_le(#[trigger] string_views(out@)[q], x@),
            ensures
                p <= out@.len(),
                p > 0 ==> lex_le(string_views(out@)[p - 1], x@),
                forall|q: int| p <= q < out@.len() ==> !lex_le(#[trigger] string_views(out@)[q], x@),
            decreases p,
        {
            if p == 0 {
                break;
            }
            let prev = chars_of(out[p - 1].as_str());
            if lex_le_exec(prev.as_slice(), xc.as_slice()) {
                break;
            }
            p = p - 1;
        }
        let ghost before = out@;
        let ghost gx = x;
        out.insert(p, x);
        proof {
            lemma_insert_lex_sorted(string_views(before), p as int, gx@);
            assert(string_views(out@) =~= string_views(before).insert(p as int, gx@));
            vstd::seq_lib::to_multiset_insert(before, p as int, gx);
            vstd::seq_lib::to_multiset_build(v@.take(consumed as int), v@[consumed as int]);
            assert(v@.take(consumed as int + 1) =~= v@.take(consumed as int).push(
                v@[consumed as int],
            ));
        }
        consumed = consumed + 1;
    }
    assert(v@.take(n as int) =~= v@);
    out
}

} // verus!

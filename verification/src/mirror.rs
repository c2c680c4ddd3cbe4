//! Tag mirroring between two libraries: the tags of each title, as one
//! machine sends them to the other at the end of a sync, and the ids a
//! receiving machine links.

use vstd::prelude::*;
use crate::models::TagRef;
use crate::order::{lemma_lex_antisymmetric, lemma_lex_total, lemma_lex_transitive, lex_le, lex_le_exec};
use crate::sync::text_or_empty;
use crate::text::{chars_eq, chars_of, copy_string};

verus! {

/// A tag by its namespace, name and colour.
pub type TagKey = (Seq<char>, Seq<char>, Seq<char>);

/// The key of a tag.
pub open spec fn tag_key(t: TagRef) -> TagKey {
    (t.namespace@, t.name@, t.color@)
}

/// `a` is strictly before `b` in the lexicographic order of texts.
pub open spec fn text_lt(a: Seq<char>, b: Seq<char>) -> bool {
    lex_le(a, b) && a != b
}

/// The order of tags: by namespace, then name, then colour, each as text.
pub open spec fn key_lt(a: TagKey, b: TagKey) -> bool {
    ||| text_lt(a.0, b.0)
    ||| a.0 == b.0 && text_lt(a.1, b.1)
    ||| a.0 == b.0 && a.1 == b.1 && text_lt(a.2, b.2)
}

proof fn lemma_text_lt_trans(a: Seq<char>, b: Seq<char>, c: Seq<char>)
    requires
        text_lt(a, b),
        text_lt(b, c),
    ensures
        text_lt(a, c),
{
    lemma_lex_transitive(a, b, c);
    if a == c {
        lemma_lex_antisymmetric(a, b);
    }
}

proof fn lemma_key_lt_trans(a: TagKey, b: TagKey, c: TagKey)
    requires
        key_lt(a, b),
        key_lt(b, c),
    ensures
        key_lt(a, c),
{
    if text_lt(a.0, b.0) && text_lt(b.0, c.0) {
        lemma_text_lt_trans(a.0, b.0, c.0);
    } else if a.0 == b.0 && b.0 == c.0 {
        if text_lt(a.1, b.1) && text_lt(b.1, c.1) {
            lemma_text_lt_trans(a.1, b.1, c.1);
        } else if a.1 == b.1 && b.1 == c.1 {
            lemma_text_lt_trans(a.2, b.2, c.2);
        }
    }
}

proof fn lemma_key_total(a: TagKey, b: TagKey)
    ensures
        key_lt(a, b) || a == b || key_lt(b, a),
{
    lemma_lex_total(a.0, b.0);
    lemma_lex_total(a.1, b.1);
    lemma_lex_total(a.2, b.2);
}

/// Keys in strictly increasing order (so none occurs twice).
pub open spec fn strictly_sorted(ks: Seq<TagKey>) -> bool {
    forall|i: int, j: int| 0 <= i < j < ks.len() ==> key_lt(#[trigger] ks[i], #[trigger] ks[j])
}

/// The keys of a list of tags.
pub open spec fn keys_of(tags: Seq<TagRef>) -> Seq<TagKey> {
    tags.map_values(|t: TagRef| tag_key(t))
}

fn text_lt_exec(a: &String, b: &String) -> (r: bool)
    ensures
        r == text_lt(a@, b@),
{
    let x = chars_of(a.as_str());
    let y = chars_of(b.as_str());
    lex_le_exec(x.as_slice(), y.as_slice()) && !chars_eq(x.as_slice(), y.as_slice())
}

fn text_eq_exec(a: &String, b: &String) -> (r: bool)
    ensures
        r == (a@ == b@),
{
    let x = chars_of(a.as_str());
    let y = chars_of(b.as_str());
    chars_eq(x.as_slice(), y.as_slice())
}

fn key_lt_exec(a: &TagRef, b: &TagRef) -> (r: bool)
    ensures
        r == key_lt(tag_key(*a), tag_key(*b)),
{
    if text_lt_exec(&a.namespace, &b.namespace) {
        return true;
    }
    if !text_eq_exec(&a.namespace, &b.namespace) {
        return false;
    }
    if text_lt_exec(&a.name, &b.name) {
        return true;
    }
    if !text_eq_exec(&a.name, &b.name) {
        return false;
    }
    text_lt_exec(&a.color, &b.color)
}

fn key_eq_exec(a: &TagRef, b: &TagRef) -> (r: bool)
    ensures
        r == (tag_key(*a) == tag_key(*b)),
{
    text_eq_exec(&a.namespace, &b.namespace) && text_eq_exec(&a.name, &b.name) && text_eq_exec(&a.color, &b.color)
}

fn copy_tag(t: &TagRef) -> (r: TagRef)
    ensures
        tag_key(r) == tag_key(*t),
{
    TagRef { namespace: copy_string(&t.namespace), name: copy_string(&t.name), color: copy_string(&t.color) }
}

/// Adds a tag to a strictly sorted list unless a tag with the same key is
/// there already.
fn insert_unique(tags: &mut Vec<TagRef>, x: TagRef)
    requires
        strictly_sorted(keys_of(old(tags)@)),
    ensures
        strictly_sorted(keys_of(final(tags)@)),
        forall|k: TagKey| keys_of(final(tags)@).contains(k) <==> (keys_of(old(tags)@).contains(k) || k == tag_key(x)),
{
    let ghost ks = keys_of(tags@);
    let mut p: usize = 0;
    while p < tags.len() && key_lt_exec(&tags[p], &x)
        invariant
            p <= tags@.len(),
            ks == keys_of(tags@),
            strictly_sorted(ks),
            forall|q: int| 0 <= q < p ==> key_lt(#[trigger] ks[q], tag_key(x)),
        decreases tags.len() - p,
    {
        p = p + 1;
    }
    if p < tags.len() && key_eq_exec(&tags[p], &x) {
        assert(ks[p as int] == tag_key(x));
        return;
    }
    proof {
        if p < ks.len() {
            lemma_key_total(ks[p as int], tag_key(x));
        }
    }
    let ghost kx = tag_key(x);
    tags.insert(p, x);
    let ghost nk = keys_of(tags@);
    assert(nk =~= ks.insert(p as int, kx));
    assert forall|i: int, j: int| 0 <= i < j < nk.len() implies key_lt(#[trigger] nk[i], #[trigger] nk[j]) by {
        if j < p {
            assert(nk[i] == ks[i] && nk[j] == ks[j]);
        } else if j == p {
            assert(nk[i] == ks[i] && nk[j] == kx);
        } else if i < p {
            assert(nk[i] == ks[i] && nk[j] == ks[j - 1]);
            if j - 1 > p {
                lemma_key_lt_trans(kx, ks[p as int], ks[j - 1]);
            }
            lemma_key_lt_trans(ks[i], kx, ks[j - 1]);
        } else if i == p {
            assert(nk[i] == kx && nk[j] == ks[j - 1]);
            if j - 1 > p {
                lemma_key_lt_trans(kx, ks[p as int], ks[j - 1]);
            }
        } else {
            assert(nk[i] == ks[i - 1] && nk[j] == ks[j - 1]);
        }
    }
    assert forall|k: TagKey| nk.contains(k) <==> (ks.contains(k) || k == kx) by {
        if nk.contains(k) {
            let w = choose|w: int| 0 <= w < nk.len() && nk[w] == k;
            if w < p {
                assert(ks[w] == k);
            } else if w > p {
                assert(ks[w - 1] == k);
            }
        }
        if ks.contains(k) {
            let w = choose|w: int| 0 <= w < ks.len() && ks[w] == k;
            if w < p {
                assert(nk[w] == k);
            } else {
                assert(nk[w + 1] == k);
            }
        }
        if k == kx {
            assert(nk[p as int] == k);
        }
    }
}

proof fn lemma_push_contains<A>(s: Seq<A>, a: A, x: A)
    ensures
        s.push(a).contains(x) <==> (s.contains(x) || x == a),
{
    let t = s.push(a);
    if t.contains(x) {
        let w = choose|w: int| 0 <= w < t.len() && t[w] == x;
        if w < s.len() {
            assert(s[w] == x);
        }
    }
    if s.contains(x) {
        let w = choose|w: int| 0 <= w < s.len() && s[w] == x;
        assert(t[w] == x);
    }
    if x == a {
        assert(t[s.len() as int] == x);
    }
}

// ---------------------------------------------------------------------------
// The mirror a machine sends
// ---------------------------------------------------------------------------

/// A row of the library joined with its tags: the archive's title and, when
/// it has a tag, that tag's namespace, name and colour.
pub struct MirrorRow {
    pub title: String,
    pub namespace: Option<String>,
    pub name: Option<String>,
    pub color: Option<String>,
}

/// The tag a row carries: none when the name is absent or empty; a missing
/// namespace or colour counts as empty.
pub open spec fn row_key(r: MirrorRow) -> Option<TagKey> {
    if text_or_empty(r.name).len() == 0 {
        None
    } else {
        Some((text_or_empty(r.namespace), text_or_empty(r.name), text_or_empty(r.color)))
    }
}

/// Some row of `title` carries tag `k`.
pub open spec fn title_has(rows: Seq<MirrorRow>, title: Seq<char>, k: TagKey) -> bool {
    exists|i: int| 0 <= i < rows.len() && (#[trigger] rows[i]).title@ == title && row_key(rows[i]) == Some(k)
}

/// The tags sent for one title.
pub struct TitleTags {
    pub title: String,
    pub tags: Vec<TagRef>,
}

fn text_of(s: &Option<String>) -> (r: String)
    ensures
        r@ == text_or_empty(*s),
{
    match s {
        Some(t) => copy_string(t),
        None => String::new(),
    }
}

/// The tags of one title, each once, in tag order (namespace, then name,
/// then colour).
pub fn tags_of_title(rows: &Vec<MirrorRow>, title: &str) -> (r: Vec<TagRef>)
    ensures
        strictly_sorted(keys_of(r@)),
        forall|k: TagKey| keys_of(r@).contains(k) <==> title_has(rows@, title@, k),
{
    let t = chars_of(title);
    let mut out: Vec<TagRef> = Vec::new();
    let mut i: usize = 0;
    while i < rows.len()
        invariant
            i <= rows@.len(),
            t@ == title@,
            strictly_sorted(keys_of(out@)),
            forall|k: TagKey| keys_of(out@).contains(k) <==> title_has(rows@.take(i as int), title@, k),
        decreases rows.len() - i,
    {
        let row = &rows[i];
        let rt = chars_of(row.title.as_str());
        let name = text_of(&row.name);
        let ghost before = out@;
        if chars_eq(rt.as_slice(), t.as_slice()) && !name.as_str().is_empty() {
            let tag = TagRef { namespace: text_of(&row.namespace), name, color: text_of(&row.color) };
            assert(row_key(rows@[i as int]) == Some(tag_key(tag)));
            insert_unique(&mut out, tag);
        }
        assert forall|k: TagKey| keys_of(out@).contains(k) <==> title_has(rows@.take(i as int + 1), title@, k) by {
            let pre = rows@.take(i as int);
            let cur = rows@.take(i as int + 1);
            if title_has(cur, title@, k) {
                let w = choose|w: int| 0 <= w < cur.len() && (#[trigger] cur[w]).title@ == title@ && row_key(cur[w]) == Some(k);
                if w < i {
                    assert(pre[w] == cur[w]);
                    assert(title_has(pre, title@, k));
                } else {
                    assert(cur[w] == rows@[i as int]);
                }
            }
            if title_has(pre, title@, k) {
                let w = choose|w: int| 0 <= w < pre.len() && (#[trigger] pre[w]).title@ == title@ && row_key(pre[w]) == Some(k);
                assert(cur[w] == pre[w]);
            }
            if keys_of(out@).contains(k) && !keys_of(before).contains(k) {
                assert(cur[i as int] == rows@[i as int]);
            }
        }
        i = i + 1;
    }
    assert(rows@.take(rows@.len() as int) =~= rows@);
    out
}

/// The titles of the rows.
pub open spec fn row_titles(rows: Seq<MirrorRow>) -> Seq<Seq<char>> {
    rows.map_values(|r: MirrorRow| r.title@)
}

/// The titles of the groups.
pub open spec fn group_titles(groups: Seq<TitleTags>) -> Seq<Seq<char>> {
    groups.map_values(|g: TitleTags| g.title@)
}

/// The mirror of a library's tags: one group per title of the rows (titles
/// without tags included, with none, so that the receiving machine clears
/// them), each title once, each group holding that title's tags once each,
/// in tag order.
pub fn tag_mirror(rows: &Vec<MirrorRow>) -> (r: Vec<TitleTags>)
    ensures
        group_titles(r@).no_duplicates(),
        forall|t: Seq<char>| group_titles(r@).contains(t) <==> row_titles(rows@).contains(t),
        forall|g: int|
            0 <= g < r@.len() ==> {
                &&& strictly_sorted(keys_of((#[trigger] r@[g]).tags@))
                &&& forall|k: TagKey| keys_of(r@[g].tags@).contains(k) <==> title_has(rows@, r@[g].title@, k)
            },
{
    let mut out: Vec<TitleTags> = Vec::new();
    let mut i: usize = 0;
    while i < rows.len()
        invariant
            i <= rows@.len(),
            group_titles(out@).no_duplicates(),
            forall|t: Seq<char>| group_titles(out@).contains(t) <==> row_titles(rows@.take(i as int)).contains(t),
            forall|g: int|
                0 <= g < out@.len() ==> {
                    &&& strictly_sorted(keys_of((#[trigger] out@[g]).tags@))
                    &&& forall|k: TagKey| keys_of(out@[g].tags@).contains(k) <==> title_has(rows@, out@[g].title@, k)
                },
        decreases rows.len() - i,
    {
        let title = rows[i].title.as_str();
        let tc = chars_of(title);
        let mut seen = false;
        let mut j: usize = 0;
        while j < out.len()
            invariant
                j <= out@.len(),
                i < rows@.len(),
                tc@ == rows@[i as int].title@,
                seen == exists|q: int| 0 <= q < j && (#[trigger] group_titles(out@)[q]) == rows@[i as int].title@,
            decreases out.len() - j,
        {
            let gc = chars_of(out[j].title.as_str());
            if chars_eq(gc.as_slice(), tc.as_slice()) {
                assert(group_titles(out@)[j as int] == rows@[i as int].title@);
                seen = true;
            }
            j = j + 1;
        }
        let ghost prev = out@;
        let ghost ti = rows@[i as int].title@;
        assert(row_titles(rows@.take(i as int + 1)) =~= row_titles(rows@.take(i as int)).push(ti));
        if !seen {
            let tags = tags_of_title(rows, title);
            out.push(TitleTags { title: copy_string(&rows[i].title), tags });
            assert(group_titles(out@) =~= group_titles(prev).push(ti));
            assert forall|a: int, b: int| 0 <= a < b < group_titles(out@).len() implies group_titles(out@)[a]
                != group_titles(out@)[b] by {
                if b == prev.len() {
                    assert(group_titles(out@)[a] == group_titles(prev)[a]);
                }
            }
            assert forall|g: int| 0 <= g < out@.len() implies {
                &&& strictly_sorted(keys_of((#[trigger] out@[g]).tags@))
                &&& forall|k: TagKey| keys_of(out@[g].tags@).contains(k) <==> title_has(rows@, out@[g].title@, k)
            } by {
                if g < prev.len() {
                    assert(out@[g] == prev[g]);
                }
            }
        } else {
            assert(group_titles(out@).contains(ti));
        }
        assert forall|t: Seq<char>| group_titles(out@).contains(t) <==> row_titles(rows@.take(i as int + 1)).contains(
            t,
        ) by {
            if !seen {
                lemma_push_contains(group_titles(prev), ti, t);
            }
            lemma_push_contains(row_titles(rows@.take(i as int)), ti, t);
        }
        i = i + 1;
    }
    assert(rows@.take(rows@.len() as int) =~= rows@);
    out
}

// ---------------------------------------------------------------------------
// The mirror a machine receives
// ---------------------------------------------------------------------------

/// The tags of a received group that are linked: those with a name.
pub open spec fn linkable(tags: Seq<TagRef>) -> Seq<TagRef> {
    tags.filter(|t: TagRef| t.name@.len() > 0)
}

/// The tags of a received group to create or find and link: those with a
/// name, in order.
pub fn linkable_tags(tags: &Vec<TagRef>) -> (r: Vec<TagRef>)
    ensures
        keys_of(r@) == keys_of(linkable(tags@)),
{
    let mut out: Vec<TagRef> = Vec::new();
    let mut i: usize = 0;
    while i < tags.len()
        invariant
            i <= tags@.len(),
            keys_of(out@) == keys_of(linkable(tags@.take(i as int))),
        decreases tags.len() - i,
    {
        let ghost before = tags@.take(i as int);
        assert(tags@.take(i as int + 1) =~= before.push(tags@[i as int]));
        proof {
            before.lemma_filter_push(tags@[i as int], |t: TagRef| t.name@.len() > 0);
        }
        if !tags[i].name.as_str().is_empty() {
            let ghost ob = keys_of(out@);
            out.push(copy_tag(&tags[i]));
            assert(keys_of(out@) =~= ob.push(tag_key(tags@[i as int])));
            assert(keys_of(linkable(tags@.take(i as int + 1))) =~= keys_of(linkable(before)).push(
                tag_key(tags@[i as int]),
            ));
        } else {
            assert(linkable(tags@.take(i as int + 1)) == linkable(before));
        }
        i = i + 1;
    }
    assert(tags@.take(tags@.len() as int) =~= tags@);
    out
}

/// The ids in order of first appearance, each once.
pub open spec fn first_occurrences(ids: Seq<i64>) -> Seq<i64>
    decreases ids.len(),
{
    if ids.len() == 0 {
        Seq::<i64>::empty()
    } else {
        let rest = first_occurrences(ids.drop_last());
        if rest.contains(ids.last()) {
            rest
        } else {
            rest.push(ids.last())
        }
    }
}

proof fn lemma_first_occurrences(ids: Seq<i64>)
    ensures
        first_occurrences(ids).no_duplicates(),
        forall|x: i64| first_occurrences(ids).contains(x) <==> ids.contains(x),
    decreases ids.len(),
{
    if ids.len() > 0 {
        let init = ids.drop_last();
        lemma_first_occurrences(init);
        assert(init.push(ids.last()) =~= ids);
        let rest = first_occurrences(init);
        assert forall|x: i64| first_occurrences(ids).contains(x) <==> ids.contains(x) by {
            lemma_push_contains(init, ids.last(), x);
            lemma_push_contains(rest, ids.last(), x);
        }
        if !rest.contains(ids.last()) {
            assert forall|a: int, b: int| 0 <= a < b < rest.push(ids.last()).len() implies rest.push(ids.last())[a]
                != rest.push(ids.last())[b] by {
                if b == rest.len() {
                    assert(rest.push(ids.last())[a] == rest[a]);
                }
            }
        }
    }
}

/// The tag ids to link to each archive of a title: each once, in the order
/// first found.
pub fn distinct_ids(ids: &Vec<i64>) -> (r: Vec<i64>)
    ensures
        r@ == first_occurrences(ids@),
        r@.no_duplicates(),
        forall|x: i64| r@.contains(x) <==> ids@.contains(x),
{
    let mut out: Vec<i64> = Vec::new();
    let mut i: usize = 0;
    while i < ids.len()
        invariant
            i <= ids@.len(),
            out@ == first_occurrences(ids@.take(i as int)),
        decreases ids.len() - i,
    {
        assert(ids@.take(i as int + 1).drop_last() =~= ids@.take(i as int));
        let x = ids[i];
        let mut found = false;
        let mut k: usize = 0;
        while k < out.len()
            invariant
                k <= out@.len(),
                found == exists|q: int| 0 <= q < k && out@[q] == x,
            decreases out.len() - k,
        {
            if out[k] == x {
                found = true;
            }
            k = k + 1;
        }
        if !found {
            out.push(x);
        }
        i = i + 1;
    }
    assert(ids@.take(ids@.len() as int) =~= ids@);
    proof {
        lemma_first_occurrences(ids@);
    }
    out
}

} // verus!

//! The library search syntax and the SQL filters built from it.
//!
//! Two grammars exist. [`SearchQuery`] reads quoted phrases and splits on
//! spaces; `tag:x` / `-tag:x` / `-x` select included and excluded tags.
//! [`build_archive_filters`] is what the library list uses: white-space
//! separated words, `tag:x` or `tag:ns:x` for a tag, `-x` to exclude a
//! title or tag fragment, any other word matching a title or tag fragment.

use vstd::prelude::*;
use crate::text::{
    chars_of, find_char, first_index_of, has_prefix, is_ws, is_ws_char, push_chars, push_i64,
    push_str, slice_chars, starts_with, string_from_chars, lemma_first_index_of,
};

verus! {

// ---------------------------------------------------------------------------
// Shared pieces
// ---------------------------------------------------------------------------

/// `s.split_once(':')`: the text before and after the first `:`.
pub open spec fn split_colon(s: Seq<char>) -> Option<(Seq<char>, Seq<char>)> {
    let k = first_index_of(s, ':');
    if k < 0 {
        None
    } else {
        Some((s.take(k), s.skip(k + 1)))
    }
}

/// `split_once(':')` on a character sequence.
pub fn split_colon_exec(s: &[char]) -> (r: Option<(Vec<char>, Vec<char>)>)
    ensures
        match r {
            Some((a, b)) => split_colon(s@) == Some((a@, b@)),
            None => split_colon(s@) is None,
        },
{
    proof {
        lemma_first_index_of(s@, ':');
    }
    match find_char(s, ':') {
        Some(k) => {
            assert(k < s.len());
            let a = slice_chars(s, 0, k);
            let b = slice_chars(s, k + 1, s.len());
            assert(a@ =~= s@.take(k as int));
            assert(b@ =~= s@.skip(k as int + 1));
            Some((a, b))
        },
        None => None,
    }
}

/// `%text%`, a LIKE pattern matching any text containing `text`.
pub open spec fn like_pattern(t: Seq<char>) -> Seq<char> {
    seq!['%'] + t + seq!['%']
}

fn like_pattern_exec(t: &[char]) -> (r: String)
    ensures
        r@ == like_pattern(t@),
{
    let mut r = String::new();
    crate::text::push_char(&mut r, '%');
    push_chars(&mut r, t);
    crate::text::push_char(&mut r, '%');
    assert(r@ =~= like_pattern(t@));
    r
}

/// The words of `s` between runs of white space (`str::split_whitespace`),
/// with the word being read (the state after a prefix of the text).
pub open spec fn words_state(s: Seq<char>) -> (Seq<Seq<char>>, Seq<char>)
    decreases s.len(),
{
    if s.len() == 0 {
        (Seq::<Seq<char>>::empty(), Seq::<char>::empty())
    } else {
        let (w, cur) = words_state(s.drop_last());
        if is_ws(s.last()) {
            if cur.len() > 0 {
                (w.push(cur), Seq::<char>::empty())
            } else {
                (w, cur)
            }
        } else {
            (w, cur.push(s.last()))
        }
    }
}

/// `str::split_whitespace`: the non-empty runs of non-white-space characters.
pub open spec fn ws_words(s: Seq<char>) -> Seq<Seq<char>> {
    let (w, cur) = words_state(s);
    if cur.len() > 0 {
        w.push(cur)
    } else {
        w
    }
}

/// The views of a vector of character vectors.
pub open spec fn views(v: Seq<Vec<char>>) -> Seq<Seq<char>> {
    v.map_values(|x: Vec<char>| x@)
}

/// Splits a text into its white-space separated words.
pub fn split_words(s: &[char]) -> (r: Vec<Vec<char>>)
    ensures
        views(r@) == ws_words(s@),
{
    let mut done: Vec<Vec<char>> = Vec::new();
    let mut cur: Vec<char> = Vec::new();
    let mut i: usize = 0;
    assert(s@.take(0) =~= Seq::<char>::empty());
    while i < s.len()
        invariant
            i <= s.len(),
            (views(done@), cur@) == words_state(s@.take(i as int)),
        decreases s.len() - i,
    {
        let c = s[i];
        assert(s@.take(i as int + 1).drop_last() =~= s@.take(i as int));
        if is_ws_char(c) {
            if cur.len() > 0 {
                let w = cur;
                done.push(w);
                cur = Vec::new();
                assert(views(done@) =~= words_state(s@.take(i as int)).0.push(w@));
            }
        } else {
            cur.push(c);
        }
        i = i + 1;
    }
    assert(s@.take(s.len() as int) =~= s@);
    if cur.len() > 0 {
        let w = cur;
        done.push(w);
        assert(views(done@) =~= words_state(s@).0.push(w@));
    }
    done
}

// ---------------------------------------------------------------------------
// The library list's filters
// ---------------------------------------------------------------------------

/// A bound parameter of an SQL statement.
pub enum SqlParam {
    Text(String),
    Int(i64),
}

/// The value a parameter stands for.
pub enum SqlArg {
    Text(Seq<char>),
    Int(i64),
}

/// The value of a bound parameter.
pub open spec fn arg_of(p: SqlParam) -> SqlArg {
    match p {
        SqlParam::Text(s) => SqlArg::Text(s@),
        SqlParam::Int(i) => SqlArg::Int(i),
    }
}

/// The values of a list of bound parameters.
pub open spec fn args_of(ps: Seq<SqlParam>) -> Seq<SqlArg> {
    ps.map_values(|p: SqlParam| arg_of(p))
}

/// The tag sub-query every tag condition starts with.
pub open spec fn tag_exists_head() -> Seq<char> {
    "EXISTS (SELECT 1 FROM archive_tags atx JOIN tags tx ON tx.id = atx.tag_id WHERE atx.archive_id = a.id"@
}

/// The condition for excluding a fragment from titles and tag names.
pub open spec fn exclude_clause() -> Seq<char> {
    " AND a.title NOT LIKE ? AND NOT EXISTS (SELECT 1 FROM archive_tags atx JOIN tags tx ON tx.id = atx.tag_id WHERE atx.archive_id = a.id AND tx.name LIKE ?)"@
}

/// The condition for matching a fragment in titles or tag names.
pub open spec fn include_clause() -> Seq<char> {
    " AND (a.title LIKE ? OR EXISTS (SELECT 1 FROM archive_tags atx JOIN tags tx ON tx.id = atx.tag_id WHERE atx.archive_id = a.id AND tx.name LIKE ?))"@
}

/// What one search word adds to the WHERE clause, and its parameters:
/// `tag:[ns:]name` requires that tag; `-text` (with text) excludes titles
/// and tag names containing `text`; a lone `-` adds nothing; any other
/// word requires the title or a tag name to contain it.
pub open spec fn word_filter(w: Seq<char>) -> (Seq<char>, Seq<SqlArg>) {
    if has_prefix(w, "tag:"@) {
        let spec = w.skip(4);
        match split_colon(spec) {
            Some((ns, name)) => (
                " AND "@ + tag_exists_head() + " AND tx.namespace = ?"@ + " AND tx.name = ?)"@,
                seq![SqlArg::Text(ns), SqlArg::Text(name)],
            ),
            None => (
                " AND "@ + tag_exists_head() + " AND tx.name = ?)"@,
                seq![SqlArg::Text(spec)],
            ),
        }
    } else if has_prefix(w, "-"@) {
        let ex = w.skip(1);
        if ex.len() > 0 {
            (exclude_clause(), seq![SqlArg::Text(like_pattern(ex)), SqlArg::Text(like_pattern(ex))])
        } else {
            (Seq::<char>::empty(), Seq::<SqlArg>::empty())
        }
    } else {
        (include_clause(), seq![SqlArg::Text(like_pattern(w)), SqlArg::Text(like_pattern(w))])
    }
}

/// The WHERE additions and parameters of a list of search words, in order.
pub open spec fn words_filter(ws: Seq<Seq<char>>) -> (Seq<char>, Seq<SqlArg>)
    decreases ws.len(),
{
    if ws.len() == 0 {
        (Seq::<char>::empty(), Seq::<SqlArg>::empty())
    } else {
        let (c, a) = words_filter(ws.drop_last());
        let (c2, a2) = word_filter(ws.last());
        (c + c2, a + a2)
    }
}

/// The search text's filter: none for an absent or empty search.
pub open spec fn search_filter(search: Option<Seq<char>>) -> (Seq<char>, Seq<SqlArg>) {
    match search {
        Some(s) => if s.len() > 0 {
            words_filter(ws_words(s))
        } else {
            (Seq::<char>::empty(), Seq::<SqlArg>::empty())
        },
        None => (Seq::<char>::empty(), Seq::<SqlArg>::empty()),
    }
}

/// The tag join used by the tag filter.
pub open spec fn tag_join() -> Seq<char> {
    " JOIN archive_tags at_f ON at_f.archive_id = a.id JOIN tags t_f ON t_f.id = at_f.tag_id"@
}

/// The tag filter: `ns:name` selects that tag, a plain name a tag of that
/// name without namespace. Gives (join, where, parameters).
pub open spec fn tag_filter(tag: Option<Seq<char>>) -> (Seq<char>, Seq<char>, Seq<SqlArg>) {
    match tag {
        Some(t) => if t.len() > 0 {
            match split_colon(t) {
                Some((ns, name)) => (
                    tag_join(),
                    " AND t_f.namespace = ? AND t_f.name = ?"@,
                    seq![SqlArg::Text(ns), SqlArg::Text(name)],
                ),
                None => (tag_join(), " AND t_f.name = ? AND t_f.namespace = ''"@, seq![SqlArg::Text(t)]),
            }
        } else {
            (Seq::<char>::empty(), Seq::<char>::empty(), Seq::<SqlArg>::empty())
        },
        None => (Seq::<char>::empty(), Seq::<char>::empty(), Seq::<SqlArg>::empty()),
    }
}

/// The category filter, given the category's saved search as looked up
/// (absent when there is no such category): a non-empty saved search
/// matches titles containing it; otherwise membership in the category.
/// Gives (join, where, parameters).
pub open spec fn category_filter(category_id: Option<i64>, saved_search: Option<Seq<char>>) -> (
    Seq<char>,
    Seq<char>,
    Seq<SqlArg>,
) {
    match category_id {
        Some(cid) => match saved_search {
            Some(s) if s.len() > 0 => (
                Seq::<char>::empty(),
                " AND a.title LIKE ?"@,
                seq![SqlArg::Text(like_pattern(s))],
            ),
            _ => (
                " JOIN archive_categories ac_f ON ac_f.archive_id = a.id"@,
                " AND ac_f.category_id = ?"@,
                seq![SqlArg::Int(cid)],
            ),
        },
        None => (Seq::<char>::empty(), Seq::<char>::empty(), Seq::<SqlArg>::empty()),
    }
}

/// The added-date bounds: `from` inclusive, `to` exclusive, each only when
/// given and non-empty. Gives (where, parameters).
pub open spec fn date_filter(from: Option<Seq<char>>, to: Option<Seq<char>>) -> (Seq<char>, Seq<SqlArg>) {
    let (c1, a1) = match from {
        Some(f) => if f.len() > 0 {
            (" AND a.created_at >= datetime(?, 'utc')"@, seq![SqlArg::Text(f)])
        } else {
            (Seq::<char>::empty(), Seq::<SqlArg>::empty())
        },
        None => (Seq::<char>::empty(), Seq::<SqlArg>::empty()),
    };
    let (c2, a2) = match to {
        Some(t) => if t.len() > 0 {
            (" AND a.created_at < datetime(?, 'utc')"@, seq![SqlArg::Text(t)])
        } else {
            (Seq::<char>::empty(), Seq::<SqlArg>::empty())
        },
        None => (Seq::<char>::empty(), Seq::<SqlArg>::empty()),
    };
    (c1 + c2, a1 + a2)
}

/// The filters of the library list: JOIN text, WHERE text, parameters.
pub struct ArchiveFilters {
    pub join_clause: String,
    pub where_clause: String,
    pub params: Vec<SqlParam>,
}

/// The view of an optional string slice.
pub open spec fn opt_text(o: Option<&str>) -> Option<Seq<char>> {
    match o {
        Some(s) => Some(s@),
        None => None,
    }
}

/// The view of an optional string.
pub open spec fn opt_string(o: Option<String>) -> Option<Seq<char>> {
    match o {
        Some(s) => Some(s@),
        None => None,
    }
}

fn word_filter_exec(w: &[char], clause: &mut String, params: &mut Vec<SqlParam>)
    ensures
        final(clause)@ == old(clause)@ + word_filter(w@).0,
        args_of(final(params)@) == args_of(old(params)@) + word_filter(w@).1,
{
    let tagp = chars_of("tag:");
    let dash = chars_of("-");
    if starts_with(w, tagp.as_slice()) {
        proof {
            reveal_strlit("tag:");
        }
        let spec = slice_chars(w, 4, w.len());
        assert(spec@ =~= w@.skip(4));
        push_str(clause, " AND ");
        push_str(clause, "EXISTS (SELECT 1 FROM archive_tags atx JOIN tags tx ON tx.id = atx.tag_id WHERE atx.archive_id = a.id");
        match split_colon_exec(spec.as_slice()) {
            Some((ns, name)) => {
                push_str(clause, " AND tx.namespace = ?");
                push_str(clause, " AND tx.name = ?)");
                params.push(SqlParam::Text(string_from_chars(ns.as_slice())));
                params.push(SqlParam::Text(string_from_chars(name.as_slice())));
            },
            None => {
                push_str(clause, " AND tx.name = ?)");
                params.push(SqlParam::Text(string_from_chars(spec.as_slice())));
            },
        }
    } else if starts_with(w, dash.as_slice()) {
        proof {
            reveal_strlit("-");
        }
        let ex = slice_chars(w, 1, w.len());
        assert(ex@ =~= w@.skip(1));
        if ex.len() > 0 {
            push_str(clause, " AND a.title NOT LIKE ? AND NOT EXISTS (SELECT 1 FROM archive_tags atx JOIN tags tx ON tx.id = atx.tag_id WHERE atx.archive_id = a.id AND tx.name LIKE ?)");
            params.push(SqlParam::Text(like_pattern_exec(ex.as_slice())));
            params.push(SqlParam::Text(like_pattern_exec(ex.as_slice())));
        }
    } else {
        push_str(clause, " AND (a.title LIKE ? OR EXISTS (SELECT 1 FROM archive_tags atx JOIN tags tx ON tx.id = atx.tag_id WHERE atx.archive_id = a.id AND tx.name LIKE ?))");
        params.push(SqlParam::Text(like_pattern_exec(w)));
        params.push(SqlParam::Text(like_pattern_exec(w)));
    }
    assert(clause@ =~= old(clause)@ + word_filter(w@).0);
    assert(args_of(params@) =~= args_of(old(params)@) + word_filter(w@).1);
}

fn search_filter_exec(search: Option<&str>, where_clause: &mut String, params: &mut Vec<SqlParam>)
    ensures
        final(where_clause)@ == old(where_clause)@ + search_filter(opt_text(search)).0,
        args_of(final(params)@) == args_of(old(params)@) + search_filter(opt_text(search)).1,
{
    let ghost w0 = where_clause@;
    let ghost p0 = args_of(params@);
    match search {
        Some(s) => {
            let v = chars_of(s);
            if v.len() > 0 {
                let words = split_words(v.as_slice());
                let mut i: usize = 0;
                assert(views(words@).take(0) =~= Seq::<Seq<char>>::empty());
                assert(where_clause@ =~= w0 + words_filter(views(words@).take(0)).0);
                assert(args_of(params@) =~= p0 + words_filter(views(words@).take(0)).1);
                while i < words.len()
                    invariant
                        i <= words@.len(),
                        where_clause@ == w0 + words_filter(views(words@).take(i as int)).0,
                        args_of(params@) == p0 + words_filter(views(words@).take(i as int)).1,
                    decreases words.len() - i,
                {
                    word_filter_exec(words[i].as_slice(), where_clause, params);
                    assert(views(words@).take(i as int + 1).drop_last() =~= views(words@).take(
                        i as int,
                    ));
                    assert(where_clause@ =~= w0 + words_filter(views(words@).take(i as int + 1)).0);
                    assert(args_of(params@) =~= p0 + words_filter(views(words@).take(i as int + 1)).1);
                    i = i + 1;
                }
                assert(views(words@).take(words@.len() as int) =~= views(words@));
            } else {
                assert(where_clause@ =~= w0 + search_filter(opt_text(search)).0);
                assert(args_of(params@) =~= p0 + search_filter(opt_text(search)).1);
            }
        },
        None => {
            assert(where_clause@ =~= w0 + search_filter(opt_text(search)).0);
            assert(args_of(params@) =~= p0 + search_filter(opt_text(search)).1);
        },
    }
}

fn tag_filter_exec(
    tag: Option<&str>,
    join_clause: &mut String,
    where_clause: &mut String,
    params: &mut Vec<SqlParam>,
)
    ensures
        final(join_clause)@ == old(join_clause)@ + tag_filter(opt_text(tag)).0,
        final(where_clause)@ == old(where_clause)@ + tag_filter(opt_text(tag)).1,
        args_of(final(params)@) == args_of(old(params)@) + tag_filter(opt_text(tag)).2,
{
    match tag {
        Some(t) => {
            let v = chars_of(t);
            if v.len() > 0 {
                push_str(join_clause, " JOIN archive_tags at_f ON at_f.archive_id = a.id JOIN tags t_f ON t_f.id = at_f.tag_id");
                match split_colon_exec(v.as_slice()) {
                    Some((ns, name)) => {
                        push_str(where_clause, " AND t_f.namespace = ? AND t_f.name = ?");
                        params.push(SqlParam::Text(string_from_chars(ns.as_slice())));
                        params.push(SqlParam::Text(string_from_chars(name.as_slice())));
                    },
                    None => {
                        push_str(where_clause, " AND t_f.name = ? AND t_f.namespace = ''");
                        params.push(SqlParam::Text(String::from_str(t)));
                    },
                }
            }
        },
        None => {},
    }
    assert(join_clause@ =~= old(join_clause)@ + tag_filter(opt_text(tag)).0);
    assert(where_clause@ =~= old(where_clause)@ + tag_filter(opt_text(tag)).1);
    assert(args_of(params@) =~= args_of(old(params)@) + tag_filter(opt_text(tag)).2);
}

fn category_filter_exec(
    category_id: Option<i64>,
    category_search: &Option<String>,
    join_clause: &mut String,
    where_clause: &mut String,
    params: &mut Vec<SqlParam>,
)
    ensures
        final(join_clause)@ == old(join_clause)@ + category_filter(category_id, opt_string(*category_search)).0,
        final(where_clause)@ == old(where_clause)@ + category_filter(category_id, opt_string(*category_search)).1,
        args_of(final(params)@) == args_of(old(params)@) + category_filter(category_id, opt_string(*category_search)).2,
{
    match category_id {
        Some(cid) => {
            let dynamic: Option<&String> = match category_search {
                Some(s) => if s.as_str().is_empty() {
                    None
                } else {
                    Some(s)
                },
                None => None,
            };
            match dynamic {
                Some(s) => {
                    push_str(where_clause, " AND a.title LIKE ?");
                    let v = chars_of(s.as_str());
                    params.push(SqlParam::Text(like_pattern_exec(v.as_slice())));
                },
                None => {
                    push_str(join_clause, " JOIN archive_categories ac_f ON ac_f.archive_id = a.id");
                    push_str(where_clause, " AND ac_f.category_id = ?");
                    params.push(SqlParam::Int(cid));
                },
            }
        },
        None => {},
    }
    assert(join_clause@ =~= old(join_clause)@ + category_filter(category_id, opt_string(*category_search)).0);
    assert(where_clause@ =~= old(where_clause)@ + category_filter(category_id, opt_string(*category_search)).1);
    assert(args_of(params@) =~= args_of(old(params)@) + category_filter(category_id, opt_string(*category_search)).2);
}

fn date_filter_exec(
    added_from: Option<&str>,
    added_to: Option<&str>,
    where_clause: &mut String,
    params: &mut Vec<SqlParam>,
)
    ensures
        final(where_clause)@ == old(where_clause)@ + date_filter(opt_text(added_from), opt_text(added_to)).0,
        args_of(final(params)@) == args_of(old(params)@) + date_filter(opt_text(added_from), opt_text(added_to)).1,
{
    match added_from {
        Some(f) => if !f.is_empty() {
            push_str(where_clause, " AND a.created_at >= datetime(?, 'utc')");
            params.push(SqlParam::Text(String::from_str(f)));
        },
        None => {},
    }
    match added_to {
        Some(t) => if !t.is_empty() {
            push_str(where_clause, " AND a.created_at < datetime(?, 'utc')");
            params.push(SqlParam::Text(String::from_str(t)));
        },
        None => {},
    }
    assert(where_clause@ =~= old(where_clause)@ + date_filter(opt_text(added_from), opt_text(added_to)).0);
    assert(args_of(params@) =~= args_of(old(params)@) + date_filter(opt_text(added_from), opt_text(added_to)).1);
}

/// Builds the library list's filters: the search words (see
/// [`word_filter`]), then the tag filter, the category filter (with the
/// category's saved search as looked up, absent when the category has
/// none or does not exist), and the added-date bounds. The WHERE text
/// starts with `WHERE 1=1`; every condition adds to it with ` AND `.
pub fn build_archive_filters(
    search: Option<&str>,
    tag: Option<&str>,
    category_id: Option<i64>,
    category_search: Option<String>,
    added_from: Option<&str>,
    added_to: Option<&str>,
) -> (r: ArchiveFilters)
    ensures
        ({
            let (sc, sa) = search_filter(opt_text(search));
            let (tj, tw, ta) = tag_filter(opt_text(tag));
            let (cj, cw, ca) = category_filter(category_id, opt_string(category_search));
            let (dw, da) = date_filter(opt_text(added_from), opt_text(added_to));
            &&& r.join_clause@ == tj + cj
            &&& r.where_clause@ == "WHERE 1=1"@ + sc + tw + cw + dw
            &&& args_of(r.params@) == sa + ta + ca + da
        }),
{
    let mut where_clause = String::from_str("WHERE 1=1");
    let mut join_clause = String::new();
    let mut params: Vec<SqlParam> = Vec::new();
    assert(args_of(params@) =~= Seq::<SqlArg>::empty());
    search_filter_exec(search, &mut where_clause, &mut params);
    tag_filter_exec(tag, &mut join_clause, &mut where_clause, &mut params);
    category_filter_exec(category_id, &category_search, &mut join_clause, &mut where_clause, &mut params);
    date_filter_exec(added_from, added_to, &mut where_clause, &mut params);
    let ghost sf = search_filter(opt_text(search));
    let ghost tf = tag_filter(opt_text(tag));
    let ghost cf = category_filter(category_id, opt_string(category_search));
    let ghost df = date_filter(opt_text(added_from), opt_text(added_to));
    assert(join_clause@ =~= tf.0 + cf.0);
    assert(where_clause@ =~= "WHERE 1=1"@ + sf.0 + tf.1 + cf.1 + df.0);
    assert(args_of(params@) =~= sf.1 + tf.2 + cf.2 + df.1);
    ArchiveFilters { join_clause, where_clause, params }
}

/// The ORDER BY expression for a sort key: title for `name`/`title`,
/// creation time for `created`, page count for `pages`, size for `size`,
/// the last reading time (falling back to the update time) for `updated`,
/// `RANDOM()` for `random`, the update time for anything else.
pub open spec fn order_expr(sort: Seq<char>) -> Seq<char> {
    if sort == "name"@ || sort == "title"@ {
        "a.title"@
    } else if sort == "created"@ {
        "a.created_at"@
    } else if sort == "pages"@ {
        "a.page_count"@
    } else if sort == "size"@ {
        "a.file_size"@
    } else if sort == "updated"@ {
        "COALESCE(a.last_read_at, a.updated_at)"@
    } else if sort == "random"@ {
        "RANDOM()"@
    } else {
        "a.updated_at"@
    }
}

fn is_word(s: &[char], w: &str) -> (r: bool)
    ensures
        r == (s@ == w@),
{
    let v = chars_of(w);
    crate::text::chars_eq(s, v.as_slice())
}

/// The ORDER BY expression for a sort key (see [`order_expr`]).
pub fn order_expr_for(sort: &str) -> (r: &'static str)
    ensures
        r@ == order_expr(sort@),
{
    let s = chars_of(sort);
    if is_word(s.as_slice(), "name") || is_word(s.as_slice(), "title") {
        "a.title"
    } else if is_word(s.as_slice(), "created") {
        "a.created_at"
    } else if is_word(s.as_slice(), "pages") {
        "a.page_count"
    } else if is_word(s.as_slice(), "size") {
        "a.file_size"
    } else if is_word(s.as_slice(), "updated") {
        "COALESCE(a.last_read_at, a.updated_at)"
    } else if is_word(s.as_slice(), "random") {
        "RANDOM()"
    } else {
        "a.updated_at"
    }
}

/// Each sort key orders by its own column, and only that key does: page
/// count exactly for `pages`, size exactly for `size`, title exactly for
/// `name` or `title`, creation time exactly for `created`, the last reading
/// time exactly for `updated`, random order exactly for `random`, and the
/// update time for every other key.
pub proof fn law_sort_keys_pick_their_column(sort: Seq<char>)
    ensures
        (order_expr(sort) == "a.page_count"@) == (sort == "pages"@),
        (order_expr(sort) == "a.file_size"@) == (sort == "size"@),
        (order_expr(sort) == "a.title"@) == (sort == "name"@ || sort == "title"@),
        (order_expr(sort) == "a.created_at"@) == (sort == "created"@),
        (order_expr(sort) == "COALESCE(a.last_read_at, a.updated_at)"@) == (sort == "updated"@),
        (order_expr(sort) == "RANDOM()"@) == (sort == "random"@),
        (order_expr(sort) == "a.updated_at"@) == !(sort == "pages"@ || sort == "size"@ || sort == "name"@
            || sort == "title"@ || sort == "created"@ || sort == "updated"@ || sort == "random"@),
{
    reveal_strlit("a.page_count");
    reveal_strlit("a.file_size");
    reveal_strlit("a.title");
    reveal_strlit("a.created_at");
    reveal_strlit("COALESCE(a.last_read_at, a.updated_at)");
    reveal_strlit("RANDOM()");
    reveal_strlit("a.updated_at");
    let outs = seq![
        "a.title"@,
        "a.created_at"@,
        "a.page_count"@,
        "a.file_size"@,
        "COALESCE(a.last_read_at, a.updated_at)"@,
        "RANDOM()"@,
        "a.updated_at"@,
    ];
    assert forall|i: int, k: int| 0 <= i < k < 7 implies outs[i] != outs[k] by {
        if outs[i].len() == outs[k].len() {
            assert(outs[i][2] != outs[k][2]);
        }
    }
    reveal_strlit("name");
    reveal_strlit("title");
    reveal_strlit("created");
    reveal_strlit("pages");
    reveal_strlit("size");
    reveal_strlit("updated");
    reveal_strlit("random");
    let keys = seq!["name"@, "title"@, "created"@, "pages"@, "size"@, "updated"@, "random"@];
    assert forall|i: int, k: int| 0 <= i < k < 7 implies keys[i] != keys[k] by {
        if keys[i].len() == keys[k].len() {
            assert(keys[i][0] != keys[k][0]);
        }
    }
    assert(order_expr(sort) == outs[0] || order_expr(sort) == outs[1] || order_expr(sort) == outs[2]
        || order_expr(sort) == outs[3] || order_expr(sort) == outs[4] || order_expr(sort) == outs[5]
        || order_expr(sort) == outs[6]);
}

// ---------------------------------------------------------------------------
// Quoted search queries
// ---------------------------------------------------------------------------

/// The tokenizer's state after reading a prefix of a query: the finished
/// tokens, the token being read, and whether a quote is open. `"` toggles
/// the quote and is dropped; a space outside quotes ends a non-empty token;
/// every other character (spaces inside quotes too) joins the token.
pub open spec fn query_state(s: Seq<char>) -> (Seq<Seq<char>>, Seq<char>, bool)
    decreases s.len(),
{
    if s.len() == 0 {
        (Seq::<Seq<char>>::empty(), Seq::<char>::empty(), false)
    } else {
        let (toks, cur, q) = query_state(s.drop_last());
        let c = s.last();
        if c == '"' {
            (toks, cur, !q)
        } else if c == ' ' && !q {
            if cur.len() > 0 {
                (toks.push(cur), Seq::<char>::empty(), q)
            } else {
                (toks, cur, q)
            }
        } else {
            (toks, cur.push(c), q)
        }
    }
}

/// The tokens of a query (a token still open at the end counts).
pub open spec fn query_tokens(s: Seq<char>) -> Seq<Seq<char>> {
    let (toks, cur, _q) = query_state(s);
    if cur.len() > 0 {
        toks.push(cur)
    } else {
        toks
    }
}

proof fn lemma_query_state(s: Seq<char>)
    ensures
        ({
            let (toks, cur, q) = query_state(s);
            &&& forall|j: int| 0 <= j < toks.len() ==> (#[trigger] toks[j]).len() > 0 && !toks[j].contains('"')
            &&& !cur.contains('"')
            &&& !s.contains('"') ==> {
                &&& !q
                &&& forall|j: int| 0 <= j < toks.len() ==> !(#[trigger] toks[j]).contains(' ')
                &&& !cur.contains(' ')
                &&& toks.flatten() + cur == s.filter(|c: char| c != ' ')
            }
        }),
    decreases s.len(),
{
    if s.len() > 0 {
        let p = s.drop_last();
        lemma_query_state(p);
        let (toks, cur, q) = query_state(p);
        let c = s.last();
        if !s.contains('"') {
            assert(!p.contains('"')) by {
                if p.contains('"') {
                    let k = choose|k: int| 0 <= k < p.len() && p[k] == '"';
                    assert(s[k] == '"');
                }
            }
            assert(c != '"') by {
                assert(s[s.len() - 1] == c);
            }
        }
        if c == '"' {
        } else if c == ' ' && !q {
            if cur.len() > 0 {
                let t2 = toks.push(cur);
                assert forall|j: int| 0 <= j < t2.len() implies (#[trigger] t2[j]).len() > 0 && !t2[j].contains('"') by {
                    if j < toks.len() {
                        assert(t2[j] == toks[j]);
                    }
                }
                if !s.contains('"') {
                    assert forall|j: int| 0 <= j < t2.len() implies !(#[trigger] t2[j]).contains(' ') by {
                        if j < toks.len() {
                            assert(t2[j] == toks[j]);
                        }
                    }
                    toks.lemma_flatten_push(cur);
                    assert(s.drop_last() == p);
                    let sp = |c: char| c != ' ';
                    assert(s.last() == ' ' && !sp(s.last()));
                    reveal_with_fuel(Seq::filter, 1);
                    assert(s.filter(sp) == p.filter(sp));
                    assert(t2.flatten() + Seq::<char>::empty() =~= toks.flatten() + cur);
                }
            } else {
                if !s.contains('"') {
                    let sp = |c: char| c != ' ';
                    assert(s.last() == ' ' && !sp(s.last()));
                    reveal_with_fuel(Seq::filter, 1);
                    assert(s.filter(sp) == p.filter(sp));
                }
            }
        } else {
            let c2 = cur.push(c);
            assert(!c2.contains('"')) by {
                if c2.contains('"') {
                    let k = choose|k: int| 0 <= k < c2.len() && c2[k] == '"';
                    if k < cur.len() {
                        assert(cur[k] == '"');
                    }
                }
            }
            if !s.contains('"') {
                assert(c != ' ');
                assert(!c2.contains(' ')) by {
                    if c2.contains(' ') {
                        let k = choose|k: int| 0 <= k < c2.len() && c2[k] == ' ';
                        if k < cur.len() {
                            assert(cur[k] == ' ');
                        }
                    }
                }
                let sp = |c: char| c != ' ';
                reveal_with_fuel(Seq::filter, 1);
                assert(sp(s.last()));
                assert(s.filter(sp) == p.filter(sp).push(c));
                assert(toks.flatten() + c2 =~= (toks.flatten() + cur).push(c));
            }
        }
    }
}

/// How a query splits into tokens: no token is empty or holds a `"`
/// (quotes only group); and in a query without quotes the tokens hold no
/// space and, put together, are exactly the query's characters other than
/// spaces, in order.
pub proof fn law_query_tokens(input: Seq<char>)
    ensures
        forall|j: int|
            0 <= j < query_tokens(input).len() ==> (#[trigger] query_tokens(input)[j]).len() > 0
                && !query_tokens(input)[j].contains('"'),
        !input.contains('"') ==> (forall|j: int|
            0 <= j < query_tokens(input).len() ==> !(#[trigger] query_tokens(input)[j]).contains(' ')),
        !input.contains('"') ==> query_tokens(input).flatten() == input.filter(|c: char| c != ' '),
{
    lemma_query_state(input);
    let (toks, cur, q) = query_state(input);
    if cur.len() > 0 {
        let t2 = toks.push(cur);
        assert(query_tokens(input) == t2);
        assert forall|j: int| 0 <= j < t2.len() implies (#[trigger] t2[j]).len() > 0 && !t2[j].contains('"') by {
            if j < toks.len() {
                assert(t2[j] == toks[j]);
            }
        }
        if !input.contains('"') {
            assert forall|j: int| 0 <= j < t2.len() implies !(#[trigger] t2[j]).contains(' ') by {
                if j < toks.len() {
                    assert(t2[j] == toks[j]);
                }
            }
            toks.lemma_flatten_push(cur);
        }
    } else {
        assert(cur =~= Seq::<char>::empty());
        assert(toks.flatten() + cur =~= toks.flatten());
    }
}

/// What a token means: `tag:x` includes tag `x`, `-tag:x` excludes it,
/// `-x` excludes tag `x`, anything else is a title term.
pub enum TokenMeaning {
    Term(Seq<char>),
    Include(Seq<char>),
    Exclude(Seq<char>),
}

/// The meaning of one token.
pub open spec fn token_meaning(t: Seq<char>) -> TokenMeaning {
    if has_prefix(t, "tag:"@) {
        TokenMeaning::Include(t.skip(4))
    } else if has_prefix(t, "-tag:"@) {
        TokenMeaning::Exclude(t.skip(5))
    } else if has_prefix(t, "-"@) {
        TokenMeaning::Exclude(t.skip(1))
    } else {
        TokenMeaning::Term(t)
    }
}

/// The title terms among the tokens, in order.
pub open spec fn terms_of(toks: Seq<Seq<char>>) -> Seq<Seq<char>>
    decreases toks.len(),
{
    if toks.len() == 0 {
        Seq::<Seq<char>>::empty()
    } else {
        match token_meaning(toks.last()) {
            TokenMeaning::Term(x) => terms_of(toks.drop_last()).push(x),
            _ => terms_of(toks.drop_last()),
        }
    }
}

/// The included tags among the tokens, in order.
pub open spec fn includes_of(toks: Seq<Seq<char>>) -> Seq<Seq<char>>
    decreases toks.len(),
{
    if toks.len() == 0 {
        Seq::<Seq<char>>::empty()
    } else {
        match token_meaning(toks.last()) {
            TokenMeaning::Include(x) => includes_of(toks.drop_last()).push(x),
            _ => includes_of(toks.drop_last()),
        }
    }
}

/// The excluded tags among the tokens, in order.
pub open spec fn excludes_of(toks: Seq<Seq<char>>) -> Seq<Seq<char>>
    decreases toks.len(),
{
    if toks.len() == 0 {
        Seq::<Seq<char>>::empty()
    } else {
        match token_meaning(toks.last()) {
            TokenMeaning::Exclude(x) => excludes_of(toks.drop_last()).push(x),
            _ => excludes_of(toks.drop_last()),
        }
    }
}

/// How one token is filed: a token starting with `tag:` includes the tag
/// after it; one starting with `-tag:` excludes the tag after that prefix;
/// any other token starting with `-` excludes what follows the dash; every
/// other token is a title term as it stands. So only a `tag:` token ever
/// includes a tag, and a token starting with `-` never does.
pub proof fn law_token_filing(t: Seq<char>)
    ensures
        has_prefix(t, "tag:"@) ==> token_meaning(t) == TokenMeaning::Include(t.skip(4)),
        has_prefix(t, "-tag:"@) ==> token_meaning(t) == TokenMeaning::Exclude(t.skip(5)),
        has_prefix(t, "-"@) && !has_prefix(t, "-tag:"@) ==> token_meaning(t) == TokenMeaning::Exclude(t.skip(1)),
        !has_prefix(t, "tag:"@) && !has_prefix(t, "-"@) ==> token_meaning(t) == TokenMeaning::Term(t),
        token_meaning(t) is Include ==> has_prefix(t, "tag:"@) && !has_prefix(t, "-"@),
        token_meaning(t) is Exclude ==> has_prefix(t, "-"@),
{
    reveal_strlit("tag:");
    reveal_strlit("-tag:");
    reveal_strlit("-");
    if has_prefix(t, "-tag:"@) {
        assert(t[0] == "-tag:"@[0]);
        assert(t.take(1) =~= "-"@);
        assert(!has_prefix(t, "tag:"@)) by {
            if has_prefix(t, "tag:"@) {
                assert(t[0] == "tag:"@[0]);
            }
        }
    }
    if has_prefix(t, "tag:"@) {
        assert(t[0] == "tag:"@[0]);
        assert(!has_prefix(t, "-"@)) by {
            if has_prefix(t, "-"@) {
                assert(t[0] == "-"@[0]);
            }
        }
    }
}

/// Whether the tags and terms drawn from tokens are filed by their
/// prefixes: each included tag `x` comes from a token `tag:x`, and each
/// such token's tag is included; `-tag:x` and any other `-x` put `x` among
/// the excluded tags; each title term is a whole token starting with
/// neither `tag:` nor `-`.
pub open spec fn tokens_filed(toks: Seq<Seq<char>>) -> bool {
    &&& forall|i: int|
        0 <= i < includes_of(toks).len() ==> toks.contains("tag:"@ + #[trigger] includes_of(toks)[i])
    &&& forall|j: int|
        0 <= j < toks.len() && has_prefix(#[trigger] toks[j], "tag:"@) ==> includes_of(toks).contains(toks[j].skip(4))
    &&& forall|j: int|
        0 <= j < toks.len() && has_prefix(#[trigger] toks[j], "-tag:"@) ==> excludes_of(toks).contains(toks[j].skip(5))
    &&& forall|j: int|
        0 <= j < toks.len() && has_prefix(#[trigger] toks[j], "-"@) && !has_prefix(toks[j], "-tag:"@)
            ==> excludes_of(toks).contains(toks[j].skip(1))
    &&& forall|i: int|
        0 <= i < terms_of(toks).len() ==> toks.contains(#[trigger] terms_of(toks)[i]) && !has_prefix(
            terms_of(toks)[i],
            "tag:"@,
        ) && !has_prefix(terms_of(toks)[i], "-"@)
}

proof fn lemma_filed_tokens(toks: Seq<Seq<char>>)
    ensures
        tokens_filed(toks),
    decreases toks.len(),
{
    if toks.len() > 0 {
        let init = toks.drop_last();
        let t = toks.last();
        let last = toks.len() - 1;
        lemma_filed_tokens(init);
        law_token_filing(t);
        assert forall|j: int| 0 <= j < init.len() implies #[trigger] init[j] == toks[j] by {}
        assert(toks[last] == t);
        assert(toks.contains(t));
        assert forall|x: Seq<char>| init.contains(x) implies toks.contains(x) by {
            let k = choose|k: int| 0 <= k < init.len() && init[k] == x;
            assert(toks[k] == x);
        }
        let inc0 = includes_of(init);
        let exc0 = excludes_of(init);
        let ter0 = terms_of(init);
        match token_meaning(t) {
            TokenMeaning::Include(y) => {
                assert(includes_of(toks) == inc0.push(y));
                assert(excludes_of(toks) == exc0);
                assert(terms_of(toks) == ter0);
                assert(has_prefix(t, "tag:"@));
                assert(y == t.skip(4));
                reveal_strlit("tag:");
                assert(t.take(4) == "tag:"@);
                assert(t =~= t.take(4) + t.skip(4));
                assert(includes_of(toks)[inc0.len() as int] == y);
            },
            TokenMeaning::Exclude(y) => {
                assert(excludes_of(toks) == exc0.push(y));
                assert(includes_of(toks) == inc0);
                assert(terms_of(toks) == ter0);
                assert(excludes_of(toks)[exc0.len() as int] == y);
            },
            TokenMeaning::Term(y) => {
                assert(terms_of(toks) == ter0.push(y));
                assert(includes_of(toks) == inc0);
                assert(excludes_of(toks) == exc0);
                assert(!has_prefix(t, "tag:"@) && !has_prefix(t, "-"@));
                assert(y == t);
                assert(terms_of(toks)[ter0.len() as int] == y);
            },
        }
        assert forall|x: Seq<char>| inc0.contains(x) implies includes_of(toks).contains(x) by {
            let k = choose|k: int| 0 <= k < inc0.len() && inc0[k] == x;
            assert(includes_of(toks)[k] == x);
        }
        assert forall|x: Seq<char>| exc0.contains(x) implies excludes_of(toks).contains(x) by {
            let k = choose|k: int| 0 <= k < exc0.len() && exc0[k] == x;
            assert(excludes_of(toks)[k] == x);
        }
        assert forall|i: int| 0 <= i < includes_of(toks).len() implies toks.contains(
            "tag:"@ + #[trigger] includes_of(toks)[i],
        ) by {
            if i < inc0.len() {
                assert(includes_of(toks)[i] == inc0[i]);
            }
        }
        assert forall|i: int| 0 <= i < terms_of(toks).len() implies toks.contains(#[trigger] terms_of(toks)[i])
            && !has_prefix(terms_of(toks)[i], "tag:"@) && !has_prefix(terms_of(toks)[i], "-"@) by {
            if i < ter0.len() {
                assert(terms_of(toks)[i] == ter0[i]);
            }
        }
        assert forall|j: int| 0 <= j < toks.len() && has_prefix(#[trigger] toks[j], "tag:"@) implies includes_of(
            toks,
        ).contains(toks[j].skip(4)) by {
            if j < last {
                assert(toks[j] == init[j]);
            }
        }
        assert forall|j: int| 0 <= j < toks.len() && has_prefix(#[trigger] toks[j], "-tag:"@) implies excludes_of(
            toks,
        ).contains(toks[j].skip(5)) by {
            if j < last {
                assert(toks[j] == init[j]);
            }
        }
        assert forall|j: int|
            0 <= j < toks.len() && has_prefix(#[trigger] toks[j], "-"@) && !has_prefix(toks[j], "-tag:"@) implies excludes_of(
                toks,
            ).contains(toks[j].skip(1)) by {
            if j < last {
                assert(toks[j] == init[j]);
            }
        }
    } else {
        assert(includes_of(toks) =~= Seq::<Seq<char>>::empty());
        assert(terms_of(toks) =~= Seq::<Seq<char>>::empty());
    }
}

/// What a parsed query holds, token by token: every included tag `x`
/// comes from a token `tag:x`, and every such token's tag is included; a
/// token `-tag:x` puts `x` among the excluded tags and any other token `-x`
/// puts `x` there; every title term is a whole token that starts with
/// neither `tag:` nor `-`.
pub proof fn law_query_files_tags(input: Seq<char>)
    ensures
        tokens_filed(query_tokens(input)),
{
    lemma_filed_tokens(query_tokens(input));
}

/// A parsed search query.
pub struct SearchQuery {
    pub terms: Vec<String>,
    pub include_tags: Vec<String>,
    pub exclude_tags: Vec<String>,
}

/// The text views of a vector of strings.
pub open spec fn texts(v: Seq<String>) -> Seq<Seq<char>> {
    v.map_values(|s: String| s@)
}

/// The title condition.
pub open spec fn title_like() -> Seq<char> {
    "a.title LIKE ?"@
}

/// The condition for a tag given by namespace and name, included or not.
pub open spec fn tag_ns_condition(wanted: bool) -> Seq<char> {
    if wanted {
        "a.id IN (SELECT at.archive_id FROM archive_tags at JOIN tags t ON t.id = at.tag_id WHERE t.namespace = ? AND t.name = ?)"@
    } else {
        "a.id NOT IN (SELECT at.archive_id FROM archive_tags at JOIN tags t ON t.id = at.tag_id WHERE t.namespace = ? AND t.name = ?)"@
    }
}

/// The condition for a tag given by name alone, included or not.
pub open spec fn tag_name_condition(wanted: bool) -> Seq<char> {
    if wanted {
        "a.id IN (SELECT at.archive_id FROM archive_tags at JOIN tags t ON t.id = at.tag_id WHERE t.name = ?)"@
    } else {
        "a.id NOT IN (SELECT at.archive_id FROM archive_tags at JOIN tags t ON t.id = at.tag_id WHERE t.name = ?)"@
    }
}

/// The conditions and parameters for a list of tags: `ns:name` by namespace
/// and name, a plain name by name.
pub open spec fn tag_conditions(tags: Seq<Seq<char>>, wanted: bool) -> (Seq<Seq<char>>, Seq<Seq<char>>)
    decreases tags.len(),
{
    if tags.len() == 0 {
        (Seq::<Seq<char>>::empty(), Seq::<Seq<char>>::empty())
    } else {
        let (c, p) = tag_conditions(tags.drop_last(), wanted);
        match split_colon(tags.last()) {
            Some((ns, name)) => (c.push(tag_ns_condition(wanted)), p.push(ns).push(name)),
            None => (c.push(tag_name_condition(wanted)), p.push(tags.last())),
        }
    }
}

/// The conditions and parameters of a query: a title condition per term,
/// then one per included tag, then one per excluded tag.
pub open spec fn query_conditions(terms: Seq<Seq<char>>, inc: Seq<Seq<char>>, exc: Seq<Seq<char>>) -> (
    Seq<Seq<char>>,
    Seq<Seq<char>>,
) {
    let tc = Seq::new(terms.len(), |i: int| title_like());
    let tp = terms.map_values(|t: Seq<char>| like_pattern(t));
    let (ic, ip) = tag_conditions(inc, true);
    let (ec, ep) = tag_conditions(exc, false);
    (tc + ic + ec, tp + ip + ep)
}

/// Conditions joined with ` AND `.
pub open spec fn join_and(cs: Seq<Seq<char>>) -> Seq<char>
    decreases cs.len(),
{
    if cs.len() == 0 {
        Seq::<char>::empty()
    } else if cs.len() == 1 {
        cs[0]
    } else {
        join_and(cs.drop_last()) + " AND "@ + cs.last()
    }
}

/// The SQL fragment of a list of conditions: empty for none, else `AND `
/// and the conditions joined with ` AND `.
pub open spec fn conditions_sql(cs: Seq<Seq<char>>) -> Seq<char> {
    if cs.len() == 0 {
        Seq::<char>::empty()
    } else {
        "AND "@ + join_and(cs)
    }
}

fn push_tag_conditions(
    tags: &Vec<String>,
    wanted: bool,
    conds: &mut Vec<String>,
    params: &mut Vec<String>,
)
    ensures
        texts(final(conds)@) == texts(old(conds)@) + tag_conditions(texts(tags@), wanted).0,
        texts(final(params)@) == texts(old(params)@) + tag_conditions(texts(tags@), wanted).1,
{
    let ghost c0 = texts(conds@);
    let ghost p0 = texts(params@);
    let mut i: usize = 0;
    assert(texts(tags@).take(0) =~= Seq::<Seq<char>>::empty());
    assert(texts(conds@) =~= c0 + tag_conditions(texts(tags@).take(0), wanted).0);
    assert(texts(params@) =~= p0 + tag_conditions(texts(tags@).take(0), wanted).1);
    while i < tags.len()
        invariant
            i <= tags@.len(),
            texts(conds@) == c0 + tag_conditions(texts(tags@).take(i as int), wanted).0,
            texts(params@) == p0 + tag_conditions(texts(tags@).take(i as int), wanted).1,
        decreases tags.len() - i,
    {
        let v = chars_of(tags[i].as_str());
        assert(texts(tags@).take(i as int + 1).drop_last() =~= texts(tags@).take(i as int));
        assert(texts(tags@).take(i as int + 1).last() == v@);
        let ghost cb = conds@;
        let ghost pb = params@;
        match split_colon_exec(v.as_slice()) {
            Some((ns, name)) => {
                if wanted {
                    conds.push(String::from_str("a.id IN (SELECT at.archive_id FROM archive_tags at JOIN tags t ON t.id = at.tag_id WHERE t.namespace = ? AND t.name = ?)"));
                } else {
                    conds.push(String::from_str("a.id NOT IN (SELECT at.archive_id FROM archive_tags at JOIN tags t ON t.id = at.tag_id WHERE t.namespace = ? AND t.name = ?)"));
                }
                params.push(string_from_chars(ns.as_slice()));
                params.push(string_from_chars(name.as_slice()));
                assert(texts(conds@) =~= texts(cb).push(tag_ns_condition(wanted)));
                assert(texts(params@) =~= texts(pb).push(ns@).push(name@));
            },
            None => {
                if wanted {
                    conds.push(String::from_str("a.id IN (SELECT at.archive_id FROM archive_tags at JOIN tags t ON t.id = at.tag_id WHERE t.name = ?)"));
                } else {
                    conds.push(String::from_str("a.id NOT IN (SELECT at.archive_id FROM archive_tags at JOIN tags t ON t.id = at.tag_id WHERE t.name = ?)"));
                }
                params.push(tags[i].clone());
                assert(texts(conds@) =~= texts(cb).push(tag_name_condition(wanted)));
                assert(texts(params@) =~= texts(pb).push(v@));
            },
        }
        assert(texts(conds@) =~= c0 + tag_conditions(texts(tags@).take(i as int + 1), wanted).0);
        assert(texts(params@) =~= p0 + tag_conditions(texts(tags@).take(i as int + 1), wanted).1);
        i = i + 1;
    }
    assert(texts(tags@).take(tags@.len() as int) =~= texts(tags@));
}

impl SearchQuery {
    /// Parses a query (see [`query_state`] and [`token_meaning`]): the
    /// title terms, included tags and excluded tags, each in the order
    /// they appear.
    pub fn parse(input: &str) -> (r: Self)
        ensures
            texts(r.terms@) == terms_of(query_tokens(input@)),
            texts(r.include_tags@) == includes_of(query_tokens(input@)),
            texts(r.exclude_tags@) == excludes_of(query_tokens(input@)),
    {
        let v = chars_of(input);
        let mut terms: Vec<String> = Vec::new();
        let mut include_tags: Vec<String> = Vec::new();
        let mut exclude_tags: Vec<String> = Vec::new();
        let mut current: Vec<char> = Vec::new();
        let mut in_quotes = false;
        let ghost mut toks: Seq<Seq<char>> = Seq::empty();
        let mut i: usize = 0;
        assert(v@.take(0) =~= Seq::<char>::empty());
        while i < v.len()
            invariant
                i <= v@.len(),
                (toks, current@, in_quotes) == query_state(v@.take(i as int)),
                texts(terms@) == terms_of(toks),
                texts(include_tags@) == includes_of(toks),
                texts(exclude_tags@) == excludes_of(toks),
            decreases v.len() - i,
        {
            let c = v[i];
            assert(v@.take(i as int + 1).drop_last() =~= v@.take(i as int));
            if c == '"' {
                in_quotes = !in_quotes;
            } else if c == ' ' && !in_quotes {
                if current.len() > 0 {
                    let tok = string_from_chars(current.as_slice());
                    Self::process_token(tok.as_str(), &mut terms, &mut include_tags, &mut exclude_tags);
                    proof {
                        let ghost before = toks;
                        toks = toks.push(current@);
                        assert(toks.drop_last() =~= before);
                        assert(toks.last() == current@);
                    }
                    current = Vec::new();
                }
            } else {
                current.push(c);
            }
            i = i + 1;
        }
        assert(v@.take(v.len() as int) =~= v@);
        if current.len() > 0 {
            let tok = string_from_chars(current.as_slice());
            Self::process_token(tok.as_str(), &mut terms, &mut include_tags, &mut exclude_tags);
            proof {
                let ghost before = toks;
                toks = toks.push(current@);
                assert(toks.drop_last() =~= before);
                assert(toks.last() == current@);
            }
        }
        SearchQuery { terms, include_tags, exclude_tags }
    }

    /// Files one token under terms, included tags or excluded tags (see
    /// [`token_meaning`]).
    pub fn process_token(
        token: &str,
        terms: &mut Vec<String>,
        include_tags: &mut Vec<String>,
        exclude_tags: &mut Vec<String>,
    )
        ensures
            texts(final(terms)@) == match token_meaning(token@) {
                TokenMeaning::Term(x) => texts(old(terms)@).push(x),
                _ => texts(old(terms)@),
            },
            texts(final(include_tags)@) == match token_meaning(token@) {
                TokenMeaning::Include(x) => texts(old(include_tags)@).push(x),
                _ => texts(old(include_tags)@),
            },
            texts(final(exclude_tags)@) == match token_meaning(token@) {
                TokenMeaning::Exclude(x) => texts(old(exclude_tags)@).push(x),
                _ => texts(old(exclude_tags)@),
            },
    {
        let v = chars_of(token);
        let tagp = chars_of("tag:");
        let ntagp = chars_of("-tag:");
        let dash = chars_of("-");
        proof {
            reveal_strlit("tag:");
            reveal_strlit("-tag:");
            reveal_strlit("-");
        }
        if starts_with(v.as_slice(), tagp.as_slice()) {
            let rest = slice_chars(v.as_slice(), 4, v.len());
            assert(rest@ =~= v@.skip(4));
            include_tags.push(string_from_chars(rest.as_slice()));
        } else if starts_with(v.as_slice(), ntagp.as_slice()) {
            let rest = slice_chars(v.as_slice(), 5, v.len());
            assert(rest@ =~= v@.skip(5));
            exclude_tags.push(string_from_chars(rest.as_slice()));
        } else if starts_with(v.as_slice(), dash.as_slice()) {
            let rest = slice_chars(v.as_slice(), 1, v.len());
            assert(rest@ =~= v@.skip(1));
            exclude_tags.push(string_from_chars(rest.as_slice()));
        } else {
            terms.push(String::from_str(token));
        }
        assert(texts(terms@) =~= match token_meaning(token@) {
            TokenMeaning::Term(x) => texts(old(terms)@).push(x),
            _ => texts(old(terms)@),
        });
        assert(texts(include_tags@) =~= match token_meaning(token@) {
            TokenMeaning::Include(x) => texts(old(include_tags)@).push(x),
            _ => texts(old(include_tags)@),
        });
        assert(texts(exclude_tags@) =~= match token_meaning(token@) {
            TokenMeaning::Exclude(x) => texts(old(exclude_tags)@).push(x),
            _ => texts(old(exclude_tags)@),
        });
    }

    /// The SQL fragment (see [`conditions_sql`]) and parameters for the
    /// query (see [`query_conditions`]).
    pub fn to_sql_conditions(&self) -> (r: (String, Vec<String>))
        ensures
            ({
                let (cs, ps) = query_conditions(
                    texts(self.terms@),
                    texts(self.include_tags@),
                    texts(self.exclude_tags@),
                );
                &&& r.0@ == conditions_sql(cs)
                &&& texts(r.1@) == ps
            }),
    {
        let mut conds: Vec<String> = Vec::new();
        let mut params: Vec<String> = Vec::new();
        let mut i: usize = 0;
        while i < self.terms.len()
            invariant
                i <= self.terms@.len(),
                texts(conds@) == Seq::new(i as nat, |k: int| title_like()),
                texts(params@) == texts(self.terms@).take(i as int).map_values(
                    |t: Seq<char>| like_pattern(t),
                ),
            decreases self.terms.len() - i,
        {
            let ghost cb = conds@;
            let ghost pb = params@;
            conds.push(String::from_str("a.title LIKE ?"));
            let v = chars_of(self.terms[i].as_str());
            params.push(like_pattern_exec(v.as_slice()));
            assert(texts(conds@) =~= texts(cb).push(title_like()));
            assert(texts(params@) =~= texts(pb).push(like_pattern(v@)));
            assert(texts(self.terms@).take(i as int + 1) =~= texts(self.terms@).take(i as int).push(v@));
            assert(texts(conds@) =~= Seq::new(i as nat + 1, |k: int| title_like()));
            assert(texts(params@) =~= texts(self.terms@).take(i as int + 1).map_values(
                |t: Seq<char>| like_pattern(t),
            ));
            i = i + 1;
        }
        assert(texts(self.terms@).take(self.terms@.len() as int) =~= texts(self.terms@));
        push_tag_conditions(&self.include_tags, true, &mut conds, &mut params);
        push_tag_conditions(&self.exclude_tags, false, &mut conds, &mut params);
        let ghost cs = texts(conds@);
        let ghost q = query_conditions(
            texts(self.terms@),
            texts(self.include_tags@),
            texts(self.exclude_tags@),
        );
        assert(cs =~= q.0);
        assert(texts(params@) =~= q.1);
        if conds.len() == 0 {
            return (String::new(), params);
        }
        let mut sql = String::from_str("AND ");
        let mut k: usize = 0;
        let ghost head = sql@;
        while k < conds.len()
            invariant
                k <= conds@.len(),
                conds@.len() > 0,
                cs == texts(conds@),
                head == "AND "@,
                sql@ == if k == 0 {
                    head
                } else {
                    head + join_and(cs.take(k as int))
                },
            decreases conds.len() - k,
        {
            if k > 0 {
                push_str(&mut sql, " AND ");
            }
            push_str(&mut sql, conds[k].as_str());
            let ghost t = cs.take(k as int + 1);
            assert(t.drop_last() =~= cs.take(k as int));
            assert(t.last() == conds@[k as int]@);
            if k == 0 {
                assert(sql@ =~= head + join_and(t));
            } else {
                assert(sql@ =~= head + join_and(t));
            }
            k = k + 1;
        }
        assert(cs.take(conds@.len() as int) =~= cs);
        (sql, params)
    }
}

} // verus!
verus! {

/// The number of `?` placeholders in an SQL text.
pub open spec fn placeholders(s: Seq<char>) -> nat
    decreases s.len(),
{
    if s.len() == 0 {
        0
    } else {
        placeholders(s.drop_last()) + if s.last() == '?' {
            1nat
        } else {
            0nat
        }
    }
}

proof fn lemma_placeholders_concat(a: Seq<char>, b: Seq<char>)
    ensures
        placeholders(a + b) == placeholders(a) + placeholders(b),
    decreases b.len(),
{
    if b.len() > 0 {
        lemma_placeholders_concat(a, b.drop_last());
        assert((a + b).drop_last() =~= a + b.drop_last());
    } else {
        assert(a + b =~= a);
    }
}

proof fn lemma_no_placeholders(s: Seq<char>)
    requires
        forall|i: int| 0 <= i < s.len() ==> s[i] != '?',
    ensures
        placeholders(s) == 0,
    decreases s.len(),
{
    if s.len() > 0 {
        lemma_no_placeholders(s.drop_last());
    }
}

proof fn lemma_one_placeholder(s: Seq<char>, k: int)
    requires
        0 <= k < s.len(),
        s[k] == '?',
        forall|i: int| 0 <= i < s.len() && i != k ==> s[i] != '?',
    ensures
        placeholders(s) == 1,
{
    let a = s.take(k);
    let b = s.subrange(k, k + 1);
    let c = s.skip(k + 1);
    assert(s =~= a + b + c);
    lemma_no_placeholders(a);
    lemma_no_placeholders(c);
    assert(placeholders(b) == 1) by {
        assert(b.drop_last() =~= Seq::<char>::empty());
        assert(placeholders(b.drop_last()) == 0);
        assert(b.last() == '?');
    }
    lemma_placeholders_concat(a, b);
    lemma_placeholders_concat(a + b, c);
}

proof fn lemma_two_placeholders(s: Seq<char>, k1: int, k2: int)
    requires
        0 <= k1 < k2 < s.len(),
        s[k1] == '?',
        s[k2] == '?',
        forall|i: int| 0 <= i < s.len() && i != k1 && i != k2 ==> s[i] != '?',
    ensures
        placeholders(s) == 2,
{
    let a = s.take(k1 + 1);
    let b = s.skip(k1 + 1);
    assert(s =~= a + b);
    lemma_one_placeholder(a, k1);
    lemma_one_placeholder(b, k2 - k1 - 1);
    lemma_placeholders_concat(a, b);
}

/// The placeholder counts of the SQL pieces.
proof fn lemma_piece_counts()
    ensures
        placeholders(title_like()) == 1,
        placeholders(tag_ns_condition(true)) == 2,
        placeholders(tag_ns_condition(false)) == 2,
        placeholders(tag_name_condition(true)) == 1,
        placeholders(tag_name_condition(false)) == 1,
        placeholders(tag_exists_head()) == 0,
        placeholders(exclude_clause()) == 2,
        placeholders(include_clause()) == 2,
        placeholders(" AND tx.namespace = ?"@) == 1,
        placeholders(" AND tx.name = ?)"@) == 1,
        placeholders(" AND "@) == 0,
        placeholders("WHERE 1=1"@) == 0,
        placeholders(tag_join()) == 0,
        placeholders(" AND t_f.namespace = ? AND t_f.name = ?"@) == 2,
        placeholders(" AND t_f.name = ? AND t_f.namespace = ''"@) == 1,
        placeholders(" AND a.title LIKE ?"@) == 1,
        placeholders(" JOIN archive_categories ac_f ON ac_f.archive_id = a.id"@) == 0,
        placeholders(" AND ac_f.category_id = ?"@) == 1,
        placeholders(" AND a.created_at >= datetime(?, 'utc')"@) == 1,
        placeholders(" AND a.created_at < datetime(?, 'utc')"@) == 1,
        placeholders("AND "@) == 0,
{
    reveal_strlit("a.title LIKE ?");
    lemma_one_placeholder("a.title LIKE ?"@, 13);
    reveal_strlit("a.id IN (SELECT at.archive_id FROM archive_tags at JOIN tags t ON t.id = at.tag_id WHERE t.namespace = ? AND t.name = ?)");
    lemma_two_placeholders("a.id IN (SELECT at.archive_id FROM archive_tags at JOIN tags t ON t.id = at.tag_id WHERE t.namespace = ? AND t.name = ?)"@, 103, 118);
    reveal_strlit("a.id NOT IN (SELECT at.archive_id FROM archive_tags at JOIN tags t ON t.id = at.tag_id WHERE t.namespace = ? AND t.name = ?)");
    lemma_two_placeholders("a.id NOT IN (SELECT at.archive_id FROM archive_tags at JOIN tags t ON t.id = at.tag_id WHERE t.namespace = ? AND t.name = ?)"@, 107, 122);
    reveal_strlit("a.id IN (SELECT at.archive_id FROM archive_tags at JOIN tags t ON t.id = at.tag_id WHERE t.name = ?)");
    lemma_one_placeholder("a.id IN (SELECT at.archive_id FROM archive_tags at JOIN tags t ON t.id = at.tag_id WHERE t.name = ?)"@, 98);
    reveal_strlit("a.id NOT IN (SELECT at.archive_id FROM archive_tags at JOIN tags t ON t.id = at.tag_id WHERE t.name = ?)");
    lemma_one_placeholder("a.id NOT IN (SELECT at.archive_id FROM archive_tags at JOIN tags t ON t.id = at.tag_id WHERE t.name = ?)"@, 102);
    reveal_strlit("EXISTS (SELECT 1 FROM archive_tags atx JOIN tags tx ON tx.id = atx.tag_id WHERE atx.archive_id = a.id");
    lemma_no_placeholders("EXISTS (SELECT 1 FROM archive_tags atx JOIN tags tx ON tx.id = atx.tag_id WHERE atx.archive_id = a.id"@);
    reveal_strlit(" AND a.title NOT LIKE ? AND NOT EXISTS (SELECT 1 FROM archive_tags atx JOIN tags tx ON tx.id = atx.tag_id WHERE atx.archive_id = a.id AND tx.name LIKE ?)");
    lemma_two_placeholders(" AND a.title NOT LIKE ? AND NOT EXISTS (SELECT 1 FROM archive_tags atx JOIN tags tx ON tx.id = atx.tag_id WHERE atx.archive_id = a.id AND tx.name LIKE ?)"@, 22, 151);
    reveal_strlit(" AND (a.title LIKE ? OR EXISTS (SELECT 1 FROM archive_tags atx JOIN tags tx ON tx.id = atx.tag_id WHERE atx.archive_id = a.id AND tx.name LIKE ?))");
    lemma_two_placeholders(" AND (a.title LIKE ? OR EXISTS (SELECT 1 FROM archive_tags atx JOIN tags tx ON tx.id = atx.tag_id WHERE atx.archive_id = a.id AND tx.name LIKE ?))"@, 19, 143);
    reveal_strlit(" AND tx.namespace = ?");
    lemma_one_placeholder(" AND tx.namespace = ?"@, 20);
    reveal_strlit(" AND tx.name = ?)");
    lemma_one_placeholder(" AND tx.name = ?)"@, 15);
    reveal_strlit(" AND ");
    lemma_no_placeholders(" AND "@);
    reveal_strlit("WHERE 1=1");
    lemma_no_placeholders("WHERE 1=1"@);
    reveal_strlit(" JOIN archive_tags at_f ON at_f.archive_id = a.id JOIN tags t_f ON t_f.id = at_f.tag_id");
    lemma_no_placeholders(" JOIN archive_tags at_f ON at_f.archive_id = a.id JOIN tags t_f ON t_f.id = at_f.tag_id"@);
    reveal_strlit(" AND t_f.namespace = ? AND t_f.name = ?");
    lemma_two_placeholders(" AND t_f.namespace = ? AND t_f.name = ?"@, 21, 38);
    reveal_strlit(" AND t_f.name = ? AND t_f.namespace = ''");
    lemma_one_placeholder(" AND t_f.name = ? AND t_f.namespace = ''"@, 16);
    reveal_strlit(" AND a.title LIKE ?");
    lemma_one_placeholder(" AND a.title LIKE ?"@, 18);
    reveal_strlit(" JOIN archive_categories ac_f ON ac_f.archive_id = a.id");
    lemma_no_placeholders(" JOIN archive_categories ac_f ON ac_f.archive_id = a.id"@);
    reveal_strlit(" AND ac_f.category_id = ?");
    lemma_one_placeholder(" AND ac_f.category_id = ?"@, 24);
    reveal_strlit(" AND a.created_at >= datetime(?, 'utc')");
    lemma_one_placeholder(" AND a.created_at >= datetime(?, 'utc')"@, 30);
    reveal_strlit(" AND a.created_at < datetime(?, 'utc')");
    lemma_one_placeholder(" AND a.created_at < datetime(?, 'utc')"@, 29);
    reveal_strlit("AND ");
    lemma_no_placeholders("AND "@);
}

/// The placeholders of a list of conditions, summed.
pub open spec fn total_placeholders(cs: Seq<Seq<char>>) -> nat
    decreases cs.len(),
{
    if cs.len() == 0 {
        0
    } else {
        total_placeholders(cs.drop_last()) + placeholders(cs.last())
    }
}

proof fn lemma_total_concat(a: Seq<Seq<char>>, b: Seq<Seq<char>>)
    ensures
        total_placeholders(a + b) == total_placeholders(a) + total_placeholders(b),
    decreases b.len(),
{
    if b.len() > 0 {
        lemma_total_concat(a, b.drop_last());
        assert((a + b).drop_last() =~= a + b.drop_last());
    } else {
        assert(a + b =~= a);
    }
}

proof fn lemma_join_and_count(cs: Seq<Seq<char>>)
    ensures
        placeholders(join_and(cs)) == total_placeholders(cs),
    decreases cs.len(),
{
    lemma_piece_counts();
    if cs.len() == 1 {
        assert(cs.drop_last() =~= Seq::<Seq<char>>::empty());
        assert(total_placeholders(cs.drop_last()) == 0);
        assert(cs.last() == cs[0]);
    } else if cs.len() > 1 {
        lemma_join_and_count(cs.drop_last());
        lemma_placeholders_concat(join_and(cs.drop_last()), " AND "@);
        lemma_placeholders_concat(join_and(cs.drop_last()) + " AND "@, cs.last());
    }
}

proof fn lemma_tag_conditions_balanced(tags: Seq<Seq<char>>, wanted: bool)
    ensures
        total_placeholders(tag_conditions(tags, wanted).0) == tag_conditions(tags, wanted).1.len(),
        tag_conditions(tags, wanted).0.len() == tags.len(),
    decreases tags.len(),
{
    lemma_piece_counts();
    if tags.len() > 0 {
        lemma_tag_conditions_balanced(tags.drop_last(), wanted);
        let (c, p) = tag_conditions(tags.drop_last(), wanted);
        match split_colon(tags.last()) {
            Some((ns, name)) => {
                let x = tag_ns_condition(wanted);
                assert(c.push(x).drop_last() =~= c);
                assert(total_placeholders(c.push(x)) == total_placeholders(c) + placeholders(x));
            },
            None => {
                let x = tag_name_condition(wanted);
                assert(c.push(x).drop_last() =~= c);
                assert(total_placeholders(c.push(x)) == total_placeholders(c) + placeholders(x));
            },
        }
    }
}

proof fn lemma_terms_balanced(n: nat)
    ensures
        total_placeholders(Seq::new(n, |i: int| title_like())) == n,
    decreases n,
{
    lemma_piece_counts();
    if n > 0 {
        lemma_terms_balanced((n - 1) as nat);
        assert(Seq::new(n, |i: int| title_like()).drop_last() =~= Seq::new(
            (n - 1) as nat,
            |i: int| title_like(),
        ));
    }
}

/// The SQL that [`SearchQuery::to_sql_conditions`] builds has exactly one
/// `?` placeholder per parameter it returns.
pub proof fn law_query_placeholders_match_params(
    terms: Seq<Seq<char>>,
    wanted_tags: Seq<Seq<char>>,
    unwanted_tags: Seq<Seq<char>>,
)
    ensures
        ({
            let (cs, ps) = query_conditions(terms, wanted_tags, unwanted_tags);
            placeholders(conditions_sql(cs)) == ps.len()
        }),
{
    lemma_piece_counts();
    let tc = Seq::new(terms.len(), |i: int| title_like());
    let (ic, ip) = tag_conditions(wanted_tags, true);
    let (ec, ep) = tag_conditions(unwanted_tags, false);
    lemma_terms_balanced(terms.len());
    lemma_tag_conditions_balanced(wanted_tags, true);
    lemma_tag_conditions_balanced(unwanted_tags, false);
    lemma_total_concat(tc, ic);
    lemma_total_concat(tc + ic, ec);
    let cs = tc + ic + ec;
    lemma_join_and_count(cs);
    if cs.len() > 0 {
        lemma_placeholders_concat("AND "@, join_and(cs));
    }
}

proof fn lemma_word_filter_balanced(w: Seq<char>)
    ensures
        placeholders(word_filter(w).0) == word_filter(w).1.len(),
{
    lemma_piece_counts();
    if has_prefix(w, "tag:"@) {
        let spec = w.skip(4);
        lemma_placeholders_concat(" AND "@, tag_exists_head());
        match split_colon(spec) {
            Some((ns, name)) => {
                lemma_placeholders_concat(" AND "@ + tag_exists_head(), " AND tx.namespace = ?"@);
                lemma_placeholders_concat(
                    " AND "@ + tag_exists_head() + " AND tx.namespace = ?"@,
                    " AND tx.name = ?)"@,
                );
            },
            None => {
                lemma_placeholders_concat(" AND "@ + tag_exists_head(), " AND tx.name = ?)"@);
            },
        }
    }
}

proof fn lemma_words_filter_balanced(ws: Seq<Seq<char>>)
    ensures
        placeholders(words_filter(ws).0) == words_filter(ws).1.len(),
    decreases ws.len(),
{
    if ws.len() > 0 {
        lemma_words_filter_balanced(ws.drop_last());
        lemma_word_filter_balanced(ws.last());
        lemma_placeholders_concat(words_filter(ws.drop_last()).0, word_filter(ws.last()).0);
    }
}

/// The filters that [`build_archive_filters`] builds have exactly one `?`
/// placeholder per parameter, all of them in the WHERE text; the JOIN text
/// has none.
pub proof fn law_filter_placeholders_match_params(
    search: Option<Seq<char>>,
    tag: Option<Seq<char>>,
    category_id: Option<i64>,
    saved_search: Option<Seq<char>>,
    added_from: Option<Seq<char>>,
    added_to: Option<Seq<char>>,
)
    ensures
        ({
            let (sc, sa) = search_filter(search);
            let (tj, tw, ta) = tag_filter(tag);
            let (cj, cw, ca) = category_filter(category_id, saved_search);
            let (dw, da) = date_filter(added_from, added_to);
            &&& placeholders("WHERE 1=1"@ + sc + tw + cw + dw) == (sa + ta + ca + da).len()
            &&& placeholders(tj + cj) == 0
        }),
{
    lemma_piece_counts();
    let (sc, sa) = search_filter(search);
    let (tj, tw, ta) = tag_filter(tag);
    let (cj, cw, ca) = category_filter(category_id, saved_search);
    let (dw, da) = date_filter(added_from, added_to);
    match search {
        Some(s) => if s.len() > 0 {
            lemma_words_filter_balanced(ws_words(s));
        },
        None => {},
    }
    assert(placeholders(Seq::<char>::empty()) == 0);
    assert(placeholders(dw) == da.len()) by {
        let f1 = match added_from {
            Some(f) => if f.len() > 0 {
                " AND a.created_at >= datetime(?, 'utc')"@
            } else {
                Seq::<char>::empty()
            },
            None => Seq::<char>::empty(),
        };
        let f2 = match added_to {
            Some(t) => if t.len() > 0 {
                " AND a.created_at < datetime(?, 'utc')"@
            } else {
                Seq::<char>::empty()
            },
            None => Seq::<char>::empty(),
        };
        assert(dw == f1 + f2);
        lemma_placeholders_concat(f1, f2);
    }
    lemma_placeholders_concat("WHERE 1=1"@, sc);
    lemma_placeholders_concat("WHERE 1=1"@ + sc, tw);
    lemma_placeholders_concat("WHERE 1=1"@ + sc + tw, cw);
    lemma_placeholders_concat("WHERE 1=1"@ + sc + tw + cw, dw);
    lemma_placeholders_concat(tj, cj);
}

/// The columns of an archive row, in the order rows are read.
pub open spec fn archive_columns() -> Seq<char> {
    "a.id, a.title, a.path, a.archive_type, a.page_count, a.cover_image, a.file_size, a.thumbnail_path, a.group_id, a.created_at, a.updated_at"@
}

/// The reading-state filter: `read` keeps archives with a reading record,
/// `unread` those without; anything else keeps all.
pub open spec fn read_clause(read: Option<Seq<char>>) -> Seq<char> {
    match read {
        Some(r) => if r == "read"@ {
            " AND EXISTS (SELECT 1 FROM history hf WHERE hf.archive_id = a.id)"@
        } else if r == "unread"@ {
            " AND NOT EXISTS (SELECT 1 FROM history hf WHERE hf.archive_id = a.id)"@
        } else {
            Seq::<char>::empty()
        },
        None => Seq::<char>::empty(),
    }
}

/// The sort direction: ascending for `asc`, descending otherwise.
pub open spec fn direction(order: Seq<char>) -> Seq<char> {
    if order == "asc"@ {
        "ASC"@
    } else {
        "DESC"@
    }
}

/// The query of the whole filtered library: the archive columns from the
/// filters' joins and conditions, the reading-state filter, sorted by the
/// sort key in the given direction.
pub open spec fn list_sql(join: Seq<char>, where_: Seq<char>, read: Option<Seq<char>>, sort: Seq<char>, order: Seq<char>) -> Seq<char> {
    "SELECT "@ + archive_columns() + " FROM archives a "@ + join + " "@ + where_ + read_clause(read) + " ORDER BY "@
        + order_expr(sort) + " "@ + direction(order)
}

/// The reading-state filter only narrows the unfiltered query: `unread`
/// inserts, right after the filters' joins and conditions, the clause that
/// drops every archive with a reading record; `read` inserts the clause
/// that keeps only those; any other value (or none) leaves the query as it
/// is. The sort key and direction close the query, ascending exactly for
/// `asc`.
pub proof fn law_read_filter_and_order(join: Seq<char>, where_: Seq<char>, read: Option<Seq<char>>, sort: Seq<char>, order: Seq<char>)
    ensures
        exists|head: Seq<char>, tail: Seq<char>|
            #![trigger head + tail]
            list_sql(join, where_, None, sort, order) == head + tail
            && list_sql(join, where_, Some("unread"@), sort, order) == head
                + " AND NOT EXISTS (SELECT 1 FROM history hf WHERE hf.archive_id = a.id)"@ + tail
            && list_sql(join, where_, Some("read"@), sort, order) == head
                + " AND EXISTS (SELECT 1 FROM history hf WHERE hf.archive_id = a.id)"@ + tail
            && head == "SELECT "@ + archive_columns() + " FROM archives a "@ + join + " "@ + where_
            && tail == " ORDER BY "@ + order_expr(sort) + " "@ + (if order == "asc"@ { "ASC"@ } else { "DESC"@ }),
        read != Some("read"@) && read != Some("unread"@) ==> list_sql(join, where_, read, sort, order) == list_sql(
            join,
            where_,
            None,
            sort,
            order,
        ),
{
    reveal_strlit("read");
    reveal_strlit("unread");
    assert("read"@.len() != "unread"@.len());
    let head = "SELECT "@ + archive_columns() + " FROM archives a "@ + join + " "@ + where_;
    let tail = " ORDER BY "@ + order_expr(sort) + " "@ + direction(order);
    let ne = " AND NOT EXISTS (SELECT 1 FROM history hf WHERE hf.archive_id = a.id)"@;
    let ex = " AND EXISTS (SELECT 1 FROM history hf WHERE hf.archive_id = a.id)"@;
    assert(list_sql(join, where_, None, sort, order) =~= head + tail);
    assert(list_sql(join, where_, Some("unread"@), sort, order) =~= head + ne + tail);
    assert(list_sql(join, where_, Some("read"@), sort, order) =~= head + ex + tail);
}

/// The query of the whole filtered library (see [`list_sql`]); the
/// filters' parameters bind it.
pub fn list_archives_sql(filters: &ArchiveFilters, read: Option<&str>, sort: &str, order: &str) -> (r: String)
    ensures
        r@ == list_sql(filters.join_clause@, filters.where_clause@, opt_text(read), sort@, order@),
{
    let mut q = String::from_str("SELECT ");
    push_str(&mut q, "a.id, a.title, a.path, a.archive_type, a.page_count, a.cover_image, a.file_size, a.thumbnail_path, a.group_id, a.created_at, a.updated_at");
    push_str(&mut q, " FROM archives a ");
    push_str(&mut q, filters.join_clause.as_str());
    push_str(&mut q, " ");
    push_str(&mut q, filters.where_clause.as_str());
    match read {
        Some(r) => {
            let rv = chars_of(r);
            if is_word(rv.as_slice(), "read") {
                push_str(&mut q, " AND EXISTS (SELECT 1 FROM history hf WHERE hf.archive_id = a.id)");
            } else if is_word(rv.as_slice(), "unread") {
                push_str(&mut q, " AND NOT EXISTS (SELECT 1 FROM history hf WHERE hf.archive_id = a.id)");
            }
        },
        None => {},
    }
    push_str(&mut q, " ORDER BY ");
    push_str(&mut q, order_expr_for(sort));
    push_str(&mut q, " ");
    let ov = chars_of(order);
    if is_word(ov.as_slice(), "asc") {
        push_str(&mut q, "ASC");
    } else {
        push_str(&mut q, "DESC");
    }
    q
}

} // verus!

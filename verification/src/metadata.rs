//! Metadata lookups in a public catalogue (Bangumi): the search term as it
//! goes into the request path, and the candidates read from the answer.

use vstd::prelude::*;
use vstd::utf8::encode_utf8;
use crate::json::{
    array_member, as_items, as_text, get_member, json_of_text, member, model, number_model, parse_json, str_member,
    JsonModel, JsonNumber, JsonValue, NumberModel,
};
use crate::text::{chars_of, push_char, string_from_chars, trim_chars, trim_ws};

verus! {

/// Bytes that stand for themselves in a URL path segment: ASCII letters,
/// digits and `-`, `_`, `.`, `~`.
pub open spec fn unreserved(b: u8) -> bool {
    (97 <= b <= 122) || (65 <= b <= 90) || (48 <= b <= 57) || b == 45 || b == 95 || b == 46
        || b == 126
}

/// The upper-case hexadecimal digit of a value below 16.
pub open spec fn hex_digit(d: int) -> char {
    if d < 10 {
        (48 + d) as char
    } else {
        (55 + d) as char
    }
}

/// The encoding of one byte: itself when unreserved, else `%` and two
/// upper-case hexadecimal digits.
pub open spec fn encode_byte(b: u8) -> Seq<char> {
    if unreserved(b) {
        seq![b as char]
    } else {
        seq!['%', hex_digit(b as int / 16), hex_digit(b as int % 16)]
    }
}

/// The percent-encoding of a byte sequence, byte by byte.
pub open spec fn percent_encoded(bytes: Seq<u8>) -> Seq<char>
    decreases bytes.len(),
{
    if bytes.len() == 0 {
        Seq::<char>::empty()
    } else {
        percent_encoded(bytes.drop_last()) + encode_byte(bytes.last())
    }
}

fn hex_digit_exec(d: u8) -> (r: char)
    requires
        d < 16,
    ensures
        r == hex_digit(d as int),
{
    if d < 10 {
        char_from_digit(48 + d)
    } else {
        char_from_digit(55 + d)
    }
}

fn char_from_digit(b: u8) -> (r: char)
    requires
        b < 128,
    ensures
        r == b as char,
{
    b as char
}

/// Percent-encodes the UTF-8 bytes of `input` for use as a URL path
/// segment: unreserved bytes are kept, every other byte becomes `%XX`.
pub fn percent_encode(input: &str) -> (r: String)
    ensures
        r@ == percent_encoded(encode_utf8(input@)),
{
    let bytes: &[u8] = input.as_bytes();
    let mut out = String::new();
    let mut i: usize = 0;
    assert(bytes@.take(0) =~= Seq::<u8>::empty());
    while i < bytes.len()
        invariant
            i <= bytes@.len(),
            bytes@ == encode_utf8(input@),
            out@ == percent_encoded(bytes@.take(i as int)),
        decreases bytes.len() - i,
    {
        let b = bytes[i];
        let ghost before = out@;
        assert(bytes@.take(i as int + 1).drop_last() =~= bytes@.take(i as int));
        if (b >= 97 && b <= 122) || (b >= 65 && b <= 90) || (b >= 48 && b <= 57) || b == 45 || b
            == 95 || b == 46 || b == 126 {
            push_char(&mut out, char_from_digit(b));
        } else {
            push_char(&mut out, '%');
            push_char(&mut out, hex_digit_exec(b / 16));
            push_char(&mut out, hex_digit_exec(b % 16));
        }
        assert(out@ =~= before + encode_byte(b));
        i = i + 1;
    }
    assert(bytes@.take(bytes@.len() as int) =~= bytes@);
    out
}

/// A character that may appear in a percent-encoded segment.
pub open spec fn url_safe_char(c: char) -> bool {
    ('a' <= c <= 'z') || ('A' <= c <= 'Z') || ('0' <= c <= '9') || c == '-' || c == '_' || c
        == '.' || c == '~' || c == '%'
}

/// Every character of a percent-encoded segment is unreserved, `%`, or an
/// upper-case hexadecimal digit, so the segment needs no further escaping.
pub proof fn law_percent_encoding_is_url_safe(bytes: Seq<u8>)
    ensures
        forall|i: int|
            0 <= i < percent_encoded(bytes).len() ==> url_safe_char(
                #[trigger] percent_encoded(bytes)[i],
            ),
    decreases bytes.len(),
{
    if bytes.len() > 0 {
        law_percent_encoding_is_url_safe(bytes.drop_last());
        let p = percent_encoded(bytes.drop_last());
        let e = encode_byte(bytes.last());
        let b = bytes.last();
        assert forall|i: int| 0 <= i < e.len() implies url_safe_char(#[trigger] e[i]) by {
            if !unreserved(b) {
                assert(0 <= b as int / 16 < 16);
                assert(0 <= b as int % 16 < 16);
            }
        }
        assert forall|i: int| 0 <= i < (p + e).len() implies url_safe_char(#[trigger] (p + e)[i]) by {
            if i < p.len() {
                assert((p + e)[i] == p[i]);
            } else {
                assert((p + e)[i] == e[i - p.len()]);
            }
        }
    }
}

/// The search term of a metadata query: the query with surrounding white
/// space removed; `None` when nothing is left.
pub fn search_term(q: &str) -> (r: Option<String>)
    ensures
        r matches Some(t) ==> t@ == trim_ws(q@) && t@.len() > 0,
        r is None <==> trim_ws(q@).len() == 0,
{
    let v = chars_of(q);
    let t = trim_chars(v.as_slice());
    if t.len() == 0 {
        None
    } else {
        Some(string_from_chars(t.as_slice()))
    }
}


// ---------------------------------------------------------------------------
// Search results
// ---------------------------------------------------------------------------

/// One match of a catalogue search.
pub struct BangumiCandidate {
    pub title: String,
    pub cover: Option<String>,
    /// The rating, as the number the catalogue sent.
    pub score: Option<JsonNumber>,
    pub source_id: String,
    pub tags: Vec<String>,
}

/// The mathematical form of a candidate.
pub struct CandidateModel {
    pub title: Seq<char>,
    pub cover: Option<Seq<char>>,
    pub score: Option<NumberModel>,
    pub source_id: Seq<char>,
    pub tags: Seq<Seq<char>>,
}

/// The mathematical form of a candidate.
pub open spec fn candidate_view(c: BangumiCandidate) -> CandidateModel {
    CandidateModel {
        title: c.title@,
        cover: match c.cover {
            Some(t) => Some(t@),
            None => None,
        },
        score: match c.score {
            Some(n) => Some(number_model(n)),
            None => None,
        },
        source_id: c.source_id@,
        tags: c.tags@.map_values(|t: String| t@),
    }
}

/// The text of member `key` of a value, when it is a string.
pub open spec fn text_member(m: JsonModel, key: Seq<char>) -> Option<Seq<char>> {
    as_text(member(m, key))
}

/// The names of the tags: the `name` text of each item that has one, in order.
pub open spec fn tag_names(xs: Seq<JsonModel>) -> Seq<Seq<char>>
    decreases xs.len(),
{
    if xs.len() == 0 {
        Seq::<Seq<char>>::empty()
    } else {
        let p = tag_names(xs.drop_last());
        match text_member(xs.last(), "name"@) {
            Some(n) => p.push(n),
            None => p,
        }
    }
}

/// At most the first five of a list.
pub open spec fn first_five(s: Seq<Seq<char>>) -> Seq<Seq<char>> {
    if s.len() <= 5 {
        s
    } else {
        s.take(5)
    }
}

/// The candidate an item of the answer's `list` gives: none without a
/// string `id`; the title is `name_cn` when not empty, else `name`, and an
/// item whose title is empty gives none; the cover is the `large` image,
/// else the `medium` one; the score is the number at `rating.score`; the
/// tags are the first five tag names.
pub open spec fn candidate_of(item: JsonModel) -> Option<CandidateModel> {
    match text_member(item, "id"@) {
        None => None,
        Some(id) => {
            let name = match text_member(item, "name"@) {
                Some(t) => t,
                None => Seq::<char>::empty(),
            };
            let name_cn = match text_member(item, "name_cn"@) {
                Some(t) => t,
                None => Seq::<char>::empty(),
            };
            let title = if name_cn.len() > 0 {
                name_cn
            } else {
                name
            };
            if title.len() == 0 {
                None
            } else {
                let cover = match member(item, "images"@) {
                    Some(im) => match text_member(im, "large"@) {
                        Some(l) => Some(l),
                        None => text_member(im, "medium"@),
                    },
                    None => None,
                };
                let score = match member(item, "rating"@) {
                    Some(r) => match member(r, "score"@) {
                        Some(JsonModel::Number(n)) => Some(n),
                        _ => None,
                    },
                    None => None,
                };
                let tags = match as_items(member(item, "tags"@)) {
                    Some(xs) => first_five(tag_names(xs)),
                    None => Seq::<Seq<char>>::empty(),
                };
                Some(CandidateModel { title, cover, score, source_id: id, tags })
            }
        },
    }
}

/// The candidates of the items, in order, items that give none left out.
pub open spec fn candidates_of(xs: Seq<JsonModel>) -> Seq<CandidateModel>
    decreases xs.len(),
{
    if xs.len() == 0 {
        Seq::<CandidateModel>::empty()
    } else {
        let p = candidates_of(xs.drop_last());
        match candidate_of(xs.last()) {
            Some(c) => p.push(c),
            None => p,
        }
    }
}

/// The candidates of a search answer: those of the items of its `list`
/// array; none when there is no such array.
pub open spec fn bangumi_candidates_of(root: JsonModel) -> Seq<CandidateModel> {
    match as_items(member(root, "list"@)) {
        Some(xs) => candidates_of(xs),
        None => Seq::<CandidateModel>::empty(),
    }
}

/// The models of a vector of values.
pub open spec fn item_models(items: Seq<JsonValue>) -> Seq<JsonModel> {
    Seq::new(items.len(), |i: int| model(items[i]))
}

fn copy_number(n: &JsonNumber) -> (r: JsonNumber)
    ensures
        number_model(r) == number_model(*n),
{
    match n {
        JsonNumber::PosInt(u) => JsonNumber::PosInt(*u),
        JsonNumber::NegInt(i) => JsonNumber::NegInt(*i),
        JsonNumber::Float(t) => JsonNumber::Float(t.clone()),
    }
}

/// The first five tag names of a list of tag items (see [`tag_names`]).
fn tag_list(items: &Vec<JsonValue>) -> (r: Vec<String>)
    ensures
        r@.map_values(|t: String| t@) == first_five(tag_names(item_models(items@))),
{
    let ghost ms = item_models(items@);
    let mut out: Vec<String> = Vec::new();
    let mut i: usize = 0;
    while i < items.len()
        invariant
            i <= items@.len(),
            ms == item_models(items@),
            out@.map_values(|t: String| t@) == tag_names(ms.take(i as int)),
        decreases items.len() - i,
    {
        assert(ms.take(i as int + 1).drop_last() =~= ms.take(i as int));
        assert(ms.take(i as int + 1).last() == model(items@[i as int]));
        let ghost before = out@.map_values(|t: String| t@);
        match str_member(&items[i], "name") {
            Some(n) => {
                out.push(n);
                assert(out@.map_values(|t: String| t@) =~= before.push(out@.last()@));
            },
            None => {},
        }
        i = i + 1;
    }
    assert(ms.take(items@.len() as int) =~= ms);
    if out.len() > 5 {
        out.truncate(5);
        assert(out@.map_values(|t: String| t@) =~= tag_names(ms).take(5));
    }
    out
}

/// The candidate one item gives (see [`candidate_of`]).
fn candidate(item: &JsonValue) -> (r: Option<BangumiCandidate>)
    ensures
        match r {
            Some(c) => candidate_of(model(*item)) == Some(candidate_view(c)),
            None => candidate_of(model(*item)) is None,
        },
{
    let id = match str_member(item, "id") {
        Some(t) => t,
        None => return None,
    };
    let name = match str_member(item, "name") {
        Some(t) => t,
        None => String::new(),
    };
    let name_cn = match str_member(item, "name_cn") {
        Some(t) => t,
        None => String::new(),
    };
    let title = if !name_cn.as_str().is_empty() {
        name_cn
    } else {
        name
    };
    if title.as_str().is_empty() {
        return None;
    }
    let cover = match get_member(item, "images") {
        Some(im) => match str_member(im, "large") {
            Some(l) => Some(l),
            None => str_member(im, "medium"),
        },
        None => None,
    };
    let score = match get_member(item, "rating") {
        Some(rating) => match get_member(rating, "score") {
            Some(JsonValue::Number(n)) => Some(copy_number(n)),
            _ => None,
        },
        None => None,
    };
    let tags = match array_member(item, "tags") {
        Some(xs) => {
            assert(item_models(xs@) =~= Seq::new(xs@.len(), |i: int| model(xs@[i])));
            tag_list(xs)
        },
        None => Vec::new(),
    };
    let c = BangumiCandidate { title, cover, score, source_id: id, tags };
    assert(candidate_view(c).tags =~= match as_items(member(model(*item), "tags"@)) {
        Some(xs) => first_five(tag_names(xs)),
        None => Seq::<Seq<char>>::empty(),
    });
    Some(c)
}

/// The candidates of a search answer, in order (see
/// [`bangumi_candidates_of`]).
pub fn bangumi_candidates(root: &JsonValue) -> (r: Vec<BangumiCandidate>)
    ensures
        r@.map_values(|c: BangumiCandidate| candidate_view(c)) == bangumi_candidates_of(model(*root)),
{
    let mut out: Vec<BangumiCandidate> = Vec::new();
    match array_member(root, "list") {
        Some(items) => {
            let ghost ms = item_models(items@);
            assert(ms =~= Seq::new(items@.len(), |i: int| model(items@[i])));
            let mut i: usize = 0;
            while i < items.len()
                invariant
                    i <= items@.len(),
                    ms == item_models(items@),
                    out@.map_values(|c: BangumiCandidate| candidate_view(c)) == candidates_of(ms.take(i as int)),
                decreases items.len() - i,
            {
                assert(ms.take(i as int + 1).drop_last() =~= ms.take(i as int));
                assert(ms.take(i as int + 1).last() == model(items@[i as int]));
                let ghost before = out@.map_values(|c: BangumiCandidate| candidate_view(c));
                match candidate(&items[i]) {
                    Some(c) => {
                        out.push(c);
                        assert(out@.map_values(|c: BangumiCandidate| candidate_view(c)) =~= before.push(
                            candidate_view(out@.last()),
                        ));
                    },
                    None => {},
                }
                i = i + 1;
            }
            assert(ms.take(items@.len() as int) =~= ms);
        },
        None => {},
    }
    out
}


/// The candidates of a search answer's text (see [`bangumi_candidates_of`]):
/// none when the text is not JSON.
pub fn parse_bangumi_search(body: &str) -> (r: Vec<BangumiCandidate>)
    ensures
        r@.map_values(|c: BangumiCandidate| candidate_view(c)) == match json_of_text(body@) {
            Some(root) => bangumi_candidates_of(root),
            None => Seq::<CandidateModel>::empty(),
        },
{
    match parse_json(body) {
        Some(root) => bangumi_candidates(&root),
        None => {
            let r: Vec<BangumiCandidate> = Vec::new();
            assert(r@.map_values(|c: BangumiCandidate| candidate_view(c)) =~= Seq::<CandidateModel>::empty());
            r
        },
    }
}

} // verus!

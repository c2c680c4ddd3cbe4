//! OPDS catalogue feeds (Atom XML for e-book readers): escaping, the feed
//! and entry templates, and the rewriting of links that carries the access
//! token.

use vstd::prelude::*;
use crate::http::{mime_type_of, page_content_type};
use crate::models::{ArchiveRow, CategoryRow, HistoryRow, TagRow, PageRow};
use crate::paths::{file_name, file_name_chars};
use crate::text::{
    chars_of, dec, dec_int, find_char, find_from, find_sub, first_index_of, lemma_find_from,
    lemma_first_index_of, push_char, push_chars, push_i64, push_str, push_u64, slice_chars,
    string_from_chars,
};

verus! {

// ---------------------------------------------------------------------------
// Escaping
// ---------------------------------------------------------------------------

/// The XML escape of one character: `&`, `<`, `>`, `"` and `'` become
/// entities, every other character stands for itself.
pub open spec fn escape_char(c: char) -> Seq<char> {
    if c == '&' {
        "&amp;"@
    } else if c == '<' {
        "&lt;"@
    } else if c == '>' {
        "&gt;"@
    } else if c == '"' {
        "&quot;"@
    } else if c == '\'' {
        "&apos;"@
    } else {
        seq![c]
    }
}

/// The XML escape of a text, character by character.
pub open spec fn escaped(s: Seq<char>) -> Seq<char>
    decreases s.len(),
{
    if s.len() == 0 {
        Seq::<char>::empty()
    } else {
        escaped(s.drop_last()) + escape_char(s.last())
    }
}

/// Escapes a text for XML content and attribute values.
pub fn xml_escape(s: &str) -> (r: String)
    ensures
        r@ == escaped(s@),
{
    let v = chars_of(s);
    let mut r = String::new();
    let mut i: usize = 0;
    assert(v@.take(0) =~= Seq::<char>::empty());
    while i < v.len()
        invariant
            i <= v@.len(),
            r@ == escaped(v@.take(i as int)),
        decreases v.len() - i,
    {
        let c = v[i];
        let ghost before = r@;
        assert(v@.take(i as int + 1).drop_last() =~= v@.take(i as int));
        if c == '&' {
            push_str(&mut r, "&amp;");
        } else if c == '<' {
            push_str(&mut r, "&lt;");
        } else if c == '>' {
            push_str(&mut r, "&gt;");
        } else if c == '"' {
            push_str(&mut r, "&quot;");
        } else if c == '\'' {
            push_str(&mut r, "&apos;");
        } else {
            push_char(&mut r, c);
        }
        assert(r@ =~= before + escape_char(c));
        i = i + 1;
    }
    assert(v@.take(v@.len() as int) =~= v@);
    r
}

/// A character that may not appear unescaped in XML text or attributes.
pub open spec fn markup_char(c: char) -> bool {
    c == '<' || c == '>' || c == '"' || c == '\''
}

/// An escaped text holds no `<`, `>`, `"` or `'`, so it can stand in any
/// element or attribute without changing the document's structure.
pub proof fn law_escaped_has_no_markup(s: Seq<char>)
    ensures
        forall|i: int| 0 <= i < escaped(s).len() ==> !markup_char(#[trigger] escaped(s)[i]),
    decreases s.len(),
{
    if s.len() > 0 {
        law_escaped_has_no_markup(s.drop_last());
        let p = escaped(s.drop_last());
        let e = escape_char(s.last());
        reveal_strlit("&amp;");
        reveal_strlit("&lt;");
        reveal_strlit("&gt;");
        reveal_strlit("&quot;");
        reveal_strlit("&apos;");
        assert forall|i: int| 0 <= i < (p + e).len() implies !markup_char(#[trigger] (p + e)[i]) by {
            if i < p.len() {
                assert((p + e)[i] == p[i]);
            } else {
                assert((p + e)[i] == e[i - p.len()]);
            }
        }
    }
}

// ---------------------------------------------------------------------------
// Templates
// ---------------------------------------------------------------------------

/// The optional `<content>` part of an entry: the escaped text, if any.
pub open spec fn content_part(content: Option<Seq<char>>) -> Seq<char> {
    match content {
        Some(c) => "\n    <content type=\"text\">"@ + escaped(c) + "</content>"@,
        None => Seq::<char>::empty(),
    }
}

fn push_content(r: &mut String, content: Option<&str>)
    ensures
        final(r)@ == old(r)@ + content_part(match content {
            Some(c) => Some(c@),
            None => None,
        }),
{
    match content {
        Some(c) => {
            push_str(r, "\n    <content type=\"text\">");
            let e = xml_escape(c);
            push_str(r, e.as_str());
            push_str(r, "</content>");
        },
        None => {},
    }
    assert(r@ =~= old(r)@ + content_part(match content {
        Some(c) => Some(c@),
        None => None,
    }));
}

/// The text of an OPDS entry: escaped title, one link, id, update time and optional content.
pub open spec fn entry_xml(title: Seq<char>, link_rel: Seq<char>, link_href: Seq<char>, link_type: Seq<char>, entry_id: Seq<char>, updated: Seq<char>, content: Option<Seq<char>>) -> Seq<char> {
    "\n  <entry>\n    <title>"@
        + escaped(title)
        + "</title>\n    <link rel=\""@
        + link_rel
        + "\" href=\""@
        + link_href
        + "\" type=\""@
        + link_type
        + "\"/>\n    <id>"@
        + entry_id
        + "</id>\n    <updated>"@
        + updated
        + "</updated>"@
        + content_part(content)
        + "\n  </entry>"@
}

/// Builds an OPDS entry: escaped title, one link, id, update time and optional content (see [`entry_xml`]).
pub fn opds_entry(title: &str, link_rel: &str, link_href: &str, link_type: &str, entry_id: &str, updated: &str, content: Option<&str>) -> (r: String)
    ensures
        r@ == entry_xml(title@, link_rel@, link_href@, link_type@, entry_id@, updated@, match content { Some(c) => Some(c@), None => None }),
{
    let mut r = String::new();
    push_str(&mut r, "\n  <entry>\n    <title>");
    let t = xml_escape(title);
    push_str(&mut r, t.as_str());
    push_str(&mut r, "</title>\n    <link rel=\"");
    push_str(&mut r, link_rel);
    push_str(&mut r, "\" href=\"");
    push_str(&mut r, link_href);
    push_str(&mut r, "\" type=\"");
    push_str(&mut r, link_type);
    push_str(&mut r, "\"/>\n    <id>");
    push_str(&mut r, entry_id);
    push_str(&mut r, "</id>\n    <updated>");
    push_str(&mut r, updated);
    push_str(&mut r, "</updated>");
    push_content(&mut r, content);
    push_str(&mut r, "\n  </entry>");
    assert(r@ =~= entry_xml(title@, link_rel@, link_href@, link_type@, entry_id@, updated@, match content { Some(c) => Some(c@), None => None }));
    r
}

/// The text of a catalogue feed: id, title, update time, links to itself and to the start, then its entries.
pub open spec fn feed_xml(id: Seq<char>, title: Seq<char>, self_href: Seq<char>, entries: Seq<char>, now: Seq<char>) -> Seq<char> {
    "<?xml version=\"1.0\" encoding=\"UTF-8\"?>\n<feed xmlns=\"http://www.w3.org/2005/Atom\" xmlns:opds=\"http://opds-spec.org/2010/catalog\">\n  <id>"@
        + id
        + "</id>\n  <title>"@
        + title
        + "</title>\n  <updated>"@
        + now
        + "</updated>\n  <link rel=\"self\" href=\""@
        + self_href
        + "\" type=\"application/atom+xml\"/>\n  <link rel=\"start\" href=\"/opds\" type=\"application/atom+xml\"/>\n  "@
        + entries
        + "\n</feed>"@
}

/// Builds a catalogue feed: id, title, update time, links to itself and to the start, then its entries (see [`feed_xml`]).
pub fn opds_feed(id: &str, title: &str, self_href: &str, entries: &str, now: &str) -> (r: String)
    ensures
        r@ == feed_xml(id@, title@, self_href@, entries@, now@),
{
    let mut r = String::new();
    push_str(&mut r, "<?xml version=\"1.0\" encoding=\"UTF-8\"?>\n<feed xmlns=\"http://www.w3.org/2005/Atom\" xmlns:opds=\"http://opds-spec.org/2010/catalog\">\n  <id>");
    push_str(&mut r, id);
    push_str(&mut r, "</id>\n  <title>");
    push_str(&mut r, title);
    push_str(&mut r, "</title>\n  <updated>");
    push_str(&mut r, now);
    push_str(&mut r, "</updated>\n  <link rel=\"self\" href=\"");
    push_str(&mut r, self_href);
    push_str(&mut r, "\" type=\"application/atom+xml\"/>\n  <link rel=\"start\" href=\"/opds\" type=\"application/atom+xml\"/>\n  ");
    push_str(&mut r, entries);
    push_str(&mut r, "\n</feed>");
    assert(r@ =~= feed_xml(id@, title@, self_href@, entries@, now@));
    r
}

/// The text of the feed that reports an error, the message escaped.
pub open spec fn error_xml(message: Seq<char>, now: Seq<char>) -> Seq<char> {
    "<?xml version=\"1.0\" encoding=\"UTF-8\"?>\n<feed xmlns=\"http://www.w3.org/2005/Atom\">\n  <title>Error</title>\n  <id>manhuaviewer-error</id>\n  <updated>"@
        + now
        + "</updated>\n  <entry>\n    <title>"@
        + escaped(message)
        + "</title>\n    <content type=\"text\">"@
        + escaped(message)
        + "</content>\n  </entry>\n</feed>"@
}

/// Builds the feed that reports an error, the message escaped (see [`error_xml`]).
pub fn opds_error_xml(message: &str, now: &str) -> (r: String)
    ensures
        r@ == error_xml(message@, now@),
{
    let e = xml_escape(message);
    let mut r = String::new();
    push_str(&mut r, "<?xml version=\"1.0\" encoding=\"UTF-8\"?>\n<feed xmlns=\"http://www.w3.org/2005/Atom\">\n  <title>Error</title>\n  <id>manhuaviewer-error</id>\n  <updated>");
    push_str(&mut r, now);
    push_str(&mut r, "</updated>\n  <entry>\n    <title>");
    push_str(&mut r, e.as_str());
    push_str(&mut r, "</title>\n    <content type=\"text\">");
    push_str(&mut r, e.as_str());
    push_str(&mut r, "</content>\n  </entry>\n</feed>");
    assert(r@ =~= error_xml(message@, now@));
    r
}

/// The text of the root catalogue: links to all archives, recent reading, tags and categories.
pub open spec fn root_xml(now: Seq<char>) -> Seq<char> {
    "<?xml version=\"1.0\" encoding=\"UTF-8\"?>\n<feed xmlns=\"http://www.w3.org/2005/Atom\" xmlns:opds=\"http://opds-spec.org/2010/catalog\">\n  <id>manhuaviewer</id>\n  <title>MangaViewer OPDS</title>\n  <updated>"@
        + now
        + "</updated>\n  <link rel=\"self\" href=\"/opds\" type=\"application/atom+xml\"/>\n  <link rel=\"start\" href=\"/opds\" type=\"application/atom+xml\"/>\n  <entry>\n    <title>All Archives</title>\n    <link rel=\"http://opds-spec.org/featured\" href=\"/opds/catalog\" type=\"application/atom+xml\"/>\n    <id>manhuaviewer-catalog</id>\n    <updated>"@
        + now
        + "</updated>\n  </entry>\n  <entry>\n    <title>Recent Reading</title>\n    <link rel=\"http://opds-spec.org/recent\" href=\"/opds/recent\" type=\"application/atom+xml\"/>\n    <id>manhuaviewer-recent</id>\n    <updated>"@
        + now
        + "</updated>\n  </entry>\n  <entry>\n    <title>Tags</title>\n    <link rel=\"subsection\" href=\"/opds/tags\" type=\"application/atom+xml\"/>\n    <id>manhuaviewer-tags</id>\n    <updated>"@
        + now
        + "</updated>\n  </entry>\n  <entry>\n    <title>Categories</title>\n    <link rel=\"subsection\" href=\"/opds/categories\" type=\"application/atom+xml\"/>\n    <id>manhuaviewer-categories</id>\n    <updated>"@
        + now
        + "</updated>\n  </entry>\n</feed>"@
}

/// Builds the root catalogue: links to all archives, recent reading, tags and categories (see [`root_xml`]).
pub fn root_catalog_xml(now: &str) -> (r: String)
    ensures
        r@ == root_xml(now@),
{
    let mut r = String::new();
    push_str(&mut r, "<?xml version=\"1.0\" encoding=\"UTF-8\"?>\n<feed xmlns=\"http://www.w3.org/2005/Atom\" xmlns:opds=\"http://opds-spec.org/2010/catalog\">\n  <id>manhuaviewer</id>\n  <title>MangaViewer OPDS</title>\n  <updated>");
    push_str(&mut r, now);
    push_str(&mut r, "</updated>\n  <link rel=\"self\" href=\"/opds\" type=\"application/atom+xml\"/>\n  <link rel=\"start\" href=\"/opds\" type=\"application/atom+xml\"/>\n  <entry>\n    <title>All Archives</title>\n    <link rel=\"http://opds-spec.org/featured\" href=\"/opds/catalog\" type=\"application/atom+xml\"/>\n    <id>manhuaviewer-catalog</id>\n    <updated>");
    push_str(&mut r, now);
    push_str(&mut r, "</updated>\n  </entry>\n  <entry>\n    <title>Recent Reading</title>\n    <link rel=\"http://opds-spec.org/recent\" href=\"/opds/recent\" type=\"application/atom+xml\"/>\n    <id>manhuaviewer-recent</id>\n    <updated>");
    push_str(&mut r, now);
    push_str(&mut r, "</updated>\n  </entry>\n  <entry>\n    <title>Tags</title>\n    <link rel=\"subsection\" href=\"/opds/tags\" type=\"application/atom+xml\"/>\n    <id>manhuaviewer-tags</id>\n    <updated>");
    push_str(&mut r, now);
    push_str(&mut r, "</updated>\n  </entry>\n  <entry>\n    <title>Categories</title>\n    <link rel=\"subsection\" href=\"/opds/categories\" type=\"application/atom+xml\"/>\n    <id>manhuaviewer-categories</id>\n    <updated>");
    push_str(&mut r, now);
    push_str(&mut r, "</updated>\n  </entry>\n</feed>");
    assert(r@ =~= root_xml(now@));
    r
}


/// `prefix`, the decimal id, `suffix`: the ids and links of feeds and
/// entries (`/opds/archive/7`, `manhuaviewer-tag-3-archives`, ...).
pub open spec fn id_text(prefix: Seq<char>, id: i64, suffix: Seq<char>) -> Seq<char> {
    prefix + dec_int(id as int) + suffix
}

/// Builds an id or link from a prefix, an id and a suffix (see [`id_text`]).
pub fn id_string(prefix: &str, id: i64, suffix: &str) -> (r: String)
    ensures
        r@ == id_text(prefix@, id, suffix@),
{
    let mut r = String::from_str(prefix);
    push_i64(&mut r, id);
    push_str(&mut r, suffix);
    r
}

/// An acquisition entry: it links to the archive's page feed and describes
/// the archive with `content`.
pub fn archive_entry(title: &str, archive_id: i64, updated: &str, content: &str) -> (r: String)
    ensures
        r@ == entry_xml(
            title@,
            "http://opds-spec.org/acquisition"@,
            id_text("/opds/archive/"@, archive_id, ""@),
            "application/atom+xml"@,
            id_text("manhuaviewer-archive-"@, archive_id, ""@),
            updated@,
            Some(content@),
        ),
{
    let href = id_string("/opds/archive/", archive_id, "");
    let id = id_string("manhuaviewer-archive-", archive_id, "");
    opds_entry(
        title,
        "http://opds-spec.org/acquisition",
        href.as_str(),
        "application/atom+xml",
        id.as_str(),
        updated,
        Some(content),
    )
}

/// A subsection entry: it links to a tag's or category's feed.
pub fn subsection_entry(title: &str, entry_id: &str, link_href: &str, updated: &str) -> (r: String)
    ensures
        r@ == entry_xml(
            title@,
            "subsection"@,
            link_href@,
            "application/atom+xml"@,
            entry_id@,
            updated@,
            None,
        ),
{
    opds_entry(title, "subsection", link_href, "application/atom+xml", entry_id, updated, None)
}

/// An image entry: one page of an archive, linked by its page URL and typed
/// by its MIME type.
pub fn image_entry(filename: &str, image_type: &str, archive_id: i64, page_index: u64, now: &str) -> (r: String)
    ensures
        r@ == entry_xml(
            filename@,
            "http://opds-spec.org/image"@,
            "/api/archives/"@ + dec_int(archive_id as int) + "/pages/"@ + dec(page_index as nat),
            image_type@,
            "manhuaviewer-page-"@ + dec_int(archive_id as int) + "-"@ + dec(page_index as nat),
            now@,
            None,
        ),
{
    let mut href = id_string("/api/archives/", archive_id, "/pages/");
    push_u64(&mut href, page_index);
    let mut id = id_string("manhuaviewer-page-", archive_id, "-");
    push_u64(&mut id, page_index);
    opds_entry(filename, "http://opds-spec.org/image", href.as_str(), image_type, id.as_str(), now, None)
}

/// The description of an archive in a listing: `<n> pages - <type>`.
pub fn pages_label(page_count: i64, archive_type: &str) -> (r: String)
    ensures
        r@ == dec_int(page_count as int) + " pages - "@ + archive_type@,
{
    let mut r = String::new();
    push_i64(&mut r, page_count);
    push_str(&mut r, " pages - ");
    push_str(&mut r, archive_type);
    r
}

/// The description of a reading position: `Page <index + 1> of <total>`.
pub fn reading_label(page_index: i64, total_pages: i64) -> (r: String)
    requires
        page_index < i64::MAX,
    ensures
        r@ == "Page "@ + dec_int(page_index + 1) + " of "@ + dec_int(total_pages as int),
{
    let mut r = String::from_str("Page ");
    push_i64(&mut r, page_index + 1);
    push_str(&mut r, " of ");
    push_i64(&mut r, total_pages);
    r
}

/// The title of an archive's page feed: `<title> (<n> pages)`.
pub fn pages_feed_title(title: &str, pages: u64) -> (r: String)
    ensures
        r@ == title@ + " ("@ + dec(pages as nat) + " pages)"@,
{
    let mut r = String::from_str(title);
    push_str(&mut r, " (");
    push_u64(&mut r, pages);
    push_str(&mut r, " pages)");
    r
}

/// How a tag is shown: `namespace:name`, or the name alone without namespace.
pub fn tag_display_name(namespace: &str, name: &str) -> (r: String)
    ensures
        namespace@.len() == 0 ==> r@ == name@,
        namespace@.len() > 0 ==> r@ == namespace@ + seq![':'] + name@,
{
    if namespace.is_empty() {
        String::from_str(name)
    } else {
        let mut r = String::from_str(namespace);
        push_char(&mut r, ':');
        push_str(&mut r, name);
        r
    }
}

/// The page of the catalogue to list: `limit` entries (20 unless given)
/// after skipping `(page - 1) * limit` (page 1 unless given). Gives
/// `(limit, offset)`.
pub fn catalog_window(page: Option<i64>, limit: Option<i64>) -> (r: (i64, i64))
    requires
        ({
            let p = match page {
                Some(p) => p as int,
                None => 1,
            };
            let l = match limit {
                Some(l) => l as int,
                None => 20,
            };
            i64::MIN <= (p - 1) * l <= i64::MAX && i64::MIN <= p - 1
        }),
    ensures
        ({
            let p = match page {
                Some(p) => p as int,
                None => 1,
            };
            let l = match limit {
                Some(l) => l as int,
                None => 20,
            };
            r.0 == l && r.1 == (p - 1) * l
        }),
{
    let p: i64 = match page {
        Some(p) => p,
        None => 1,
    };
    let l: i64 = match limit {
        Some(l) => l,
        None => 20,
    };
    (l, (p - 1) * l)
}

// ---------------------------------------------------------------------------
// Links carrying the token
// ---------------------------------------------------------------------------

/// The start of a link into this server: `href="/`.
pub open spec fn href_start() -> Seq<char> {
    seq!['h', 'r', 'e', 'f', '=', '"', '/']
}

/// The rewriting of a text's in-server links: every `href="/...` link gets
/// `qs` appended inside its quotes; a link whose quote never closes ends the
/// rewriting, the rest kept as it is.
pub open spec fn rewrite_links(rest: Seq<char>, qs: Seq<char>) -> Seq<char>
    decreases rest.len(),
{
    let pos = find_from(rest, href_start(), 0);
    if pos < 0 || pos + 7 > rest.len() {
        rest
    } else {
        let head = rest.take(pos + 7);
        let r2 = rest.skip(pos + 7);
        let end = first_index_of(r2, '"');
        if end < 0 || end >= r2.len() {
            head + r2
        } else {
            head + r2.take(end) + qs + seq!['"'] + rewrite_links(r2.skip(end + 1), qs)
        }
    }
}

/// Appends `?token=<token>` to every in-server link of an OPDS document so
/// that a reader following them stays authorised; with no token the
/// document is unchanged.
#[verifier::spinoff_prover]
pub fn append_token_to_links(xml: &str, token: &str) -> (r: String)
    ensures
        token@.len() == 0 ==> r@ == xml@,
        token@.len() > 0 ==> r@ == rewrite_links(xml@, "?token="@ + token@),
{
    if token.is_empty() {
        return String::from_str(xml);
    }
    let mut qs = String::from_str("?token=");
    push_str(&mut qs, token);
    let needle = ['h', 'r', 'e', 'f', '=', '"', '/'];
    assert(needle@ =~= href_start());
    let mut out = String::new();
    let mut rest = chars_of(xml);
    while rest.len() > 0
        invariant
            needle@ == href_start(),
            qs@ == "?token="@ + token@,
            out@ + rewrite_links(rest@, qs@) == rewrite_links(xml@, qs@),
        decreases rest.len(),
    {
        proof {
            lemma_find_from(rest@, needle@, 0);
        }
        match find_sub(rest.as_slice(), &needle) {
            None => {
                push_chars(&mut out, rest.as_slice());
                assert(rewrite_links(rest@, qs@) == rest@);
                rest = Vec::new();
                assert(rewrite_links(rest@, qs@) =~= Seq::<char>::empty());
                assert(out@ + rewrite_links(rest@, qs@) =~= rewrite_links(xml@, qs@));
            },
            Some(pos) => {
                assert(pos + 7 <= rest@.len());
                let head = slice_chars(rest.as_slice(), 0, pos + 7);
                let r2 = slice_chars(rest.as_slice(), pos + 7, rest.len());
                assert(head@ =~= rest@.take(pos + 7));
                assert(r2@ =~= rest@.skip(pos + 7));
                push_chars(&mut out, head.as_slice());
                proof {
                    lemma_first_index_of(r2@, '"');
                }
                match find_char(r2.as_slice(), '"') {
                    Some(end) => {
                        assert(end < r2@.len());
                        let inner = slice_chars(r2.as_slice(), 0, end);
                        assert(inner@ =~= r2@.take(end as int));
                        push_chars(&mut out, inner.as_slice());
                        push_str(&mut out, qs.as_str());
                        push_char(&mut out, '"');
                        let next = slice_chars(r2.as_slice(), end + 1, r2.len());
                        assert(next@ =~= r2@.skip(end + 1));
                        let ghost old_rest = rest@;
                        rest = next;
                        assert(rewrite_links(old_rest, qs@) == head@ + r2@.take(end as int) + qs@ + seq!['"']
                            + rewrite_links(rest@, qs@));
                    },
                    None => {
                        push_chars(&mut out, r2.as_slice());
                        assert(rewrite_links(rest@, qs@) == head@ + r2@);
                        rest = Vec::new();
                        assert(rewrite_links(rest@, qs@) =~= Seq::<char>::empty());
                    },
                }
            },
        }
    }
    assert(rewrite_links(rest@, qs@) =~= Seq::<char>::empty()) by {
        assert(rest@.len() == 0);
        assert(find_from(rest@, href_start(), 0) == -1);
    }
    assert(out@ =~= rewrite_links(xml@, qs@));
    out
}

// ---------------------------------------------------------------------------
// Whole feeds
// ---------------------------------------------------------------------------

/// Texts one after another.
pub open spec fn joined(parts: Seq<Seq<char>>) -> Seq<char>
    decreases parts.len(),
{
    if parts.len() == 0 {
        Seq::<char>::empty()
    } else {
        joined(parts.drop_last()) + parts.last()
    }
}

/// The listing entry of an archive: linked to its page feed, described by
/// its page count and type.
pub open spec fn archive_item(a: ArchiveRow) -> Seq<char> {
    entry_xml(
        a.title@,
        "http://opds-spec.org/acquisition"@,
        id_text("/opds/archive/"@, a.id, ""@),
        "application/atom+xml"@,
        id_text("manhuaviewer-archive-"@, a.id, ""@),
        a.updated_at@,
        Some(dec_int(a.page_count as int) + " pages - "@ + a.archive_type@),
    )
}

/// The listing entries of archives, in order.
pub open spec fn archive_items(archives: Seq<ArchiveRow>) -> Seq<char> {
    joined(archives.map_values(|a: ArchiveRow| archive_item(a)))
}

/// The listing entries of archives (see [`archive_items`]).
pub fn archive_entries(archives: &Vec<ArchiveRow>) -> (r: String)
    ensures
        r@ == archive_items(archives@),
{
    let mut r = String::new();
    let mut i: usize = 0;
    while i < archives.len()
        invariant
            i <= archives@.len(),
            r@ == archive_items(archives@.take(i as int)),
        decreases archives.len() - i,
    {
        let a = &archives[i];
        let label = pages_label(a.page_count, a.archive_type.as_str());
        let e = archive_entry(a.title.as_str(), a.id, a.updated_at.as_str(), label.as_str());
        let ghost before = r@;
        push_str(&mut r, e.as_str());
        proof {
            let s1 = archives@.take(i as int + 1).map_values(|a: ArchiveRow| archive_item(a));
            assert(s1.drop_last() =~= archives@.take(i as int).map_values(|a: ArchiveRow| archive_item(a)));
            assert(s1.last() == archive_item(archives@[i as int]));
        }
        i = i + 1;
    }
    assert(archives@.take(archives@.len() as int) =~= archives@);
    r
}

/// The feed of the whole catalogue page.
pub fn catalog_feed(archives: &Vec<ArchiveRow>, now: &str) -> (r: String)
    ensures
        r@ == feed_xml("manhuaviewer-catalog"@, "All Archives"@, "/opds/catalog"@, archive_items(archives@), now@),
{
    let entries = archive_entries(archives);
    opds_feed("manhuaviewer-catalog", "All Archives", "/opds/catalog", entries.as_str(), now)
}

/// The feed of the archives carrying a tag.
pub fn tag_archives_feed(tag_id: i64, tag_name: &str, archives: &Vec<ArchiveRow>, now: &str) -> (r: String)
    ensures
        r@ == feed_xml(
            id_text("manhuaviewer-tag-"@, tag_id, "-archives"@),
            "Archives with tag: "@ + tag_name@,
            id_text("/opds/tag/"@, tag_id, ""@),
            archive_items(archives@),
            now@,
        ),
{
    let entries = archive_entries(archives);
    let id = id_string("manhuaviewer-tag-", tag_id, "-archives");
    let href = id_string("/opds/tag/", tag_id, "");
    let mut title = String::from_str("Archives with tag: ");
    push_str(&mut title, tag_name);
    opds_feed(id.as_str(), title.as_str(), href.as_str(), entries.as_str(), now)
}

/// The feed of the archives of a category; a category without a name is
/// reported as not found.
pub fn category_archives_feed(category_id: i64, category_name: &str, archives: &Vec<ArchiveRow>, now: &str) -> (r: String)
    ensures
        category_name@.len() == 0 ==> r@ == error_xml("Category not found"@, now@),
        category_name@.len() > 0 ==> r@ == feed_xml(
            id_text("manhuaviewer-category-"@, category_id, "-archives"@),
            "Category: "@ + category_name@,
            id_text("/opds/category/"@, category_id, ""@),
            archive_items(archives@),
            now@,
        ),
{
    if category_name.is_empty() {
        return opds_error_xml("Category not found", now);
    }
    let entries = archive_entries(archives);
    let id = id_string("manhuaviewer-category-", category_id, "-archives");
    let href = id_string("/opds/category/", category_id, "");
    let mut title = String::from_str("Category: ");
    push_str(&mut title, category_name);
    opds_feed(id.as_str(), title.as_str(), href.as_str(), entries.as_str(), now)
}

/// The entry of a recently read archive: its reading position as content.
pub open spec fn recent_item(h: (HistoryRow, String)) -> Seq<char> {
    entry_xml(
        h.1@,
        "http://opds-spec.org/acquisition"@,
        id_text("/opds/archive/"@, h.0.archive_id, ""@),
        "application/atom+xml"@,
        id_text("manhuaviewer-archive-"@, h.0.archive_id, ""@),
        h.0.updated_at@,
        Some("Page "@ + dec_int(h.0.page_index + 1) + " of "@ + dec_int(h.0.total_pages as int)),
    )
}

/// The feed of recent reading, from history rows with their archive titles.
pub fn recent_feed(history: &Vec<(HistoryRow, String)>, now: &str) -> (r: String)
    requires
        forall|k: int| 0 <= k < history@.len() ==> (#[trigger] history@[k]).0.page_index < i64::MAX,
    ensures
        r@ == feed_xml(
            "manhuaviewer-recent"@,
            "Recent Reading"@,
            "/opds/recent"@,
            joined(history@.map_values(|h: (HistoryRow, String)| recent_item(h))),
            now@,
        ),
{
    let mut entries = String::new();
    let mut i: usize = 0;
    while i < history.len()
        invariant
            i <= history@.len(),
            forall|k: int| 0 <= k < history@.len() ==> (#[trigger] history@[k]).0.page_index < i64::MAX,
            entries@ == joined(history@.take(i as int).map_values(|h: (HistoryRow, String)| recent_item(h))),
        decreases history.len() - i,
    {
        let h = &history[i];
        assert(history@[i as int].0.page_index < i64::MAX);
        let label = reading_label(h.0.page_index, h.0.total_pages);
        let e = archive_entry(h.1.as_str(), h.0.archive_id, h.0.updated_at.as_str(), label.as_str());
        push_str(&mut entries, e.as_str());
        proof {
            let s1 = history@.take(i as int + 1).map_values(|h: (HistoryRow, String)| recent_item(h));
            assert(s1.drop_last() =~= history@.take(i as int).map_values(|h: (HistoryRow, String)| recent_item(h)));
            assert(s1.last() == recent_item(history@[i as int]));
        }
        i = i + 1;
    }
    assert(history@.take(history@.len() as int) =~= history@);
    opds_feed("manhuaviewer-recent", "Recent Reading", "/opds/recent", entries.as_str(), now)
}

/// The subsection entry of a tag, shown as `namespace:name`.
pub open spec fn tag_item(t: TagRow, now: Seq<char>) -> Seq<char> {
    entry_xml(
        if t.namespace@.len() == 0 {
            t.name@
        } else {
            t.namespace@ + seq![':'] + t.name@
        },
        "subsection"@,
        id_text("/opds/tag/"@, t.id, ""@),
        "application/atom+xml"@,
        id_text("manhuaviewer-tag-"@, t.id, ""@),
        now,
        None,
    )
}

/// The feed of all tags.
pub fn tags_feed(tags: &Vec<TagRow>, now: &str) -> (r: String)
    ensures
        r@ == feed_xml(
            "manhuaviewer-tags"@,
            "Tags"@,
            "/opds/tags"@,
            joined(tags@.map_values(|t: TagRow| tag_item(t, now@))),
            now@,
        ),
{
    let mut entries = String::new();
    let mut i: usize = 0;
    while i < tags.len()
        invariant
            i <= tags@.len(),
            entries@ == joined(tags@.take(i as int).map_values(|t: TagRow| tag_item(t, now@))),
        decreases tags.len() - i,
    {
        let t = &tags[i];
        let name = tag_display_name(t.namespace.as_str(), t.name.as_str());
        let id = id_string("manhuaviewer-tag-", t.id, "");
        let href = id_string("/opds/tag/", t.id, "");
        let e = subsection_entry(name.as_str(), id.as_str(), href.as_str(), now);
        push_str(&mut entries, e.as_str());
        proof {
            let s1 = tags@.take(i as int + 1).map_values(|t: TagRow| tag_item(t, now@));
            assert(s1.drop_last() =~= tags@.take(i as int).map_values(|t: TagRow| tag_item(t, now@)));
            assert(s1.last() == tag_item(tags@[i as int], now@));
        }
        i = i + 1;
    }
    assert(tags@.take(tags@.len() as int) =~= tags@);
    opds_feed("manhuaviewer-tags", "Tags", "/opds/tags", entries.as_str(), now)
}

/// The subsection entry of a category, dated by its creation.
pub open spec fn category_item(c: CategoryRow) -> Seq<char> {
    entry_xml(
        c.name@,
        "subsection"@,
        id_text("/opds/category/"@, c.id, ""@),
        "application/atom+xml"@,
        id_text("manhuaviewer-category-"@, c.id, ""@),
        c.created_at@,
        None,
    )
}

/// The feed of all categories.
pub fn categories_feed(categories: &Vec<CategoryRow>, now: &str) -> (r: String)
    ensures
        r@ == feed_xml(
            "manhuaviewer-categories"@,
            "Categories"@,
            "/opds/categories"@,
            joined(categories@.map_values(|c: CategoryRow| category_item(c))),
            now@,
        ),
{
    let mut entries = String::new();
    let mut i: usize = 0;
    while i < categories.len()
        invariant
            i <= categories@.len(),
            entries@ == joined(categories@.take(i as int).map_values(|c: CategoryRow| category_item(c))),
        decreases categories.len() - i,
    {
        let c = &categories[i];
        let id = id_string("manhuaviewer-category-", c.id, "");
        let href = id_string("/opds/category/", c.id, "");
        let e = subsection_entry(c.name.as_str(), id.as_str(), href.as_str(), c.created_at.as_str());
        push_str(&mut entries, e.as_str());
        proof {
            let s1 = categories@.take(i as int + 1).map_values(|c: CategoryRow| category_item(c));
            assert(s1.drop_last() =~= categories@.take(i as int).map_values(|c: CategoryRow| category_item(c)));
            assert(s1.last() == category_item(categories@[i as int]));
        }
        i = i + 1;
    }
    assert(categories@.take(categories@.len() as int) =~= categories@);
    opds_feed("manhuaviewer-categories", "Categories", "/opds/categories", entries.as_str(), now)
}

/// The image entry of page `i` of an archive: named by the file name of its
/// path, typed by the MIME type guessed from that path.
pub open spec fn page_item(archive_id: i64, i: nat, p: PageRow, now: Seq<char>) -> Seq<char> {
    entry_xml(
        match file_name(p.filepath@) {
            Some(n) => n,
            None => Seq::<char>::empty(),
        },
        "http://opds-spec.org/image"@,
        "/api/archives/"@ + dec_int(archive_id as int) + "/pages/"@ + dec(i),
        mime_type_of(p.filepath@),
        "manhuaviewer-page-"@ + dec_int(archive_id as int) + "-"@ + dec(i),
        now,
        None,
    )
}

/// The image entries of the first `n` pages.
pub open spec fn page_items(archive_id: i64, pages: Seq<PageRow>, now: Seq<char>, n: int) -> Seq<char>
    decreases n,
{
    if n <= 0 {
        Seq::<char>::empty()
    } else {
        page_items(archive_id, pages, now, n - 1) + page_item(archive_id, (n - 1) as nat, pages[n - 1], now)
    }
}

/// The feed of an archive's pages: one image entry per page, titled
/// `<title> (<n> pages)`.
pub fn pages_feed(archive_id: i64, title: &str, pages: &Vec<PageRow>, now: &str) -> (r: String)
    ensures
        r@ == feed_xml(
            id_text("manhuaviewer-archive-"@, archive_id, "-pages"@),
            title@ + " ("@ + dec(pages@.len()) + " pages)"@,
            id_text("/opds/archive/"@, archive_id, ""@),
            page_items(archive_id, pages@, now@, pages@.len() as int),
            now@,
        ),
{
    let mut entries = String::new();
    let mut i: usize = 0;
    while i < pages.len()
        invariant
            i <= pages@.len(),
            entries@ == page_items(archive_id, pages@, now@, i as int),
        decreases pages.len() - i,
    {
        let p = &pages[i];
        let v = chars_of(p.filepath.as_str());
        let name = match file_name_chars(v.as_slice()) {
            Some(n) => string_from_chars(n.as_slice()),
            None => String::new(),
        };
        let mime = page_content_type(p.filepath.as_str());
        let e = image_entry(name.as_str(), mime.as_str(), archive_id, i as u64, now);
        push_str(&mut entries, e.as_str());
        i = i + 1;
    }
    let id = id_string("manhuaviewer-archive-", archive_id, "-pages");
    let href = id_string("/opds/archive/", archive_id, "");
    let t = pages_feed_title(title, pages.len() as u64);
    opds_feed(id.as_str(), t.as_str(), href.as_str(), entries.as_str(), now)
}

} // verus!

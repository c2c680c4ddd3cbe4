//! HTTP caching and response decisions for pages, covers and thumbnails:
//! entity tags, conditional requests, which cover to show, which page a
//! request names, and download names.

use vstd::prelude::*;
use crate::models::PageRow;
use crate::paths::{extension, file_name, file_name_chars};
use crate::text::{
    chars_of, dec, dec_int, find_sub, find_from, lemma_find_from, parse_i64, parse_i64_spec,
    push_char, push_chars, push_i64, push_str, push_u64, string_from_chars, trim_chars, trim_ws,
};

verus! {

// ---------------------------------------------------------------------------
// Time stamps
// ---------------------------------------------------------------------------

/// A point in time as whole seconds since the Unix epoch (negative before
/// it) and nanoseconds past that second.
#[derive(Clone, Copy, PartialEq, Eq, Structural, Debug)]
pub struct FileTime {
    pub secs: i64,
    pub nanos: u32,
}

/// The instant a time stamp denotes, in nanoseconds since the epoch.
pub open spec fn instant(t: FileTime) -> int {
    t.secs * 1_000_000_000 + t.nanos
}

/// Whether `a` is no later than `b`.
pub fn time_le(a: FileTime, b: FileTime) -> (r: bool)
    ensures
        r == (instant(a) <= instant(b)),
{
    let x: i128 = (a.secs as i128) * 1_000_000_000 + (a.nanos as i128);
    let y: i128 = (b.secs as i128) * 1_000_000_000 + (b.nanos as i128);
    x <= y
}

/// The whole seconds since the epoch of a modification time, 0 when there
/// is none or it lies before the epoch.
pub open spec fn epoch_secs(mtime: Option<FileTime>) -> int {
    match mtime {
        Some(t) => if t.secs >= 0 {
            t.secs as int
        } else {
            0
        },
        None => 0,
    }
}

fn epoch_secs_exec(mtime: Option<FileTime>) -> (r: u64)
    ensures
        r == epoch_secs(mtime),
{
    match mtime {
        Some(t) => if t.secs >= 0 {
            t.secs as u64
        } else {
            0
        },
        None => 0,
    }
}

/// What `DateTime::from_timestamp(secs, nanos)` formatted as
/// `%a, %d %b %Y %H:%M:%S GMT` gives (none when out of chrono's range).
pub uninterp spec fn http_date_text(secs: i64, nanos: u32) -> Option<Seq<char>>;

/// The view of an optional string.
pub open spec fn opt_view(o: Option<String>) -> Option<Seq<char>> {
    match o {
        Some(s) => Some(s@),
        None => None,
    }
}

/// chrono's `DateTime::<Utc>::from_timestamp` and `format`: the HTTP date
/// (`Last-Modified` form) of a time stamp, named by `http_date_text`.
#[verifier::external_body]
pub(crate) fn http_date(t: FileTime) -> (r: Option<String>)
    ensures
        opt_view(r) == http_date_text(t.secs, t.nanos),
{
    chrono::DateTime::from_timestamp(t.secs, t.nanos).map(|d| d.format("%a, %d %b %Y %H:%M:%S GMT").to_string())
}

/// What `DateTime::parse_from_rfc2822` gives for a text, as seconds since
/// the epoch and nanoseconds (none when the text is not an RFC 2822 date).
pub uninterp spec fn rfc2822_instant(s: Seq<char>) -> Option<(i64, u32)>;

/// chrono's `DateTime::parse_from_rfc2822`: the time stamp of an HTTP date
/// header, named by `rfc2822_instant`.
#[verifier::external_body]
pub(crate) fn parse_http_date(s: &str) -> (r: Option<FileTime>)
    ensures
        match r {
            Some(t) => rfc2822_instant(s@) == Some((t.secs, t.nanos)),
            None => rfc2822_instant(s@) is None,
        },
{
    chrono::DateTime::parse_from_rfc2822(s).ok().map(|d| FileTime { secs: d.timestamp(), nanos: d.timestamp_subsec_nanos() })
}

// ---------------------------------------------------------------------------
// Entity tags
// ---------------------------------------------------------------------------

/// The entity tag of a page: `"p-<id>-<page>-<seconds>"`.
pub open spec fn page_etag(id: i64, page_index: i64, mtime: Option<FileTime>) -> Seq<char> {
    seq!['"', 'p', '-'] + dec_int(id as int) + seq!['-'] + dec_int(page_index as int) + seq!['-']
        + dec(epoch_secs(mtime) as nat) + seq!['"']
}

/// The entity tag of a page (see [`page_etag`]).
pub fn etag_for_page(id: i64, page_index: i64, mtime: Option<FileTime>) -> (r: String)
    ensures
        r@ == page_etag(id, page_index, mtime),
{
    let mut r = String::new();
    push_char(&mut r, '"');
    push_char(&mut r, 'p');
    push_char(&mut r, '-');
    push_i64(&mut r, id);
    push_char(&mut r, '-');
    push_i64(&mut r, page_index);
    push_char(&mut r, '-');
    push_u64(&mut r, epoch_secs_exec(mtime));
    push_char(&mut r, '"');
    assert(r@ =~= page_etag(id, page_index, mtime));
    r
}

/// The entity tag of a cover: `"c-<id>-<seconds>-<key>"`, the key naming
/// the chosen cover page or remote cover (empty when none).
pub open spec fn cover_etag(id: i64, mtime: Option<FileTime>, key: Option<Seq<char>>) -> Seq<char> {
    seq!['"', 'c', '-'] + dec_int(id as int) + seq!['-'] + dec(epoch_secs(mtime) as nat) + seq!['-']
        + match key {
        Some(k) => k,
        None => Seq::<char>::empty(),
    } + seq!['"']
}

/// The entity tag of a cover (see [`cover_etag`]).
pub fn etag_for_cover(id: i64, mtime: Option<FileTime>, override_key: Option<&str>) -> (r: String)
    ensures
        r@ == cover_etag(
            id,
            mtime,
            match override_key {
                Some(k) => Some(k@),
                None => None,
            },
        ),
{
    let mut r = String::new();
    push_char(&mut r, '"');
    push_char(&mut r, 'c');
    push_char(&mut r, '-');
    push_i64(&mut r, id);
    push_char(&mut r, '-');
    push_u64(&mut r, epoch_secs_exec(mtime));
    push_char(&mut r, '-');
    match override_key {
        Some(k) => push_str(&mut r, k),
        None => {},
    }
    push_char(&mut r, '"');
    assert(r@ =~= cover_etag(
        id,
        mtime,
        match override_key {
            Some(k) => Some(k@),
            None => None,
        },
    ));
    r
}

/// The entity tag of a thumbnail: `"thumb-<id>-<seconds>"`.
pub open spec fn thumb_etag(id: i64, secs: u64) -> Seq<char> {
    "\"thumb-"@ + dec_int(id as int) + seq!['-'] + dec(secs as nat) + seq!['"']
}

/// The entity tag of a thumbnail (see [`thumb_etag`]).
pub fn etag_for_thumb(id: i64, secs: u64) -> (r: String)
    ensures
        r@ == thumb_etag(id, secs),
{
    let mut r = String::from_str("\"thumb-");
    push_i64(&mut r, id);
    push_char(&mut r, '-');
    push_u64(&mut r, secs);
    push_char(&mut r, '"');
    assert(r@ =~= thumb_etag(id, secs));
    r
}

/// A present, non-empty string.
pub open spec fn non_empty(o: Option<String>) -> bool {
    o matches Some(s) && s@.len() > 0
}

/// What keys a cover's entity tag: the chosen cover page when set, else the
/// remote cover URL when set, else nothing.
pub open spec fn cover_key(cover_override: Option<String>, remote_cover: Option<String>) -> Option<Seq<char>> {
    if non_empty(cover_override) {
        Some(cover_override->0@)
    } else if non_empty(remote_cover) {
        Some(remote_cover->0@)
    } else {
        None
    }
}

/// The key of a cover's entity tag (see [`cover_key`]).
pub fn cover_etag_key(cover_override: &Option<String>, remote_cover: &Option<String>) -> (r: Option<String>)
    ensures
        opt_view(r) == cover_key(*cover_override, *remote_cover),
{
    match cover_override {
        Some(s) => if !s.as_str().is_empty() {
            return Some(s.clone());
        },
        None => {},
    }
    match remote_cover {
        Some(s) => if !s.as_str().is_empty() {
            return Some(s.clone());
        },
        None => {},
    }
    None
}

// ---------------------------------------------------------------------------
// Conditional requests
// ---------------------------------------------------------------------------

/// A conditional request is answered `304 Not Modified`: its
/// `If-None-Match` equals the entity tag, or (the file's time being known)
/// its `If-Modified-Since` parses as a date no earlier than that time.
pub open spec fn not_modified_rule(
    etag: Seq<char>,
    if_none_match: Option<Seq<char>>,
    since: Option<(i64, u32)>,
    mtime: Option<FileTime>,
) -> bool {
    (if_none_match == Some(etag)) || match (since, mtime) {
        (Some((s, n)), Some(m)) => instant(m) <= instant(FileTime { secs: s, nanos: n }),
        _ => false,
    }
}

/// Whether a conditional request for a resource with this entity tag and
/// modification time is answered `304` (see [`not_modified_rule`]); the
/// `If-Modified-Since` text is read by [`parse_http_date`].
pub fn is_not_modified(
    etag: &str,
    if_none_match: Option<&str>,
    if_modified_since: Option<&str>,
    mtime: Option<FileTime>,
) -> (r: bool)
    ensures
        r == not_modified_rule(
            etag@,
            match if_none_match {
                Some(s) => Some(s@),
                None => None,
            },
            match if_modified_since {
                Some(s) => rfc2822_instant(s@),
                None => None,
            },
            mtime,
        ),
{
    match if_none_match {
        Some(inm) => {
            let a = chars_of(inm);
            let b = chars_of(etag);
            if crate::text::chars_eq(a.as_slice(), b.as_slice()) {
                return true;
            }
        },
        None => {},
    }
    match (if_modified_since, mtime) {
        (Some(ims), Some(mt)) => match parse_http_date(ims) {
            Some(parsed) => time_le(mt, parsed),
            None => false,
        },
        _ => false,
    }
}

/// The `Cache-Control` policy of pages, covers and thumbnails.
pub open spec fn cache_control() -> Seq<char> {
    "private, max-age=3600, must-revalidate"@
}

/// The headers of a `304` answer: the entity tag, the cache policy and,
/// when known, the last modification date.
pub fn not_modified_headers(etag: String, last_modified: Option<String>) -> (r: Vec<(String, String)>)
    ensures
        r@.len() == if last_modified is Some {
            3int
        } else {
            2int
        },
        r@[0].0@ == "ETag"@ && r@[0].1 == etag,
        r@[1].0@ == "Cache-Control"@ && r@[1].1@ == cache_control(),
        last_modified matches Some(lm) ==> r@[2].0@ == "Last-Modified"@ && r@[2].1 == lm,
{
    let mut r: Vec<(String, String)> = Vec::new();
    r.push((String::from_str("ETag"), etag));
    r.push((String::from_str("Cache-Control"), String::from_str("private, max-age=3600, must-revalidate")));
    match last_modified {
        Some(lm) => r.push((String::from_str("Last-Modified"), lm)),
        None => {},
    }
    r
}

/// The headers of a `200` answer for a page, cover or thumbnail: its
/// content type, entity tag, the cache policy and, when known, the last
/// modification date.
pub fn ok_headers(content_type: String, etag: String, last_modified: Option<String>) -> (r: Vec<(String, String)>)
    ensures
        r@.len() == if last_modified is Some {
            4int
        } else {
            3int
        },
        r@[0].0@ == "Content-Type"@ && r@[0].1 == content_type,
        r@[1].0@ == "ETag"@ && r@[1].1 == etag,
        r@[2].0@ == "Cache-Control"@ && r@[2].1@ == cache_control(),
        last_modified matches Some(lm) ==> r@[3].0@ == "Last-Modified"@ && r@[3].1 == lm,
{
    let mut r: Vec<(String, String)> = Vec::new();
    r.push((String::from_str("Content-Type"), content_type));
    r.push((String::from_str("ETag"), etag));
    r.push((String::from_str("Cache-Control"), String::from_str("private, max-age=3600, must-revalidate")));
    match last_modified {
        Some(lm) => r.push((String::from_str("Last-Modified"), lm)),
        None => {},
    }
    r
}

/// The `Last-Modified` value for a modification time, when it is known and
/// chrono can render it (see [`http_date_text`]).
pub fn last_modified_value(mtime: Option<FileTime>) -> (r: Option<String>)
    ensures
        match mtime {
            None => r is None,
            Some(t) => opt_view(r) == http_date_text(t.secs, t.nanos),
        },
{
    match mtime {
        None => None,
        Some(t) => http_date(t),
    }
}

/// The `Content-Type` of a page or image file, guessed from its name (see
/// [`mime_type_of`]); `application/octet-stream` without an extension.
pub fn page_content_type(name: &str) -> (r: String)
    ensures
        r@ == mime_type_of(name@),
        extension(name@) is None ==> r@ == "application/octet-stream"@,
{
    mime_for(name)
}

// ---------------------------------------------------------------------------
// Covers
// ---------------------------------------------------------------------------

/// Where a cover image comes from.
pub enum CoverSource {
    /// The page chosen as cover.
    Page(String),
    /// A remote cover image.
    Remote(String),
    /// The archive's first page.
    FirstPage,
}

/// The cover's source: the chosen page when set, else the remote cover
/// when set, else the first page.
pub fn cover_source(cover_override: &Option<String>, remote_cover: &Option<String>) -> (r: CoverSource)
    ensures
        non_empty(*cover_override) ==> (r matches CoverSource::Page(p) && p@ == cover_override->0@),
        !non_empty(*cover_override) && non_empty(*remote_cover) ==> (r matches CoverSource::Remote(u)
            && u@ == remote_cover->0@),
        !non_empty(*cover_override) && !non_empty(*remote_cover) ==> r is FirstPage,
{
    match cover_override {
        Some(s) => if !s.as_str().is_empty() {
            return CoverSource::Page(s.clone());
        },
        None => {},
    }
    match remote_cover {
        Some(s) => if !s.as_str().is_empty() {
            return CoverSource::Remote(s.clone());
        },
        None => {},
    }
    CoverSource::FirstPage
}

/// A cached cover is still good: both times are known and the cache is no
/// older than the archive.
pub fn cover_cache_valid(cache_mtime: Option<FileTime>, archive_mtime: Option<FileTime>) -> (r: bool)
    ensures
        r == (cache_mtime matches Some(c) && archive_mtime matches Some(a) && instant(a) <= instant(c)),
{
    match (cache_mtime, archive_mtime) {
        (Some(c), Some(a)) => time_le(a, c),
        _ => false,
    }
}

// ---------------------------------------------------------------------------
// Pages
// ---------------------------------------------------------------------------

/// What `mime_guess::from_path(name).first_or_octet_stream()` gives.
pub uninterp spec fn mime_type_of(name: Seq<char>) -> Seq<char>;

/// mime_guess's `from_path(..).first_or_octet_stream()`: the MIME type
/// guessed from a file name's extension, named by `mime_type_of`; a name
/// without extension gets `application/octet-stream`, as the crate
/// documents.
#[verifier::external_body]
pub(crate) fn mime_for(name: &str) -> (r: String)
    ensures
        r@ == mime_type_of(name@),
        extension(name@) is None ==> r@ == "application/octet-stream"@,
{
    mime_guess::from_path(name).first_or_octet_stream().to_string()
}

/// The message of a request for a page past the end.
pub open spec fn out_of_range_message(idx: u64, total: u64) -> Seq<char> {
    "Page index "@ + dec(idx as nat) + " out of range (total: "@ + dec(total as nat) + seq![')']
}

/// The page a request names: its MIME type and path; an error message when
/// the index is past the end.
pub fn page_target(pages: &Vec<PageRow>, page_index: i64) -> (r: Result<(String, String), String>)
    requires
        page_index >= 0,
    ensures
        page_index < pages@.len() ==> (r matches Ok((m, p)) && p@ == pages@[page_index as int].filepath@
            && m@ == mime_type_of(p@)),
        page_index >= pages@.len() ==> (r matches Err(msg) && msg@ == out_of_range_message(
            page_index as u64,
            pages@.len() as u64,
        )),
{
    let idx: u64 = page_index as u64;
    if idx >= pages.len() as u64 {
        let mut msg = String::from_str("Page index ");
        push_u64(&mut msg, idx);
        push_str(&mut msg, " out of range (total: ");
        push_u64(&mut msg, pages.len() as u64);
        push_char(&mut msg, ')');
        assert(msg@ =~= out_of_range_message(idx, pages@.len() as u64));
        return Err(msg);
    }
    let path = pages[idx as usize].filepath.clone();
    let mime = mime_for(path.as_str());
    Ok((mime, path))
}

/// The status of a failed page request: 404 when the message says the
/// index is out of range, 500 otherwise.
pub fn page_error_status(message: &str) -> (r: u16)
    ensures
        r == if find_from(message@, "out of range"@, 0) >= 0 {
            404u16
        } else {
            500u16
        },
{
    let m = chars_of(message);
    let needle = chars_of("out of range");
    match find_sub(m.as_slice(), needle.as_slice()) {
        Some(_) => 404,
        None => 500,
    }
}

/// The archive time recorded beside a thumbnail directory, read from the
/// marker file's text: the trimmed text as an integer.
pub fn read_marker(text: &str) -> (r: Option<i64>)
    ensures
        r == parse_i64_spec(trim_ws(text@)),
{
    let v = chars_of(text);
    let t = trim_chars(v.as_slice());
    parse_i64(t.as_slice())
}

/// A directory of thumbnails is still valid when its marker holds the
/// archive's current modification time.
pub fn thumbs_still_valid(marker: Option<i64>, archive_mtime_secs: i64) -> (r: bool)
    ensures
        r == (marker == Some(archive_mtime_secs)),
{
    match marker {
        Some(m) => m == archive_mtime_secs,
        None => false,
    }
}

/// The time a served thumbnail is validated by: the cache file's time for
/// a freshly generated thumbnail, else (the full-size page being served)
/// the archive's time, negative times counting as the epoch.
pub fn thumb_validator_time(fresh: bool, cache_mtime: Option<FileTime>, archive_mtime_secs: i64) -> (r: Option<FileTime>)
    ensures
        fresh ==> r == cache_mtime,
        !fresh ==> r == Some(FileTime {
            secs: if archive_mtime_secs > 0 {
                archive_mtime_secs
            } else {
                0
            },
            nanos: 0,
        }),
{
    if fresh {
        cache_mtime
    } else {
        Some(FileTime {
            secs: if archive_mtime_secs > 0 {
                archive_mtime_secs
            } else {
                0
            },
            nanos: 0,
        })
    }
}

/// Whether a throttled action is due: never done, or at least `window`
/// seconds ago.
pub fn throttle_due(elapsed_secs: Option<u64>, window: u64) -> (r: bool)
    ensures
        r == match elapsed_secs {
            Some(e) => e >= window,
            None => true,
        },
{
    match elapsed_secs {
        Some(e) => e >= window,
        None => true,
    }
}

// ---------------------------------------------------------------------------
// Downloads
// ---------------------------------------------------------------------------

/// A character that may not appear in a quoted file name: a control
/// character, `"` or `\`.
pub open spec fn unsafe_in_quotes(c: char) -> bool {
    (c as u32) <= 0x1f || (0x7f <= (c as u32) && (c as u32) <= 0x9f) || c == '"' || c == '\\'
}

/// A file name with every character that may not appear in quotes replaced by `_`.
pub open spec fn quoted_safe(name: Seq<char>) -> Seq<char> {
    name.map_values(|c: char| if unsafe_in_quotes(c) { '_' } else { c })
}

/// A `Content-Disposition` value for downloading a file under `name`:
/// `attachment; filename="<name>"`, with control characters, quotes and
/// backslashes in the name replaced by `_`.
pub fn safe_content_disposition(name: &str) -> (r: String)
    ensures
        r@ == "attachment; filename=\""@ + quoted_safe(name@) + seq!['"'],
{
    let v = chars_of(name);
    let mut clean: Vec<char> = Vec::new();
    let mut i: usize = 0;
    while i < v.len()
        invariant
            i <= v.len(),
            clean@ =~= quoted_safe(v@.take(i as int)),
        decreases v.len() - i,
    {
        let c = v[i];
        let u = c as u32;
        if u <= 0x1f || (0x7f <= u && u <= 0x9f) || c == '"' || c == '\\' {
            clean.push('_');
        } else {
            clean.push(c);
        }
        assert(v@.take(i as int + 1) =~= v@.take(i as int).push(c));
        i = i + 1;
    }
    assert(v@.take(v.len() as int) =~= v@);
    let mut r = String::from_str("attachment; filename=\"");
    push_chars(&mut r, clean.as_slice());
    push_char(&mut r, '"');
    r
}

/// The name a download of an archive is offered under: the file name of
/// its path, or `archive_<id>.<type>` when the path has none; a folder is
/// packed, so `.cbz` is added (any trailing `/` of the name dropped) and
/// `archive_<id>` stands in for a missing name.
pub open spec fn download_name(path: Seq<char>, id: i64, archive_type: Seq<char>, compressed: bool) -> Seq<char> {
    if compressed {
        match file_name(path) {
            Some(n) => n,
            None => "archive_"@ + dec_int(id as int) + seq!['.'] + archive_type,
        }
    } else {
        let base = match file_name(path) {
            Some(n) => n,
            None => "archive_"@ + dec_int(id as int) + ".cbz"@,
        };
        crate::sync::trim_end_slashes(base) + ".cbz"@
    }
}

/// The name a download is offered under (see [`download_name`]).
pub fn download_file_name(path: &str, id: i64, archive_type: &str, compressed: bool) -> (r: String)
    ensures
        r@ == download_name(path@, id, archive_type@, compressed),
{
    let v = chars_of(path);
    let base = match file_name_chars(v.as_slice()) {
        Some(n) => string_from_chars(n.as_slice()),
        None => {
            let mut s = String::from_str("archive_");
            push_i64(&mut s, id);
            if compressed {
                push_char(&mut s, '.');
                push_str(&mut s, archive_type);
            } else {
                push_str(&mut s, ".cbz");
            }
            s
        },
    };
    if compressed {
        return base;
    }
    let mut r = crate::sync::base_url(base.as_str());
    push_str(&mut r, ".cbz");
    r
}

} // verus!

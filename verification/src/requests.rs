//! The requests of the HTTP API as the library reads them, and the checks
//! and defaults applied to each before any work is done.

use vstd::prelude::*;
use crate::auth::{lan_sensitive, outbound_ok, setting_key_writable, validate_outbound_url};
use crate::listing::{limit_of, list_window, offset_of};
use crate::models::PageRow;
use crate::cbz::cbz_output_dir;
use crate::convert::requested_ids;
use crate::opds::catalog_window;
use crate::scan::{scan_depth, scan_depth_of, scan_root};
use crate::sync::{check_sync_request, text_or_empty, SyncRequestError};
use crate::text::{chars_of, contains_char, dec, dec_int, push_i64, push_str, push_u64, string_from_chars, trim_chars, trim_ws};

verus! {

/// The reason shown with a `400 Bad Request`.
pub type BadRequest = String;

// ---------------------------------------------------------------------------
// The library list
// ---------------------------------------------------------------------------

/// The query of the library list.
pub struct ArchiveQuery {
    pub sort: Option<String>,
    pub order: Option<String>,
    pub page: Option<i64>,
    pub limit: Option<i64>,
    pub search: Option<String>,
    pub tag: Option<String>,
    pub category_id: Option<i64>,
    /// `read` or `unread`; everything when absent.
    pub read: Option<String>,
    pub group_id: Option<i64>,
    /// The seed of a random order, stable across the pages of one session.
    pub seed: Option<i64>,
    pub title: Option<String>,
    pub parent: Option<String>,
}

/// Where the rows of a list request come from.
pub enum ListSource {
    /// All archives of this exact title, kept to those directly in the
    /// folder `parent` when one is given; no paging.
    ByTitle { title: String, parent: Option<String> },
    /// The chapters of a merged group; no paging.
    GroupChapters(i64),
    /// The filtered library, sorted, grouped into cards and cut to one
    /// page; `shuffle_seed` is set when the order is the random one.
    Paged { offset: i64, limit: i64, sort: String, order: String, shuffle_seed: Option<i64> },
}

/// A present, non-empty text.
pub open spec fn given(o: Option<String>) -> bool {
    o matches Some(s) && s@.len() > 0
}

/// `random`.
pub open spec fn random_sort() -> Seq<char> {
    "random"@
}

/// The text of an option, or a default.
pub open spec fn text_or(o: Option<String>, d: Seq<char>) -> Seq<char> {
    match o {
        Some(s) => s@,
        None => d,
    }
}

/// What a list request asks for: a non-empty `title` lists that title
/// (within a non-empty `parent`); else a `group_id` lists that group's
/// chapters; else a page of the library sorted by `sort` (`updated` unless
/// given) in `order` (`desc` unless given), shuffled by `seed` (0 unless
/// given) when the sort is `random`, at the window of `page` and `limit`
/// (see [`list_window`]).
pub open spec fn source_matches(q: ArchiveQuery, s: ListSource) -> bool {
    if given(q.title) {
        s matches ListSource::ByTitle { title, parent } && title@ == q.title->0@ && (if given(q.parent) {
            parent matches Some(p) && p@ == q.parent->0@
        } else {
            parent is None
        })
    } else if q.group_id is Some {
        s == ListSource::GroupChapters(q.group_id->0)
    } else {
        s matches ListSource::Paged { offset, limit, sort, order, shuffle_seed } && offset == offset_of(
            q.page,
            q.limit,
        ) && limit == limit_of(q.limit) && sort@ == text_or(q.sort, "updated"@) && order@ == text_or(
            q.order,
            "desc"@,
        ) && shuffle_seed == (if sort@ == random_sort() {
            Some(
                match q.seed {
                    Some(x) => x,
                    None => 0,
                },
            )
        } else {
            None
        })
    }
}

fn non_empty(o: &Option<String>) -> (r: Option<String>)
    ensures
        given(*o) ==> (r matches Some(s) && s@ == o->0@),
        !given(*o) ==> r is None,
{
    match o {
        Some(s) => if s.as_str().is_empty() {
            None
        } else {
            Some(s.clone())
        },
        None => None,
    }
}

fn text_or_default(o: &Option<String>, d: &str) -> (r: String)
    ensures
        r@ == text_or(*o, d@),
{
    match o {
        Some(s) => s.clone(),
        None => String::from_str(d),
    }
}

/// Where the rows of a list request come from (see [`source_matches`]).
pub fn list_source(q: &ArchiveQuery) -> (r: ListSource)
    ensures
        source_matches(*q, r),
{
    match non_empty(&q.title) {
        Some(title) => {
            let parent = non_empty(&q.parent);
            return ListSource::ByTitle { title, parent };
        },
        None => {},
    }
    match q.group_id {
        Some(g) => return ListSource::GroupChapters(g),
        None => {},
    }
    let (offset, limit) = list_window(q.page, q.limit);
    let sort = text_or_default(&q.sort, "updated");
    let order = text_or_default(&q.order, "desc");
    let sv = chars_of(sort.as_str());
    let rv = chars_of("random");
    proof {
        reveal_strlit("random");
    }
    let shuffle_seed = if crate::text::chars_eq(sv.as_slice(), rv.as_slice()) {
        Some(
            match q.seed {
                Some(x) => x,
                None => 0,
            },
        )
    } else {
        None
    };
    ListSource::Paged { offset, limit, sort, order, shuffle_seed }
}

// ---------------------------------------------------------------------------
// Opening a file
// ---------------------------------------------------------------------------

/// A request to add one file or folder to the library.
pub struct OpenFileRequest {
    pub file_path: String,
}

/// The path an open request names, trimmed: refused when it is empty or
/// holds a NUL (`无效的文件路径`), or is not absolute (it does not start
/// with `/`).
pub open spec fn open_path_verdict(path: Seq<char>) -> Result<Seq<char>, Seq<char>> {
    let t = trim_ws(path);
    if t.len() == 0 || t.contains('\0') {
        Err("无效的文件路径"@)
    } else if t[0] != '/' {
        Err("路径必须是绝对路径（桌面端由文件选择器返回）"@)
    } else {
        Ok(t)
    }
}

/// Checks the path of an open request (see [`open_path_verdict`]).
pub fn check_open_file(req: &OpenFileRequest) -> (r: Result<String, BadRequest>)
    ensures
        match r {
            Ok(p) => open_path_verdict(req.file_path@) == Ok::<Seq<char>, Seq<char>>(p@),
            Err(m) => open_path_verdict(req.file_path@) == Err::<Seq<char>, Seq<char>>(m@),
        },
{
    let v = chars_of(req.file_path.as_str());
    let t = trim_chars(v.as_slice());
    if t.len() == 0 || contains_char(t.as_slice(), '\0') {
        return Err(String::from_str("无效的文件路径"));
    }
    if t[0] != '/' {
        return Err(String::from_str("路径必须是绝对路径（桌面端由文件选择器返回）"));
    }
    Ok(string_from_chars(t.as_slice()))
}

/// The refusal of a file in which no page was found.
pub open spec fn no_pages_text(archive_type: Seq<char>) -> Seq<char> {
    if archive_type == "folder"@ {
        "文件夹中没有找到图片文件"@
    } else {
        "压缩包中没有图片"@
    }
}

/// The refusal of a file in which no page was found (see [`no_pages_text`]).
pub fn no_pages_message(archive_type: &str) -> (r: String)
    ensures
        r@ == no_pages_text(archive_type@),
{
    if crate::media::str_is(archive_type, "folder") {
        String::from_str("文件夹中没有找到图片文件")
    } else {
        String::from_str("压缩包中没有图片")
    }
}

// ---------------------------------------------------------------------------
// Batches, merges, bookmarks, covers
// ---------------------------------------------------------------------------

/// A request to delete several archives.
pub struct BatchDeleteRequest {
    pub ids: Vec<i64>,
}

impl BatchDeleteRequest {
    /// Refused when no id is given.
    pub fn check(&self) -> (r: Result<(), BadRequest>)
        ensures
            r is Ok <==> self.ids@.len() > 0,
            r matches Err(m) ==> m@ == "ids 不能为空"@,
    {
        if self.ids.len() == 0 {
            Err(String::from_str("ids 不能为空"))
        } else {
            Ok(())
        }
    }
}

/// A request to merge archives into one group.
pub struct MergeRequest {
    pub archive_ids: Vec<i64>,
}

impl MergeRequest {
    /// Refused with fewer than two archives.
    pub fn check(&self) -> (r: Result<(), BadRequest>)
        ensures
            r is Ok <==> self.archive_ids@.len() >= 2,
            r matches Err(m) ==> m@ == "需要至少选择 2 个档案进行合并"@,
    {
        if self.archive_ids.len() < 2 {
            Err(String::from_str("需要至少选择 2 个档案进行合并"))
        } else {
            Ok(())
        }
    }
}

/// A request to bookmark a page.
pub struct BookmarkRequest {
    pub page_index: i64,
}

impl BookmarkRequest {
    /// Refused for a negative page.
    pub fn check(&self) -> (r: Result<(), BadRequest>)
        ensures
            r is Ok <==> self.page_index >= 0,
            r matches Err(m) ==> m@ == "page_index 不能为负"@,
    {
        if self.page_index < 0 {
            Err(String::from_str("page_index 不能为负"))
        } else {
            Ok(())
        }
    }
}

/// A request to choose (or, with no page, reset) an archive's cover.
pub struct SetCoverRequest {
    pub page_index: Option<i64>,
}

/// Why a cover cannot be set.
pub enum CoverError {
    /// `400`: a negative page, or a page past the end.
    BadRequest(String),
}

/// The cover a request sets, given the archive's pages: none (the default
/// cover) when no page is given; the file of the chosen page when it
/// exists; refused for a negative page or one past the last.
pub open spec fn cover_verdict(page_index: Option<i64>, pages: Seq<PageRow>) -> Result<Option<Seq<char>>, Seq<char>> {
    match page_index {
        None => Ok(None),
        Some(i) => if i < 0 {
            Err("page_index 不能为负"@)
        } else if i >= pages.len() {
            Err("Page index "@ + dec(i as nat) + " out of range (total: "@ + dec(pages.len()) + ")"@)
        } else {
            Ok(Some(pages[i as int].filepath@))
        },
    }
}

impl SetCoverRequest {
    /// The cover to record (see [`cover_verdict`]).
    pub fn cover_choice(&self, pages: &Vec<PageRow>) -> (r: Result<Option<String>, CoverError>)
        ensures
            match r {
                Ok(None) => cover_verdict(self.page_index, pages@) == Ok::<Option<Seq<char>>, Seq<char>>(None),
                Ok(Some(f)) => cover_verdict(self.page_index, pages@) == Ok::<Option<Seq<char>>, Seq<char>>(Some(f@)),
                Err(CoverError::BadRequest(m)) => cover_verdict(self.page_index, pages@) == Err::<Option<Seq<char>>, Seq<char>>(m@),
            },
    {
        match self.page_index {
            None => Ok(None),
            Some(i) => {
                if i < 0 {
                    return Err(CoverError::BadRequest(String::from_str("page_index 不能为负")));
                }
                if (i as u64) >= (pages.len() as u64) {
                    let mut m = String::from_str("Page index ");
                    push_u64(&mut m, i as u64);
                    push_str(&mut m, " out of range (total: ");
                    push_u64(&mut m, pages.len() as u64);
                    push_str(&mut m, ")");
                    return Err(CoverError::BadRequest(m));
                }
                Ok(Some(pages[i as usize].filepath.clone()))
            },
        }
    }
}

/// A request to set (or, with no URL, clear) an archive's remote cover.
pub struct RemoteCoverRequest {
    pub url: Option<String>,
}

/// The remote cover a request records: the URL trimmed; none when absent
/// or blank; refused when it is not an `http(s)` address of another
/// machine (see [`outbound_ok`]).
pub open spec fn remote_cover_verdict(url: Option<Seq<char>>) -> Result<Option<Seq<char>>, Seq<char>> {
    match url {
        None => Ok(None),
        Some(u) => if trim_ws(u).len() == 0 {
            Ok(None)
        } else if outbound_ok(trim_ws(u)) {
            Ok(Some(trim_ws(u)))
        } else {
            Err("仅支持 http(s) 的局域网/公网图片地址（拒绝本机/回环/链路本地）"@)
        },
    }
}

impl RemoteCoverRequest {
    /// The remote cover to record (see [`remote_cover_verdict`]).
    pub fn target(&self) -> (r: Result<Option<String>, BadRequest>)
        ensures
            match r {
                Ok(None) => remote_cover_verdict(crate::http::opt_view(self.url)) == Ok::<Option<Seq<char>>, Seq<char>>(None),
                Ok(Some(u)) => remote_cover_verdict(crate::http::opt_view(self.url)) == Ok::<Option<Seq<char>>, Seq<char>>(Some(u@)),
                Err(m) => remote_cover_verdict(crate::http::opt_view(self.url)) == Err::<Option<Seq<char>>, Seq<char>>(m@),
            },
    {
        match &self.url {
            None => Ok(None),
            Some(u) => {
                let v = chars_of(u.as_str());
                let t = trim_chars(v.as_slice());
                if t.len() == 0 {
                    return Ok(None);
                }
                let s = string_from_chars(t.as_slice());
                if validate_outbound_url(s.as_str()) {
                    Ok(Some(s))
                } else {
                    Err(String::from_str("仅支持 http(s) 的局域网/公网图片地址（拒绝本机/回环/链路本地）"))
                }
            },
        }
    }
}

// ---------------------------------------------------------------------------
// Categories and tags
// ---------------------------------------------------------------------------

/// The default colour of a new category or tag.
pub open spec fn default_color() -> Seq<char> {
    "#4a86e8"@
}

/// A category as created or updated.
pub struct CreateCategory {
    pub name: String,
    pub color: Option<String>,
    pub pinned: Option<bool>,
    pub search: Option<String>,
}

impl CreateCategory {
    /// The stored fields: name, colour (the default colour unless given),
    /// pinned (false unless given) and saved search (empty unless given).
    pub fn fields(&self) -> (r: (String, String, bool, String))
        ensures
            r.0@ == self.name@,
            r.1@ == text_or(self.color, default_color()),
            r.2 == match self.pinned {
                Some(p) => p,
                None => false,
            },
            r.3@ == text_or(self.search, Seq::<char>::empty()),
    {
        let color = text_or_default(&self.color, "#4a86e8");
        let pinned = match self.pinned {
            Some(p) => p,
            None => false,
        };
        let search = text_or_default(&self.search, "");
        proof {
            reveal_strlit("");
        }
        (self.name.clone(), color, pinned, search)
    }
}

/// A request to put several archives in, or take them out of, a category.
pub struct BatchAssignCategoryRequest {
    pub archive_ids: Vec<i64>,
    pub category_id: i64,
}

impl BatchAssignCategoryRequest {
    /// Refused when no archive is given.
    pub fn check(&self) -> (r: Result<(), BadRequest>)
        ensures
            r is Ok <==> self.archive_ids@.len() > 0,
            r matches Err(m) ==> m@ == "archive_ids 不能为空"@,
    {
        if self.archive_ids.len() == 0 {
            Err(String::from_str("archive_ids 不能为空"))
        } else {
            Ok(())
        }
    }
}

/// The ids of a single category assignment: both must be positive
/// integers (`Invalid archive_id`, then `Invalid category_id`).
pub fn check_assign_ids(archive_id: Option<i64>, category_id: Option<i64>) -> (r: Result<(i64, i64), BadRequest>)
    ensures
        match (archive_id, category_id) {
            (Some(a), Some(c)) if a > 0 && c > 0 => r == Ok::<(i64, i64), BadRequest>((a, c)),
            (Some(a), _) if a > 0 => r matches Err(m) && m@ == "Invalid category_id"@,
            _ => r matches Err(m) && m@ == "Invalid archive_id"@,
        },
{
    let a = match archive_id {
        Some(a) => if a > 0 {
            a
        } else {
            return Err(String::from_str("Invalid archive_id"));
        },
        None => return Err(String::from_str("Invalid archive_id")),
    };
    let c = match category_id {
        Some(c) => if c > 0 {
            c
        } else {
            return Err(String::from_str("Invalid category_id"));
        },
        None => return Err(String::from_str("Invalid category_id")),
    };
    Ok((a, c))
}

/// A tag as created or updated.
pub struct TagQuery {
    pub namespace: Option<String>,
    pub name: String,
    pub color: Option<String>,
}

impl TagQuery {
    /// The stored fields: namespace (empty unless given), name, colour
    /// (the default colour unless given).
    pub fn fields(&self) -> (r: (String, String, String))
        ensures
            r.0@ == text_or(self.namespace, Seq::<char>::empty()),
            r.1@ == self.name@,
            r.2@ == text_or(self.color, default_color()),
    {
        let ns = text_or_default(&self.namespace, "");
        proof {
            reveal_strlit("");
        }
        (ns, self.name.clone(), text_or_default(&self.color, "#4a86e8"))
    }
}

/// A request to tag an archive.
pub struct AssignTagRequest {
    pub archive_id: i64,
    pub tag_id: i64,
}

// ---------------------------------------------------------------------------
// History, settings, metadata search
// ---------------------------------------------------------------------------

/// A reading position to record.
pub struct SaveHistory {
    pub archive_id: i64,
    pub page_index: i64,
    pub total_pages: i64,
}

/// The query of the reading history.
pub struct HistoryQuery {
    pub page: Option<i64>,
    pub limit: Option<i64>,
    pub search: Option<String>,
}

/// The page of the history asked for: 1 unless given, at least 1.
pub open spec fn history_page(page: Option<i64>) -> int {
    match page {
        Some(p) => if p < 1 {
            1
        } else {
            p as int
        },
        None => 1,
    }
}

/// The page size of the history: 30 unless given, within 1 ..= 200.
pub open spec fn history_limit(limit: Option<i64>) -> int {
    match limit {
        Some(l) => if l < 1 {
            1
        } else if l > 200 {
            200
        } else {
            l as int
        },
        None => 30,
    }
}

impl HistoryQuery {
    /// `(limit, offset)` of the page asked for; the offset is
    /// `(page - 1) * limit`, which the caller keeps within `i64`.
    pub fn window(&self) -> (r: (i64, i64))
        requires
            (history_page(self.page) - 1) * history_limit(self.limit) <= i64::MAX,
        ensures
            r.0 == history_limit(self.limit),
            r.1 == (history_page(self.page) - 1) * history_limit(self.limit),
    {
        let p: i64 = match self.page {
            Some(p) => if p < 1 {
                1
            } else {
                p
            },
            None => 1,
        };
        let l: i64 = match self.limit {
            Some(l) => if l < 1 {
                1
            } else if l > 200 {
                200
            } else {
                l
            },
            None => 30,
        };
        proof {
            assert(0 <= (p - 1) * l) by (nonlinear_arith)
                requires
                    p >= 1,
                    l >= 1,
            ;
        }
        (l, (p - 1) * l)
    }
}

/// The settings a client writes, as key and value.
pub struct UpdateSettings {
    pub settings: Vec<(String, String)>,
}

/// The first key, in the order given, that the peer may not write.
pub open spec fn first_forbidden(keys: Seq<(String, String)>, is_loopback: bool, i: int) -> Option<int>
    decreases keys.len() - i,
{
    if i < 0 || i >= keys.len() {
        None
    } else if !(is_loopback || !lan_sensitive(keys[i].0@)) {
        Some(i)
    } else {
        first_forbidden(keys, is_loopback, i + 1)
    }
}

impl UpdateSettings {
    /// Refused (`403`) as a whole when any key may not be written by this
    /// peer (see [`setting_key_writable`]), naming the first such key.
    pub fn check(&self, is_loopback: bool) -> (r: Result<(), String>)
        ensures
            match first_forbidden(self.settings@, is_loopback, 0) {
                None => r is Ok,
                Some(k) => r matches Err(m) && m@ == "设置 "@ + self.settings@[k].0@ + " 仅限本机修改"@,
            },
    {
        let mut i: usize = 0;
        while i < self.settings.len()
            invariant
                i <= self.settings@.len(),
                first_forbidden(self.settings@, is_loopback, 0) == first_forbidden(self.settings@, is_loopback, i as int),
            decreases self.settings.len() - i,
        {
            if !setting_key_writable(self.settings[i].0.as_str(), is_loopback) {
                let mut m = String::from_str("设置 ");
                push_str(&mut m, self.settings[i].0.as_str());
                push_str(&mut m, " 仅限本机修改");
                return Err(m);
            }
            i = i + 1;
        }
        Ok(())
    }
}

/// A request to change the library folder.
pub struct UpdateConfig {
    pub root_dir: String,
}

impl UpdateConfig {
    /// The settings it writes: `root_dir`.
    pub fn settings(&self) -> (r: Vec<(String, String)>)
        ensures
            r@.len() == 1,
            r@[0].0@ == "root_dir"@,
            r@[0].1@ == self.root_dir@,
    {
        let mut r: Vec<(String, String)> = Vec::new();
        r.push((String::from_str("root_dir"), self.root_dir.clone()));
        r
    }
}

/// The query of a metadata search.
pub struct SearchParams {
    pub q: String,
}

impl SearchParams {
    /// The search term: the query trimmed; refused (`q 不能为空`) when blank.
    pub fn term(&self) -> (r: Result<String, BadRequest>)
        ensures
            r matches Ok(t) ==> t@ == trim_ws(self.q@) && t@.len() > 0,
            r is Err <==> trim_ws(self.q@).len() == 0,
            r matches Err(m) ==> m@ == "q 不能为空"@,
    {
        match crate::metadata::search_term(self.q.as_str()) {
            Some(t) => Ok(t),
            None => Err(String::from_str("q 不能为空")),
        }
    }
}


// ---------------------------------------------------------------------------
// Jobs, packing, titles and the catalogue
// ---------------------------------------------------------------------------

/// A request to scan a library folder.
pub struct ScanRequest {
    pub path: Option<String>,
    pub depth: Option<u32>,
}

impl ScanRequest {
    /// What to scan and how deep: the requested path, else the configured
    /// root (nothing to scan when that is empty), walked to the depth that
    /// [`scan_depth_of`] gives.
    pub fn target(&self, configured_root: String, depth_setting: Option<&str>) -> (r: Option<(String, u32)>)
        ensures
            ({
                let chosen = match self.path {
                    Some(p) => p@,
                    None => configured_root@,
                };
                let depth = scan_depth_of(
                    self.depth,
                    match depth_setting {
                        Some(s) => Some(s@),
                        None => None,
                    },
                );
                &&& chosen.len() == 0 ==> r is None
                &&& chosen.len() > 0 ==> (r matches Some((p, d)) && p@ == chosen && d == depth)
            }),
    {
        let requested = match &self.path {
            Some(p) => Some(p.clone()),
            None => None,
        };
        match scan_root(requested, configured_root) {
            Some(root) => Some((root, scan_depth(self.depth, depth_setting))),
            None => None,
        }
    }
}

/// A request to pack a folder into a CBZ file.
pub struct PackCbzRequest {
    pub folder_path: String,
    pub output_dir: Option<String>,
}

impl PackCbzRequest {
    /// Where the packed file goes (see [`cbz_output_dir`]): the requested
    /// directory when given and not empty, else the setting when set and not
    /// empty; nowhere otherwise.
    pub fn destination(&self, setting: Option<&str>) -> (r: Option<String>)
        ensures
            match self.output_dir {
                Some(d) if d@.len() > 0 => r matches Some(x) && x@ == d@,
                _ => match setting {
                    Some(s) if s@.len() > 0 => r matches Some(x) && x@ == s@,
                    _ => r is None,
                },
            },
    {
        match &self.output_dir {
            Some(d) => cbz_output_dir(Some(d.as_str()), setting),
            None => cbz_output_dir(None, setting),
        }
    }
}

/// A request to convert archives to CBZ.
pub struct ConvertStartRequest {
    pub ids: Option<Vec<i64>>,
}

impl ConvertStartRequest {
    /// The archives asked for: the given ids, or all convertible archives
    /// (`None`) when none or an empty list is given.
    pub fn selection(self) -> (r: Option<Vec<i64>>)
        ensures
            match self.ids {
                Some(v) => if v@.len() > 0 {
                    r == Some(v)
                } else {
                    r is None
                },
                None => r is None,
            },
    {
        requested_ids(self.ids)
    }
}

/// A request to sync from (or preview a sync with) another library.
pub struct SyncStartRequest {
    pub url: String,
    pub token: Option<String>,
    pub dir: String,
}

impl SyncStartRequest {
    /// The remote address and local directory, trimmed, when acceptable
    /// (see [`check_sync_request`]).
    pub fn check(&self) -> (r: Result<(String, String), SyncRequestError>)
        ensures
            !outbound_ok(trim_ws(self.url@)) || trim_ws(self.dir@).len() == 0 ==> r == Err::<
                (String, String),
                SyncRequestError,
            >(SyncRequestError::BadTarget),
            outbound_ok(trim_ws(self.url@)) && trim_ws(self.dir@).len() > 0 && trim_ws(self.dir@)[0] != '/'
                ==> r == Err::<(String, String), SyncRequestError>(SyncRequestError::RelativeDirectory),
            outbound_ok(trim_ws(self.url@)) && trim_ws(self.dir@).len() > 0 && trim_ws(self.dir@)[0] == '/'
                ==> (r matches Ok((u, d)) && u@ == trim_ws(self.url@) && d@ == trim_ws(self.dir@)),
    {
        check_sync_request(self.url.as_str(), self.dir.as_str())
    }

    /// The access token sent to the remote library (empty when none).
    pub fn token_text(&self) -> (r: String)
        ensures
            r@ == text_or_empty(self.token),
    {
        match &self.token {
            Some(t) => t.clone(),
            None => String::new(),
        }
    }
}

/// A request to rename an archive.
pub struct UpdateTitleRequest {
    pub title: String,
}

/// The paging of an OPDS catalogue request.
pub struct OpdsQuery {
    pub page: Option<i64>,
    pub limit: Option<i64>,
}

impl OpdsQuery {
    /// `(limit, offset)`: `limit` entries (20 unless given) after skipping
    /// `(page - 1) * limit` (page 1 unless given).
    pub fn window(&self) -> (r: (i64, i64))
        requires
            ({
                let p = match self.page {
                    Some(p) => p as int,
                    None => 1,
                };
                let l = match self.limit {
                    Some(l) => l as int,
                    None => 20,
                };
                i64::MIN <= (p - 1) * l <= i64::MAX && i64::MIN <= p - 1
            }),
        ensures
            ({
                let p = match self.page {
                    Some(p) => p as int,
                    None => 1,
                };
                let l = match self.limit {
                    Some(l) => l as int,
                    None => 20,
                };
                r.0 == l && r.1 == (p - 1) * l
            }),
    {
        catalog_window(self.page, self.limit)
    }
}

} // verus!

//! The manifest another library answers with when this one pulls from it:
//! its archives, which must all be complete, and the tags, categories,
//! links and reading positions, read as far as their fields are present.

use vstd::prelude::*;
use crate::json::{
    array_member, as_flag, as_int, as_items, as_text, get_member, json_of_text, member, model, opt_model,
    parse_json, JsonModel, JsonNumber, JsonValue,
};
use crate::sync::{ManifestArchive, ManifestCategory, ManifestHistory, ManifestTag, TitleLink};

verus! {

/// A manifest as read.
pub struct SyncManifest {
    pub archives: Vec<ManifestArchive>,
    pub tags: Vec<ManifestTag>,
    pub categories: Vec<ManifestCategory>,
    pub archive_tags: Vec<TitleLink>,
    pub archive_categories: Vec<TitleLink>,
    pub history: Vec<ManifestHistory>,
}

/// Why a manifest was refused.
#[derive(Clone, Copy, PartialEq, Eq, Structural, Debug)]
pub enum ManifestError {
    /// The answer is not JSON.
    NotJson,
    /// `archives` is missing, not a list, or holds an incomplete entry.
    BadArchives,
}

/// The text of an optional string.
pub open spec fn opt_text(s: Option<String>) -> Option<Seq<char>> {
    match s {
        Some(t) => Some(t@),
        None => None,
    }
}

/// The items of the list under `key`; none when it is not a list.
pub open spec fn list_items(root: JsonModel, key: Seq<char>) -> Seq<JsonModel> {
    match as_items(member(root, key)) {
        Some(xs) => xs,
        None => Seq::<JsonModel>::empty(),
    }
}

/// A field of an archive entry: the member `key` of an object, or the
/// item at `pos` of a list of exactly the six fields in order (`id`,
/// `title`, `archive_type`, `page_count`, `file_size`, `file_mtime`).
pub open spec fn entry_field(e: JsonModel, key: Seq<char>, pos: int) -> Option<JsonModel> {
    match e {
        JsonModel::Object(_) => member(e, key),
        JsonModel::Array(xs) => if xs.len() == 6 && 0 <= pos < 6 {
            Some(xs[pos])
        } else {
            None
        },
        _ => None,
    }
}

/// The content of an archive of the manifest: id, title, type, page count,
/// size and modification time.
pub open spec fn archive_view(a: ManifestArchive) -> (i64, Seq<char>, Seq<char>, i64, i64, i64) {
    (a.id, a.title@, a.archive_type@, a.page_count, a.file_size, a.file_mtime)
}

/// The archive an entry describes: all six fields present, the texts as
/// strings and the numbers as integers that fit an `i64`; else none.
pub open spec fn archive_entry(e: JsonModel) -> Option<(i64, Seq<char>, Seq<char>, i64, i64, i64)> {
    let id = as_int(entry_field(e, "id"@, 0));
    let title = as_text(entry_field(e, "title"@, 1));
    let ty = as_text(entry_field(e, "archive_type"@, 2));
    let pages = as_int(entry_field(e, "page_count"@, 3));
    let size = as_int(entry_field(e, "file_size"@, 4));
    let mtime = as_int(entry_field(e, "file_mtime"@, 5));
    if id is Some && title is Some && ty is Some && pages is Some && size is Some && mtime is Some {
        Some((id->0, title->0, ty->0, pages->0, size->0, mtime->0))
    } else {
        None
    }
}

/// Whether the manifest's archives can be read: `archives` is a list and
/// each of its entries is complete.
pub open spec fn archives_readable(root: JsonModel) -> bool {
    &&& as_items(member(root, "archives"@)) is Some
    &&& forall|i: int|
        0 <= i < list_items(root, "archives"@).len() ==> (#[trigger] archive_entry(
            list_items(root, "archives"@)[i],
        )) is Some
}

/// A tag read from an entry.
pub open spec fn tag_read(t: ManifestTag, e: JsonModel) -> bool {
    &&& opt_text(t.namespace) == as_text(member(e, "namespace"@))
    &&& opt_text(t.name) == as_text(member(e, "name"@))
    &&& opt_text(t.color) == as_text(member(e, "color"@))
}

/// A category read from an entry.
pub open spec fn category_read(c: ManifestCategory, e: JsonModel) -> bool {
    &&& opt_text(c.name) == as_text(member(e, "name"@))
    &&& opt_text(c.color) == as_text(member(e, "color"@))
    &&& c.pinned == as_flag(member(e, "pinned"@))
    &&& opt_text(c.search) == as_text(member(e, "search"@))
}

/// A link read from an entry; a category link has no namespace.
pub open spec fn link_read(l: TitleLink, e: JsonModel, with_namespace: bool) -> bool {
    &&& opt_text(l.title) == as_text(member(e, "title"@))
    &&& opt_text(l.namespace) == (if with_namespace {
        as_text(member(e, "namespace"@))
    } else {
        None
    })
    &&& opt_text(l.name) == as_text(member(e, "name"@))
}

/// A reading position read from an entry.
pub open spec fn history_read(h: ManifestHistory, e: JsonModel) -> bool {
    &&& opt_text(h.title) == as_text(member(e, "title"@))
    &&& h.page_index == as_int(member(e, "page_index"@))
    &&& h.total_pages == as_int(member(e, "total_pages"@))
}

/// A manifest read from a document whose archives are readable: each list
/// entry for entry, a missing list or one that is not a list read as empty.
pub open spec fn manifest_read(m: SyncManifest, root: JsonModel) -> bool {
    let archives = list_items(root, "archives"@);
    let tags = list_items(root, "tags"@);
    let cats = list_items(root, "categories"@);
    let tag_links = list_items(root, "archive_tags"@);
    let cat_links = list_items(root, "archive_categories"@);
    let history = list_items(root, "history"@);
    &&& m.archives@.len() == archives.len()
    &&& forall|i: int|
        0 <= i < archives.len() ==> archive_entry(archives[i]) == Some(
            archive_view(#[trigger] m.archives@[i]),
        )
    &&& m.tags@.len() == tags.len()
    &&& forall|i: int| 0 <= i < tags.len() ==> tag_read(#[trigger] m.tags@[i], tags[i])
    &&& m.categories@.len() == cats.len()
    &&& forall|i: int| 0 <= i < cats.len() ==> category_read(#[trigger] m.categories@[i], cats[i])
    &&& m.archive_tags@.len() == tag_links.len()
    &&& forall|i: int| 0 <= i < tag_links.len() ==> link_read(#[trigger] m.archive_tags@[i], tag_links[i], true)
    &&& m.archive_categories@.len() == cat_links.len()
    &&& forall|i: int|
        0 <= i < cat_links.len() ==> link_read(#[trigger] m.archive_categories@[i], cat_links[i], false)
    &&& m.history@.len() == history.len()
    &&& forall|i: int| 0 <= i < history.len() ==> history_read(#[trigger] m.history@[i], history[i])
}

fn text_of(v: Option<&JsonValue>) -> (r: Option<String>)
    ensures
        opt_text(r) == as_text(opt_model(v)),
{
    match v {
        Some(JsonValue::Str(s)) => Some(s.clone()),
        _ => None,
    }
}

fn int_of(v: Option<&JsonValue>) -> (r: Option<i64>)
    ensures
        r == as_int(opt_model(v)),
{
    match v {
        Some(JsonValue::Number(JsonNumber::PosInt(u))) => if *u <= 9223372036854775807 {
            Some(*u as i64)
        } else {
            None
        },
        Some(JsonValue::Number(JsonNumber::NegInt(i))) => Some(*i),
        _ => None,
    }
}

fn flag_of(v: Option<&JsonValue>) -> (r: Option<bool>)
    ensures
        r == as_flag(opt_model(v)),
{
    match v {
        Some(JsonValue::Bool(b)) => Some(*b),
        _ => None,
    }
}

fn field_of<'a>(e: &'a JsonValue, key: &str, pos: usize) -> (r: Option<&'a JsonValue>)
    requires
        pos < 6,
    ensures
        opt_model(r) == entry_field(model(*e), key@, pos as int),
{
    match e {
        JsonValue::Object(_) => get_member(e, key),
        JsonValue::Array(items) => {
            if items.len() == 6 {
                Some(&items[pos])
            } else {
                None
            }
        },
        _ => None,
    }
}

fn archive_from(e: &JsonValue) -> (r: Option<ManifestArchive>)
    ensures
        match r {
            Some(a) => archive_entry(model(*e)) == Some(archive_view(a)),
            None => archive_entry(model(*e)) is None,
        },
{
    let id = int_of(field_of(e, "id", 0));
    let title = text_of(field_of(e, "title", 1));
    let archive_type = text_of(field_of(e, "archive_type", 2));
    let page_count = int_of(field_of(e, "page_count", 3));
    let file_size = int_of(field_of(e, "file_size", 4));
    let file_mtime = int_of(field_of(e, "file_mtime", 5));
    match (id, title, archive_type, page_count, file_size, file_mtime) {
        (Some(id), Some(title), Some(archive_type), Some(page_count), Some(file_size), Some(file_mtime)) => Some(
            ManifestArchive { id, title, archive_type, page_count, file_size, file_mtime },
        ),
        _ => None,
    }
}

fn read_archives(root: &JsonValue) -> (r: Option<Vec<ManifestArchive>>)
    ensures
        r is Some <==> archives_readable(model(*root)),
        r matches Some(v) ==> v@.len() == list_items(model(*root), "archives"@).len() && forall|i: int|
            0 <= i < v@.len() ==> archive_entry(list_items(model(*root), "archives"@)[i]) == Some(
                archive_view(#[trigger] v@[i]),
            ),
{
    let ghost m = model(*root);
    match array_member(root, "archives") {
        Some(items) => {
            let ghost xs = Seq::new(items@.len(), |i: int| model(items@[i]));
            assert(list_items(m, "archives"@) == xs);
            let mut r: Vec<ManifestArchive> = Vec::new();
            let mut i: usize = 0;
            while i < items.len()
                invariant
                    i <= items@.len(),
                    xs == Seq::new(items@.len(), |i: int| model(items@[i])),
                    m == model(*root),
                    list_items(m, "archives"@) == xs,
                    r@.len() == i,
                    forall|k: int| 0 <= k < i ==> archive_entry(xs[k]) == Some(archive_view(#[trigger] r@[k])),
                decreases items.len() - i,
            {
                match archive_from(&items[i]) {
                    Some(a) => {
                        r.push(a);
                    },
                    None => {
                        assert(xs[i as int] == model(items@[i as int]));
                        assert(archive_entry(list_items(m, "archives"@)[i as int]) is None);
                        return None;
                    },
                }
                i = i + 1;
            }
            assert forall|k: int| 0 <= k < xs.len() implies (#[trigger] archive_entry(xs[k])) is Some by {
                assert(archive_entry(xs[k]) == Some(archive_view(r@[k])));
            }
            Some(r)
        },
        None => None,
    }
}

fn read_tags(root: &JsonValue) -> (r: Vec<ManifestTag>)
    ensures
        r@.len() == list_items(model(*root), "tags"@).len(),
        forall|i: int| 0 <= i < r@.len() ==> tag_read(#[trigger] r@[i], list_items(model(*root), "tags"@)[i]),
{
    let ghost m = model(*root);
    let mut r: Vec<ManifestTag> = Vec::new();
    match array_member(root, "tags") {
        Some(items) => {
            let ghost xs = Seq::new(items@.len(), |i: int| model(items@[i]));
            assert(list_items(m, "tags"@) == xs);
            let mut i: usize = 0;
            while i < items.len()
                invariant
                    i <= items@.len(),
                    xs == Seq::new(items@.len(), |i: int| model(items@[i])),
                    r@.len() == i,
                    forall|k: int| 0 <= k < i ==> tag_read(#[trigger] r@[k], xs[k]),
                decreases items.len() - i,
            {
                let e = &items[i];
                r.push(ManifestTag {
                    namespace: text_of(get_member(e, "namespace")),
                    name: text_of(get_member(e, "name")),
                    color: text_of(get_member(e, "color")),
                });
                i = i + 1;
            }
        },
        None => {},
    }
    r
}

fn read_categories(root: &JsonValue) -> (r: Vec<ManifestCategory>)
    ensures
        r@.len() == list_items(model(*root), "categories"@).len(),
        forall|i: int|
            0 <= i < r@.len() ==> category_read(#[trigger] r@[i], list_items(model(*root), "categories"@)[i]),
{
    let ghost m = model(*root);
    let mut r: Vec<ManifestCategory> = Vec::new();
    match array_member(root, "categories") {
        Some(items) => {
            let ghost xs = Seq::new(items@.len(), |i: int| model(items@[i]));
            assert(list_items(m, "categories"@) == xs);
            let mut i: usize = 0;
            while i < items.len()
                invariant
                    i <= items@.len(),
                    xs == Seq::new(items@.len(), |i: int| model(items@[i])),
                    r@.len() == i,
                    forall|k: int| 0 <= k < i ==> category_read(#[trigger] r@[k], xs[k]),
                decreases items.len() - i,
            {
                let e = &items[i];
                r.push(ManifestCategory {
                    name: text_of(get_member(e, "name")),
                    color: text_of(get_member(e, "color")),
                    pinned: flag_of(get_member(e, "pinned")),
                    search: text_of(get_member(e, "search")),
                });
                i = i + 1;
            }
        },
        None => {},
    }
    r
}

fn read_links(root: &JsonValue, key: &str, with_namespace: bool) -> (r: Vec<TitleLink>)
    ensures
        r@.len() == list_items(model(*root), key@).len(),
        forall|i: int|
            0 <= i < r@.len() ==> link_read(#[trigger] r@[i], list_items(model(*root), key@)[i], with_namespace),
{
    let ghost m = model(*root);
    let mut r: Vec<TitleLink> = Vec::new();
    match array_member(root, key) {
        Some(items) => {
            let ghost xs = Seq::new(items@.len(), |i: int| model(items@[i]));
            assert(list_items(m, key@) == xs);
            let mut i: usize = 0;
            while i < items.len()
                invariant
                    i <= items@.len(),
                    xs == Seq::new(items@.len(), |i: int| model(items@[i])),
                    r@.len() == i,
                    forall|k: int| 0 <= k < i ==> link_read(#[trigger] r@[k], xs[k], with_namespace),
                decreases items.len() - i,
            {
                let e = &items[i];
                let namespace = if with_namespace {
                    text_of(get_member(e, "namespace"))
                } else {
                    None
                };
                r.push(TitleLink { title: text_of(get_member(e, "title")), namespace, name: text_of(get_member(e, "name")) });
                i = i + 1;
            }
        },
        None => {},
    }
    r
}

fn read_history(root: &JsonValue) -> (r: Vec<ManifestHistory>)
    ensures
        r@.len() == list_items(model(*root), "history"@).len(),
        forall|i: int| 0 <= i < r@.len() ==> history_read(#[trigger] r@[i], list_items(model(*root), "history"@)[i]),
{
    let ghost m = model(*root);
    let mut r: Vec<ManifestHistory> = Vec::new();
    match array_member(root, "history") {
        Some(items) => {
            let ghost xs = Seq::new(items@.len(), |i: int| model(items@[i]));
            assert(list_items(m, "history"@) == xs);
            let mut i: usize = 0;
            while i < items.len()
                invariant
                    i <= items@.len(),
                    xs == Seq::new(items@.len(), |i: int| model(items@[i])),
                    r@.len() == i,
                    forall|k: int| 0 <= k < i ==> history_read(#[trigger] r@[k], xs[k]),
                decreases items.len() - i,
            {
                let e = &items[i];
                r.push(ManifestHistory {
                    title: text_of(get_member(e, "title")),
                    page_index: int_of(get_member(e, "page_index")),
                    total_pages: int_of(get_member(e, "total_pages")),
                });
                i = i + 1;
            }
        },
        None => {},
    }
    r
}

/// Reads a manifest document: refused when its archives cannot be read.
pub fn read_manifest(root: &JsonValue) -> (r: Result<SyncManifest, ManifestError>)
    ensures
        match r {
            Ok(m) => archives_readable(model(*root)) && manifest_read(m, model(*root)),
            Err(e) => e == ManifestError::BadArchives && !archives_readable(model(*root)),
        },
{
    match read_archives(root) {
        Some(archives) => Ok(SyncManifest {
            archives,
            tags: read_tags(root),
            categories: read_categories(root),
            archive_tags: read_links(root, "archive_tags", true),
            archive_categories: read_links(root, "archive_categories", false),
            history: read_history(root),
        }),
        None => Err(ManifestError::BadArchives),
    }
}

/// Reads the manifest from the text of the answer.
pub fn parse_manifest(body: &str) -> (r: Result<SyncManifest, ManifestError>)
    ensures
        match json_of_text(body@) {
            None => r == Err::<SyncManifest, ManifestError>(ManifestError::NotJson),
            Some(root) => match r {
                Ok(m) => archives_readable(root) && manifest_read(m, root),
                Err(e) => e == ManifestError::BadArchives && !archives_readable(root),
            },
        },
{
    match parse_json(body) {
        Some(root) => read_manifest(&root),
        None => Err(ManifestError::NotJson),
    }
}

} // verus!

//! The library's records: archives, tags, categories, reading history,
//! cached pages, settings, and the cards of the library list.

use vstd::prelude::*;
use crate::text::{copy_opt_string, copy_string};

verus! {

/// One archive as the database stores it.
#[derive(Debug)]
pub struct ArchiveRow {
    pub id: i64,
    pub title: String,
    pub path: String,
    pub archive_type: String,
    pub page_count: i64,
    pub cover_image: Option<String>,
    pub file_size: i64,
    pub thumbnail_path: Option<String>,
    pub group_id: Option<i64>,
    pub created_at: String,
    pub updated_at: String,
}

impl ArchiveRow {
    /// An exact copy.
    pub fn copy(&self) -> (r: Self)
        ensures
            r == *self,
    {
        ArchiveRow {
            id: self.id,
            title: copy_string(&self.title),
            path: copy_string(&self.path),
            archive_type: copy_string(&self.archive_type),
            page_count: self.page_count,
            cover_image: copy_opt_string(&self.cover_image),
            file_size: self.file_size,
            thumbnail_path: copy_opt_string(&self.thumbnail_path),
            group_id: self.group_id,
            created_at: copy_string(&self.created_at),
            updated_at: copy_string(&self.updated_at),
        }
    }
}

/// One card of a grouped page: the group's representative and its size.
#[derive(Debug)]
pub struct GroupedArchiveRow {
    pub archive: ArchiveRow,
    pub chapter_count: i64,
}

/// A tag, with the number of archives that carry it.
#[derive(Debug)]
pub struct TagRow {
    pub id: i64,
    pub namespace: String,
    pub name: String,
    pub color: String,
    pub archive_count: i64,
}

impl TagRow {
    /// An exact copy.
    pub fn copy(&self) -> (r: Self)
        ensures
            r == *self,
    {
        TagRow {
            id: self.id,
            namespace: copy_string(&self.namespace),
            name: copy_string(&self.name),
            color: copy_string(&self.color),
            archive_count: self.archive_count,
        }
    }
}

/// A category (static, or dynamic through a title search), with its size.
#[derive(Debug)]
pub struct CategoryRow {
    pub id: i64,
    pub name: String,
    pub color: String,
    pub pinned: bool,
    pub search: String,
    pub created_at: String,
    pub archive_count: i64,
}

/// The reading position of one archive.
#[derive(Debug)]
pub struct HistoryRow {
    pub archive_id: i64,
    pub page_index: i64,
    pub total_pages: i64,
    pub updated_at: String,
}

/// One entry of an archive's cached page list.
#[derive(Debug)]
pub struct PageRow {
    pub id: i64,
    pub archive_id: i64,
    pub filename: String,
    pub filepath: String,
    pub sort_order: i64,
}

/// A tag as two machines agree on it: by namespace and name, never by id.
#[derive(Debug)]
pub struct TagRef {
    pub namespace: String,
    pub name: String,
    pub color: String,
}

/// An archive as the API presents it.
#[derive(Debug)]
pub struct Archive {
    pub id: i64,
    pub title: String,
    pub path: String,
    pub archive_type: String,
    pub page_count: i64,
    pub cover_image: Option<String>,
    pub file_size: i64,
    pub created_at: String,
    pub updated_at: String,
}

/// A page with its image dimensions.
#[derive(Debug)]
pub struct Page {
    pub id: i64,
    pub archive_id: i64,
    pub filename: String,
    pub filepath: String,
    pub sort_order: i64,
    pub width: i64,
    pub height: i64,
    pub file_size: i64,
}

/// A tag.
#[derive(Debug)]
pub struct Tag {
    pub id: i64,
    pub namespace: String,
    pub name: String,
    pub color: String,
}

/// A category.
#[derive(Debug)]
pub struct Category {
    pub id: i64,
    pub name: String,
    pub color: String,
    pub pinned: bool,
    pub search: String,
    pub created_at: String,
}

/// A reading position.
#[derive(Debug)]
pub struct History {
    pub archive_id: i64,
    pub page_index: i64,
    pub total_pages: i64,
    pub updated_at: String,
}

/// One setting.
#[derive(Debug)]
pub struct Setting {
    pub key: String,
    pub value: String,
}

/// An archive with everything attached to it.
#[derive(Debug)]
pub struct ArchiveWithTags {
    pub archive: Archive,
    pub tags: Vec<Tag>,
    pub categories: Vec<Category>,
    pub history: Option<History>,
}

/// One card of the library list: a plain archive or a merged group.
#[derive(Debug)]
pub struct ListItem {
    /// The archive shown on the card (a group's representative).
    pub archive: ArchiveRow,
    /// Whether the card stands for several archives.
    pub is_group: bool,
    /// Number of archives in a group card.
    pub chapter_count: Option<i64>,
    /// Set on groups formed by title and folder rather than by an explicit merge.
    pub auto_group: Option<bool>,
    /// The key of an automatic group.
    pub auto_key: Option<String>,
    /// The folder of an automatic group.
    pub parent_dir: Option<String>,
    /// Last read page (0-based), when known.
    pub read_page: Option<i64>,
    /// The archive's tags, when attached.
    pub tags: Option<Vec<TagRow>>,
}

} // verus!

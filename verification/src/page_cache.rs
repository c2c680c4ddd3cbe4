//! The process-wide memory of archives' page lists, and which source a page
//! list is taken from: that memory, the list stored in the database, or a
//! fresh listing of the archive.

use std::collections::HashMap;
use vstd::prelude::*;
use vstd::std_specs::iter::IteratorSpec;
use crate::models::PageRow;

verus! {

/// The most page lists kept in memory.
pub const PAGE_LIST_CACHE_MAX: usize = 256;

/// The page lists in memory, each under its archive's id with the archive
/// modification time it was read at.
pub struct PageListCache {
    lists: HashMap<i64, (i64, Vec<PageRow>)>,
}

fn copy_rows(v: &Vec<PageRow>) -> (r: Vec<PageRow>)
    ensures
        r@ == v@,
{
    let mut r: Vec<PageRow> = Vec::new();
    let mut i: usize = 0;
    while i < v.len()
        invariant
            i <= v@.len(),
            r@ == v@.take(i as int),
        decreases v.len() - i,
    {
        let p = &v[i];
        r.push(PageRow {
            id: p.id,
            archive_id: p.archive_id,
            filename: p.filename.clone(),
            filepath: p.filepath.clone(),
            sort_order: p.sort_order,
        });
        assert(v@.take(i as int + 1) =~= v@.take(i as int).push(v@[i as int]));
        i = i + 1;
    }
    assert(v@.take(v@.len() as int) =~= v@);
    r
}

impl PageListCache {
    /// At most [`PAGE_LIST_CACHE_MAX`] lists.
    pub closed spec fn wf(&self) -> bool {
        self.lists@.len() <= PAGE_LIST_CACHE_MAX
    }

    /// The list remembered for an archive, with its modification time.
    pub closed spec fn entry(&self, id: i64) -> Option<(i64, Seq<PageRow>)> {
        if self.lists@.contains_key(id) {
            Some((self.lists@[id].0, self.lists@[id].1@))
        } else {
            None
        }
    }

    /// How many lists are remembered.
    pub closed spec fn size(&self) -> nat {
        self.lists@.len()
    }

    /// An empty memory.
    pub fn new() -> (r: Self)
        ensures
            r.wf(),
            r.size() == 0,
            forall|id: i64| r.entry(id) is None,
    {
        PageListCache { lists: HashMap::new() }
    }

    /// The remembered list of an archive, when it was read at `mtime`.
    pub fn get(&self, id: i64, mtime: i64) -> (r: Option<Vec<PageRow>>)
        requires
            self.wf(),
        ensures
            match r {
                Some(rows) => self.entry(id) == Some((mtime, rows@)),
                None => !(self.entry(id) matches Some((m, _)) && m == mtime),
            },
    {
        match self.lists.get(&id) {
            Some(e) => {
                if e.0 == mtime {
                    Some(copy_rows(&e.1))
                } else {
                    None
                }
            },
            None => None,
        }
    }

    /// Remembers an archive's list read at `mtime`, replacing what was
    /// remembered for it. When a new archive finds the memory full, one
    /// other list is forgotten first.
    pub fn put(&mut self, id: i64, mtime: i64, rows: Vec<PageRow>)
        requires
            old(self).wf(),
        ensures
            final(self).wf(),
            final(self).entry(id) == Some((mtime, rows@)),
            old(self).entry(id) is Some ==> final(self).size() == old(self).size(),
            old(self).entry(id) is None && old(self).size() < PAGE_LIST_CACHE_MAX ==> final(self).size()
                == old(self).size() + 1,
            old(self).entry(id) is None && old(self).size() >= PAGE_LIST_CACHE_MAX ==> final(self).size()
                == PAGE_LIST_CACHE_MAX,
            forall|other: i64|
                other != id ==> #[trigger] final(self).entry(other) == old(self).entry(other) || (
                final(self).entry(other) is None && old(self).entry(id) is None && old(self).size()
                    >= PAGE_LIST_CACHE_MAX),
    {
        let ghost m0 = self.lists@;
        if !self.lists.contains_key(&id) && self.lists.len() >= PAGE_LIST_CACHE_MAX {
            let mut victim: Option<i64> = None;
            for k in it: self.lists.keys()
                invariant_except_break
                    victim is None,
                    it.index() == 0,
                invariant
                    self.lists@ == m0,
                    it.seq().unref().to_set() == m0.dom(),
                    it.seq().len() == m0.dom().len() > 0,
                ensures
                    victim matches Some(v) && m0.contains_key(v),
            {
                proof {
                    assert(it.seq().unref()[it.index()] == *k);
                    assert(it.seq().unref().contains(*k));
                }
                victim = Some(*k);
                break;
            }
            match victim {
                Some(key) => {
                    self.lists.remove(&key);
                },
                None => {},
            }
        }
        self.lists.insert(id, (mtime, rows));
    }
}

/// Whether the list stored in the database may serve a page request: only
/// for a packed archive, and only when it was stored at the archive's
/// current modification time (and is not empty). A folder is always
/// listed afresh, and a fresh list of a packed archive is stored again.
pub open spec fn stored_list_fresh(compressed: bool, stored_mtime: Option<i64>, mtime: i64) -> bool {
    compressed && stored_mtime == Some(mtime)
}

/// Whether to read the stored list (see [`stored_list_fresh`]).
pub fn use_stored_list(compressed: bool, stored_mtime: Option<i64>, mtime: i64) -> (r: bool)
    ensures
        r == stored_list_fresh(compressed, stored_mtime, mtime),
{
    compressed && match stored_mtime {
        Some(m) => m == mtime,
        None => false,
    }
}

} // verus!

//! The library list: which rows a request asks for, the page window, and
//! the reading progress and tags attached to each card.

use vstd::prelude::*;
use crate::models::{ArchiveRow, ListItem, TagRow};
use crate::paths::{last_real_before, last_real_before_exec, parent_dir, parent_dir_chars, segments_of};
use crate::text::{chars_eq, chars_of, seqs_of, split_on, trim_end_seps, trim_end_seps_exec};

verus! {

// ---------------------------------------------------------------------------
// The page window
// ---------------------------------------------------------------------------

/// The page a list request asks for: 1 unless given, at least 1.
pub open spec fn page_of(page: Option<i64>) -> int {
    match page {
        Some(p) => if p < 1 {
            1
        } else {
            p as int
        },
        None => 1,
    }
}

/// The page size a list request asks for: 20 unless given, kept within
/// 1 ..= 500.
pub open spec fn limit_of(limit: Option<i64>) -> int {
    match limit {
        Some(l) => if l < 1 {
            1
        } else if l > 500 {
            500
        } else {
            l as int
        },
        None => 20,
    }
}

/// The number of cards skipped before the page: `(page - 1) * limit`, or 0
/// when that does not fit an `i64`.
pub open spec fn offset_of(page: Option<i64>, limit: Option<i64>) -> int {
    let o = (page_of(page) - 1) * limit_of(limit);
    if o <= i64::MAX {
        o
    } else {
        0
    }
}

/// The window of a list request: `(offset, limit)` (see [`offset_of`] and
/// [`limit_of`]).
pub fn list_window(page: Option<i64>, limit: Option<i64>) -> (r: (i64, i64))
    ensures
        r.0 == offset_of(page, limit),
        r.1 == limit_of(limit),
        r.0 >= 0,
        1 <= r.1 <= 500,
{
    let p: i64 = match page {
        Some(p) => if p < 1 {
            1
        } else {
            p
        },
        None => 1,
    };
    let l: i64 = match limit {
        Some(l) => if l < 1 {
            1
        } else if l > 500 {
            500
        } else {
            l
        },
        None => 20,
    };
    proof {
        assert(0 <= (p - 1) * l) by (nonlinear_arith)
            requires
                p >= 1,
                l >= 1,
        ;
    }
    let o: i64 = match (p - 1).checked_mul(l) {
        Some(o) => o,
        None => 0,
    };
    (o, l)
}

/// The cards of one page: those at `offset ..< offset + limit`, clipped to
/// the list.
pub open spec fn window<A>(s: Seq<A>, offset: int, limit: int) -> Seq<A> {
    let start = if offset < s.len() {
        offset
    } else {
        s.len() as int
    };
    let end = if start + limit < s.len() {
        start + limit
    } else {
        s.len() as int
    };
    s.subrange(start, end)
}

/// Cuts one page out of the cards (see [`window`]): `skip(offset)` then
/// `take(limit)`.
pub fn page_slice(items: Vec<ListItem>, offset: i64, limit: i64) -> (r: Vec<ListItem>)
    requires
        offset >= 0,
        limit >= 0,
    ensures
        r@ == window(items@, offset as int, limit as int),
{
    let mut items = items;
    let ghost all = items@;
    let start: usize = if (offset as u64) < (items.len() as u64) {
        offset as usize
    } else {
        items.len()
    };
    let mut tail = items.split_off(start);
    assert(tail@ =~= all.subrange(start as int, all.len() as int));
    let keep: usize = if (limit as u64) < (tail.len() as u64) {
        limit as usize
    } else {
        tail.len()
    };
    tail.truncate(keep);
    assert(tail@ =~= window(all, offset as int, limit as int));
    tail
}

// ---------------------------------------------------------------------------
// Rows of one folder
// ---------------------------------------------------------------------------

/// `Path::parent` of a path, as text with trailing separators trimmed;
/// `None` for a path without one (the root, the empty path).
pub open spec fn parent_of(path: Seq<char>) -> Option<Seq<char>> {
    let segs = split_on(path, '/');
    if last_real_before(segs, segs.len() as int) < 0 {
        None
    } else {
        Some(parent_dir(path))
    }
}

/// Whether a row lies directly in the folder `parent` (both compared with
/// trailing `/` and `\` trimmed).
pub open spec fn in_folder(row: ArchiveRow, parent: Seq<char>) -> bool {
    parent_of(row.path@) == Some(trim_end_seps(parent))
}

fn parent_exec(path: &str) -> (r: Option<Vec<char>>)
    ensures
        match r {
            Some(p) => parent_of(path@) == Some(p@),
            None => parent_of(path@) is None,
        },
{
    let v = chars_of(path);
    let segs = segments_of(v.as_slice());
    if last_real_before_exec(&segs, segs.len()).is_none() {
        return None;
    }
    Some(parent_dir_chars(v.as_slice()))
}

/// The rows that lie directly in the folder `parent` (see [`in_folder`]),
/// in order.
pub fn keep_in_folder(rows: Vec<ArchiveRow>, parent: &str) -> (r: Vec<ArchiveRow>)
    ensures
        r@ == rows@.filter(|row: ArchiveRow| in_folder(row, parent@)),
{
    let pv = chars_of(parent);
    let target = trim_end_seps_exec(&pv);
    let mut r: Vec<ArchiveRow> = Vec::new();
    let mut i: usize = 0;
    while i < rows.len()
        invariant
            i <= rows@.len(),
            target@ == trim_end_seps(parent@),
            r@ == rows@.take(i as int).filter(|row: ArchiveRow| in_folder(row, parent@)),
        decreases rows.len() - i,
    {
        let ghost before = rows@.take(i as int);
        assert(rows@.take(i as int + 1) =~= before.push(rows@[i as int]));
        proof {
            before.lemma_filter_push(rows@[i as int], |row: ArchiveRow| in_folder(row, parent@));
        }
        let keep = match parent_exec(rows[i].path.as_str()) {
            Some(p) => chars_eq(p.as_slice(), target.as_slice()),
            None => false,
        };
        if keep {
            r.push(rows[i].copy());
        }
        i = i + 1;
    }
    assert(rows@.take(rows@.len() as int) =~= rows@);
    r
}

// ---------------------------------------------------------------------------
// Progress and tags on the cards
// ---------------------------------------------------------------------------

/// The value recorded for `id` among `(id, value)` pairs: the last one, as
/// collecting the pairs into a map keeps it.
pub open spec fn last_value<V>(pairs: Seq<(i64, V)>, id: i64) -> Option<V>
    decreases pairs.len(),
{
    if pairs.len() == 0 {
        None
    } else if pairs.last().0 == id {
        Some(pairs.last().1)
    } else {
        last_value(pairs.drop_last(), id)
    }
}

/// The last page read of an archive, from `(archive id, page)` pairs.
pub fn progress_for(progress: &Vec<(i64, i64)>, id: i64) -> (r: Option<i64>)
    ensures
        r == last_value(progress@, id),
{
    let mut k: usize = progress.len();
    assert(progress@.take(k as int) =~= progress@);
    while k > 0
        invariant
            k <= progress@.len(),
            last_value(progress@, id) == last_value(progress@.take(k as int), id),
        decreases k,
    {
        if progress[k - 1].0 == id {
            return Some(progress[k - 1].1);
        }
        assert(progress@.take(k as int).drop_last() =~= progress@.take(k as int - 1));
        k = k - 1;
    }
    None
}

/// The tags shown on an archive's card, from `(archive id, tags)` pairs:
/// the recorded list, or none.
pub open spec fn tags_for(tags: Seq<(i64, Vec<TagRow>)>, id: i64) -> Seq<TagRow> {
    match last_value(tags, id) {
        Some(v) => v@,
        None => Seq::<TagRow>::empty(),
    }
}

fn copy_tags(v: &Vec<TagRow>) -> (r: Vec<TagRow>)
    ensures
        r@ == v@,
{
    let mut r: Vec<TagRow> = Vec::new();
    let mut i: usize = 0;
    while i < v.len()
        invariant
            i <= v@.len(),
            r@ == v@.take(i as int),
        decreases v.len() - i,
    {
        r.push(v[i].copy());
        assert(v@.take(i as int + 1) =~= v@.take(i as int).push(v@[i as int]));
        i = i + 1;
    }
    assert(v@.take(v@.len() as int) =~= v@);
    r
}

/// The tags of an archive (see [`tags_for`]).
pub fn archive_tags(tags: &Vec<(i64, Vec<TagRow>)>, id: i64) -> (r: Vec<TagRow>)
    ensures
        r@ == tags_for(tags@, id),
{
    let mut k: usize = tags.len();
    assert(tags@.take(k as int) =~= tags@);
    while k > 0
        invariant
            k <= tags@.len(),
            last_value(tags@, id) == last_value(tags@.take(k as int), id),
        decreases k,
    {
        if tags[k - 1].0 == id {
            return copy_tags(&tags[k - 1].1);
        }
        assert(tags@.take(k as int).drop_last() =~= tags@.take(k as int - 1));
        k = k - 1;
    }
    Vec::new()
}

/// Cards for plain rows (a folder's or a group's chapters): each row alone,
/// with its reading position (none when not recorded) and its tags.
pub fn plain_list_items(rows: &Vec<ArchiveRow>, progress: &Vec<(i64, i64)>, tags: &Vec<(i64, Vec<TagRow>)>) -> (r: Vec<ListItem>)
    ensures
        r@.len() == rows@.len(),
        forall|i: int|
            0 <= i < r@.len() ==> {
                &&& (#[trigger] r@[i]).archive == rows@[i]
                &&& !r@[i].is_group
                &&& r@[i].chapter_count is None
                &&& r@[i].auto_group is None
                &&& r@[i].auto_key is None
                &&& r@[i].parent_dir is None
                &&& r@[i].read_page == last_value(progress@, rows@[i].id)
                &&& r@[i].tags matches Some(t) && t@ == tags_for(tags@, rows@[i].id)
            },
{
    let mut r: Vec<ListItem> = Vec::new();
    let mut i: usize = 0;
    while i < rows.len()
        invariant
            i <= rows@.len(),
            r@.len() == i,
            forall|k: int|
                0 <= k < i ==> {
                    &&& (#[trigger] r@[k]).archive == rows@[k]
                    &&& !r@[k].is_group
                    &&& r@[k].chapter_count is None
                    &&& r@[k].auto_group is None
                    &&& r@[k].auto_key is None
                    &&& r@[k].parent_dir is None
                    &&& r@[k].read_page == last_value(progress@, rows@[k].id)
                    &&& r@[k].tags matches Some(t) && t@ == tags_for(tags@, rows@[k].id)
                },
        decreases rows.len() - i,
    {
        let id = rows[i].id;
        let item = ListItem {
            archive: rows[i].copy(),
            is_group: false,
            chapter_count: None,
            auto_group: None,
            auto_key: None,
            parent_dir: None,
            read_page: progress_for(progress, id),
            tags: Some(archive_tags(tags, id)),
        };
        r.push(item);
        i = i + 1;
    }
    r
}

/// Decorates the cards of a page: each keeps what it is and gets the
/// recorded reading position of its archive (its own, when none is
/// recorded) and the archive's tags.
pub fn decorate_page(items: Vec<ListItem>, progress: &Vec<(i64, i64)>, tags: &Vec<(i64, Vec<TagRow>)>) -> (r: Vec<ListItem>)
    ensures
        r@.len() == items@.len(),
        forall|i: int|
            0 <= i < r@.len() ==> {
                &&& (#[trigger] r@[i]).archive == items@[i].archive
                &&& r@[i].is_group == items@[i].is_group
                &&& r@[i].chapter_count == items@[i].chapter_count
                &&& r@[i].auto_group == items@[i].auto_group
                &&& r@[i].auto_key == items@[i].auto_key
                &&& r@[i].parent_dir == items@[i].parent_dir
                &&& r@[i].read_page == match last_value(progress@, items@[i].archive.id) {
                    Some(p) => Some(p),
                    None => items@[i].read_page,
                }
                &&& r@[i].tags matches Some(t) && t@ == tags_for(tags@, items@[i].archive.id)
            },
{
    let ghost orig = items@;
    let mut r: Vec<ListItem> = Vec::new();
    for item in it: items
        invariant
            it.seq() == orig,
            r@.len() == it.index(),
            forall|k: int|
                0 <= k < r@.len() ==> {
                    &&& (#[trigger] r@[k]).archive == orig[k].archive
                    &&& r@[k].is_group == orig[k].is_group
                    &&& r@[k].chapter_count == orig[k].chapter_count
                    &&& r@[k].auto_group == orig[k].auto_group
                    &&& r@[k].auto_key == orig[k].auto_key
                    &&& r@[k].parent_dir == orig[k].parent_dir
                    &&& r@[k].read_page == match last_value(progress@, orig[k].archive.id) {
                        Some(p) => Some(p),
                        None => orig[k].read_page,
                    }
                    &&& r@[k].tags matches Some(t) && t@ == tags_for(tags@, orig[k].archive.id)
                },
    {
        let mut card = item;
        match progress_for(progress, card.archive.id) {
            Some(p) => card.read_page = Some(p),
            None => {},
        }
        card.tags = Some(archive_tags(tags, card.archive.id));
        r.push(card);
    }
    r
}

// ---------------------------------------------------------------------------
// The tree of dates added
// ---------------------------------------------------------------------------

/// One year of the date tree: the archives added that year, and per month.
pub struct YearBucket {
    pub year: i64,
    pub count: i64,
    /// `(month, count)`, in the order the months came.
    pub months: Vec<(i64, i64)>,
}

/// The content of a year of the tree.
pub struct YearModel {
    pub year: i64,
    pub count: int,
    pub months: Seq<(i64, i64)>,
}

/// The content of a year bucket.
pub open spec fn year_model(b: YearBucket) -> YearModel {
    YearModel { year: b.year, count: b.count as int, months: b.months@ }
}

/// The contents of year buckets.
pub open spec fn year_models(v: Seq<YearBucket>) -> Seq<YearModel> {
    v.map_values(|b: YearBucket| year_model(b))
}

/// The `(year, month, count)` rows whose year text is an integer, in order.
pub open spec fn dated_rows(rows: Seq<(String, i64, i64)>) -> Seq<(i64, i64, i64)>
    decreases rows.len(),
{
    if rows.len() == 0 {
        Seq::<(i64, i64, i64)>::empty()
    } else {
        let rest = dated_rows(rows.drop_last());
        match crate::text::parse_i64_spec(rows.last().0@) {
            Some(y) => rest.push((y, rows.last().1, rows.last().2)),
            None => rest,
        }
    }
}

/// Folds rows into years: a row of the same year as the year before it is
/// added to that year (its count summed, its month appended); any other
/// row opens a new year.
pub open spec fn year_runs(rows: Seq<(i64, i64, i64)>) -> Seq<YearModel>
    decreases rows.len(),
{
    if rows.len() == 0 {
        Seq::<YearModel>::empty()
    } else {
        let g = year_runs(rows.drop_last());
        let (y, m, c) = rows.last();
        if g.len() > 0 && g.last().year == y {
            g.update(
                g.len() - 1,
                YearModel { year: y, count: g.last().count + c, months: g.last().months.push((m, c)) },
            )
        } else {
            g.push(YearModel { year: y, count: c as int, months: seq![(m, c)] })
        }
    }
}

/// The sum of the counts of the first `n` rows.
pub open spec fn count_sum(rows: Seq<(String, i64, i64)>, n: int) -> int
    decreases n,
{
    if n <= 0 {
        0
    } else {
        count_sum(rows, n - 1) + rows[n - 1].2
    }
}

proof fn lemma_count_sum_mono(rows: Seq<(String, i64, i64)>, i: int, n: int)
    requires
        0 <= i <= n <= rows.len(),
        forall|k: int| 0 <= k < rows.len() ==> (#[trigger] rows[k]).2 >= 0,
    ensures
        count_sum(rows, i) <= count_sum(rows, n),
    decreases n - i,
{
    if i < n {
        lemma_count_sum_mono(rows, i, n - 1);
    }
}

fn copy_months(v: &Vec<(i64, i64)>) -> (r: Vec<(i64, i64)>)
    ensures
        r@ == v@,
{
    let mut r: Vec<(i64, i64)> = Vec::new();
    let mut i: usize = 0;
    while i < v.len()
        invariant
            i <= v@.len(),
            r@ == v@.take(i as int),
        decreases v.len() - i,
    {
        r.push(v[i]);
        assert(v@.take(i as int + 1) =~= v@.take(i as int).push(v@[i as int]));
        i = i + 1;
    }
    assert(v@.take(v@.len() as int) =~= v@);
    r
}

/// The tree of dates added, from the per-month counts sorted by year
/// (newest first) and month: rows whose year is not an integer are
/// skipped, and consecutive rows of one year make one year of the tree
/// (see [`year_runs`]).
pub fn added_tree(rows: &Vec<(String, i64, i64)>) -> (r: Vec<YearBucket>)
    requires
        forall|k: int| 0 <= k < rows@.len() ==> (#[trigger] rows@[k]).2 >= 0,
        count_sum(rows@, rows@.len() as int) <= i64::MAX,
    ensures
        year_models(r@) == year_runs(dated_rows(rows@)),
{
    let mut out: Vec<YearBucket> = Vec::new();
    let mut cur_year: i64 = 0;
    let mut cur_count: i64 = 0;
    let mut cur_months: Vec<(i64, i64)> = Vec::new();
    let mut open = false;
    let mut i: usize = 0;
    while i < rows.len()
        invariant
            i <= rows@.len(),
            forall|k: int| 0 <= k < rows@.len() ==> (#[trigger] rows@[k]).2 >= 0,
            count_sum(rows@, rows@.len() as int) <= i64::MAX,
            open ==> year_models(out@).push(YearModel { year: cur_year, count: cur_count as int, months: cur_months@ })
                == year_runs(dated_rows(rows@.take(i as int))),
            !open ==> out@.len() == 0 && year_runs(dated_rows(rows@.take(i as int))).len() == 0,
            open ==> 0 <= cur_count <= count_sum(rows@, i as int),
        decreases rows.len() - i,
    {
        let ghost pre = rows@.take(i as int);
        assert(rows@.take(i as int + 1) =~= pre.push(rows@[i as int]));
        assert(rows@.take(i as int + 1).drop_last() =~= pre);
        proof {
            lemma_count_sum_mono(rows@, i as int + 1, rows@.len() as int);
            lemma_count_sum_mono(rows@, 0, i as int);
            assert(count_sum(rows@, i as int + 1) == count_sum(rows@, i as int) + rows@[i as int].2);
        }
        let v = crate::text::chars_of(rows[i].0.as_str());
        let (_, month, count) = rows[i];
        match crate::text::parse_i64(v.as_slice()) {
            Some(year) => {
                let ghost g = year_runs(dated_rows(pre));
                assert(dated_rows(rows@.take(i as int + 1)) =~= dated_rows(pre).push((year, month, count)));
                assert(dated_rows(rows@.take(i as int + 1)).drop_last() =~= dated_rows(pre));
                if open && cur_year == year {
                    cur_count = cur_count + count;
                    cur_months.push((month, count));
                    proof {
                        assert(g.last().year == year);
                        assert(year_models(out@).push(YearModel { year: cur_year, count: cur_count as int, months: cur_months@ }) =~= g.update(
                            g.len() - 1,
                            YearModel { year, count: g.last().count + count, months: g.last().months.push((month, count)) },
                        ));
                    }
                } else {
                    if open {
                        let ghost before = year_models(out@);
                        out.push(YearBucket { year: cur_year, count: cur_count, months: copy_months(&cur_months) });
                        assert(year_models(out@) =~= before.push(YearModel { year: cur_year, count: cur_count as int, months: cur_months@ }));
                    }
                    proof {
                        if open {
                            assert(g.last().year != year);
                        }
                    }
                    cur_year = year;
                    cur_count = count;
                    cur_months = Vec::new();
                    cur_months.push((month, count));
                    open = true;
                    proof {
                        assert(cur_months@ =~= seq![(month, count)]);
                        assert(year_models(out@) =~= g);
                    }
                }
            },
            None => {
                assert(dated_rows(rows@.take(i as int + 1)) =~= dated_rows(pre));
            },
        }
        i = i + 1;
    }
    assert(rows@.take(rows@.len() as int) =~= rows@);
    if open {
        let ghost before = year_models(out@);
        out.push(YearBucket { year: cur_year, count: cur_count, months: cur_months });
        assert(year_models(out@) =~= before.push(YearModel { year: cur_year, count: cur_count as int, months: cur_months@ }));
    }
    out
}

} // verus!

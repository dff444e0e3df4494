//! The rows a refresh of the addon catalogue writes, from the file list the
//! addon site serves.

use vstd::prelude::*;
use vstd::string::*;
use vstd::utf8::*;
use crate::text::{parse_i32, parse_i32_spec};
use crate::api::Category;

verus! {

/// A game version an addon declares it works with.
pub struct Compatibility {
    pub version: String,
    pub name: String,
}

/// An entry of the file list, as plain values: the date is the text the
/// catalogue stores.
pub struct FileListItem {
    pub id: String,
    pub category: String,
    pub version: String,
    pub date: String,
    pub name: String,
    pub author_name: String,
    pub file_info_url: String,
    pub download_total: String,
    pub download_monthly: String,
    pub favorite_total: String,
    pub directories: Vec<String>,
    pub compatibility: Option<Vec<Compatibility>>,
    pub image_thumbnails: Option<Vec<String>>,
    pub images: Option<Vec<String>>,
}

/// An addon row of the catalogue.
pub struct AddonRow {
    pub id: i32,
    pub category_id: String,
    pub version: String,
    pub date: String,
    pub name: String,
    pub author_name: Option<String>,
    pub file_info_url: Option<String>,
    pub download_total: Option<String>,
    pub download_monthly: Option<String>,
    pub favorite_total: Option<String>,
}

/// A directory an addon installs.
pub struct DirRow {
    pub addon_id: i32,
    pub dir: String,
}

/// A compatibility row: its position in the addon's list.
pub struct CompatRow {
    pub addon_id: i32,
    pub id: i32,
    pub version: String,
    pub name: String,
}

/// An image row: its position among the addon's images.
pub struct ImageRow {
    pub addon_id: i32,
    pub index: i32,
    pub thumbnail: String,
    pub image: String,
}

/// Everything a refresh writes, and the addons it touches.
pub struct CatalogueRows {
    pub addons: Vec<AddonRow>,
    pub dirs: Vec<DirRow>,
    pub compats: Vec<CompatRow>,
    pub images: Vec<ImageRow>,
    pub ids: Vec<i32>,
}

/// The id of a file-list entry, if it is a whole number.
pub open spec fn item_id(it: FileListItem) -> Option<i32> {
    parse_i32_spec(encode_utf8(it.id@))
}

/// The entries that are kept: those whose id is a whole number.
pub open spec fn kept_ids(items: Seq<FileListItem>) -> Seq<i32>
    decreases items.len(),
{
    if items.len() == 0 {
        Seq::empty()
    } else {
        match item_id(items.last()) {
            Some(id) => kept_ids(items.drop_last()).push(id),
            None => kept_ids(items.drop_last()),
        }
    }
}

/// The addon row of a kept entry, as plain values.
pub open spec fn addon_row_ok(r: AddonRow, it: FileListItem, id: i32) -> bool {
    &&& r.id == id
    &&& r.category_id@ == it.category@
    &&& r.version@ == it.version@
    &&& r.date@ == it.date@
    &&& r.name@ == it.name@
    &&& r.author_name matches Some(a) && a@ == it.author_name@
    &&& r.file_info_url matches Some(a) && a@ == it.file_info_url@
    &&& r.download_total matches Some(a) && a@ == it.download_total@
    &&& r.download_monthly matches Some(a) && a@ == it.download_monthly@
    &&& r.favorite_total matches Some(a) && a@ == it.favorite_total@
}

/// The directory rows, as (addon, directory) pairs, of the kept entries.
pub open spec fn dir_pairs(items: Seq<FileListItem>) -> Seq<(i32, Seq<char>)>
    decreases items.len(),
{
    if items.len() == 0 {
        Seq::empty()
    } else {
        match item_id(items.last()) {
            Some(id) => dir_pairs(items.drop_last()) + items.last().directories@.map_values(|d: String| (id, d@)),
            None => dir_pairs(items.drop_last()),
        }
    }
}

/// How many of `n` positions an `i32` can number.
pub open spec fn numbered(n: nat) -> nat {
    if n <= i32::MAX + 1 {
        n
    } else {
        (i32::MAX + 1) as nat
    }
}

/// The compatibility rows of one entry: one per declared version, numbered
/// from 0.
pub open spec fn compat_rows_of(it: FileListItem, id: i32) -> Seq<(i32, int, Seq<char>, Seq<char>)> {
    match it.compatibility {
        Some(cs) => Seq::new(numbered(cs@.len()), |i: int| (id, i, cs@[i].version@, cs@[i].name@)),
        None => Seq::empty(),
    }
}

pub open spec fn compat_tuples(items: Seq<FileListItem>) -> Seq<(i32, int, Seq<char>, Seq<char>)>
    decreases items.len(),
{
    if items.len() == 0 {
        Seq::empty()
    } else {
        match item_id(items.last()) {
            Some(id) => compat_tuples(items.drop_last()) + compat_rows_of(items.last(), id),
            None => compat_tuples(items.drop_last()),
        }
    }
}

/// The image rows of one entry: thumbnails and images paired in order,
/// as far as both lists go, when both are given.
pub open spec fn image_rows_of(it: FileListItem, id: i32) -> Seq<(i32, int, Seq<char>, Seq<char>)> {
    match (it.image_thumbnails, it.images) {
        (Some(ts), Some(is)) => {
            let n = if ts@.len() <= is@.len() { ts@.len() } else { is@.len() };
            Seq::new(numbered(n), |i: int| (id, i, ts@[i]@, is@[i]@))
        },
        _ => Seq::empty(),
    }
}

pub open spec fn image_tuples(items: Seq<FileListItem>) -> Seq<(i32, int, Seq<char>, Seq<char>)>
    decreases items.len(),
{
    if items.len() == 0 {
        Seq::empty()
    } else {
        match item_id(items.last()) {
            Some(id) => image_tuples(items.drop_last()) + image_rows_of(items.last(), id),
            None => image_tuples(items.drop_last()),
        }
    }
}

pub open spec fn dir_rows_view(rows: Seq<DirRow>) -> Seq<(i32, Seq<char>)> {
    rows.map_values(|r: DirRow| (r.addon_id, r.dir@))
}

pub open spec fn compat_rows_view(rows: Seq<CompatRow>) -> Seq<(i32, int, Seq<char>, Seq<char>)> {
    rows.map_values(|r: CompatRow| (r.addon_id, r.id as int, r.version@, r.name@))
}

pub open spec fn image_rows_view(rows: Seq<ImageRow>) -> Seq<(i32, int, Seq<char>, Seq<char>)> {
    rows.map_values(|r: ImageRow| (r.addon_id, r.index as int, r.thumbnail@, r.image@))
}

/// The entries that are kept.
pub open spec fn kept_items(items: Seq<FileListItem>) -> Seq<FileListItem>
    decreases items.len(),
{
    if items.len() == 0 {
        Seq::empty()
    } else {
        match item_id(items.last()) {
            Some(id) => kept_items(items.drop_last()).push(items.last()),
            None => kept_items(items.drop_last()),
        }
    }
}

proof fn lemma_kept_len(items: Seq<FileListItem>)
    ensures
        kept_items(items).len() == kept_ids(items).len(),
    decreases items.len(),
{
    if items.len() > 0 {
        lemma_kept_len(items.drop_last());
    }
}

/// The rows a refresh writes for a file list: for each entry with a whole
/// number id, in order, its addon row, its directories, its compatibility
/// entries and its images; entries with another id are skipped. Positions
/// past what an `i32` holds are skipped too.
pub fn catalogue_rows(items: &Vec<FileListItem>) -> (r: CatalogueRows)
    ensures
        r.ids@ == kept_ids(items@),
        r.addons@.len() == kept_ids(items@).len(),
        forall|k: int| 0 <= k < r.addons@.len() ==> addon_row_ok(#[trigger] r.addons@[k], kept_items(items@)[k], kept_ids(items@)[k]),
        dir_rows_view(r.dirs@) == dir_pairs(items@),
        compat_rows_view(r.compats@) == compat_tuples(items@),
        image_rows_view(r.images@) == image_tuples(items@),
{
    let mut addons: Vec<AddonRow> = Vec::new();
    let mut dirs: Vec<DirRow> = Vec::new();
    let mut compats: Vec<CompatRow> = Vec::new();
    let mut images: Vec<ImageRow> = Vec::new();
    let mut ids: Vec<i32> = Vec::new();
    let mut k: usize = 0;
    proof {
        assert(items@.take(0) =~= Seq::<FileListItem>::empty());
        assert(dir_rows_view(dirs@) =~= Seq::<(i32, Seq<char>)>::empty());
        assert(compat_rows_view(compats@) =~= Seq::<(i32, int, Seq<char>, Seq<char>)>::empty());
        assert(image_rows_view(images@) =~= Seq::<(i32, int, Seq<char>, Seq<char>)>::empty());
    }
    while k < items.len()
        invariant
            k <= items@.len(),
            ids@ == kept_ids(items@.take(k as int)),
            addons@.len() == ids@.len(),
            kept_items(items@.take(k as int)).len() == ids@.len(),
            forall|j: int| 0 <= j < addons@.len() ==> addon_row_ok(#[trigger] addons@[j], kept_items(items@.take(k as int))[j], ids@[j]),
            dir_rows_view(dirs@) == dir_pairs(items@.take(k as int)),
            compat_rows_view(compats@) == compat_tuples(items@.take(k as int)),
            image_rows_view(images@) == image_tuples(items@.take(k as int)),
        decreases items.len() - k,
    {
        let it = &items[k];
        let ghost pre = items@.take(k as int);
        proof {
            assert(items@.take(k + 1).drop_last() =~= pre);
            assert(items@.take(k + 1).last() == items@[k as int]);
            lemma_kept_len(pre);
        }
        match parse_i32(it.id.as_str()) {
            None => {},
            Some(id) => {
                let ghost old_addons = addons@;
                ids.push(id);
                addons.push(AddonRow {
                    id,
                    category_id: it.category.clone(),
                    version: it.version.clone(),
                    date: it.date.clone(),
                    name: it.name.clone(),
                    author_name: Some(it.author_name.clone()),
                    file_info_url: Some(it.file_info_url.clone()),
                    download_total: Some(it.download_total.clone()),
                    download_monthly: Some(it.download_monthly.clone()),
                    favorite_total: Some(it.favorite_total.clone()),
                });
                proof {
                    assert forall|j: int| 0 <= j < addons@.len() implies addon_row_ok(#[trigger] addons@[j], kept_items(items@.take(k + 1))[j], ids@[j]) by {
                        if j < old_addons.len() {
                            assert(addons@[j] == old_addons[j]);
                        }
                    }
                }
                let ghost d0 = dir_rows_view(dirs@);
                let mut i: usize = 0;
                while i < it.directories.len()
                    invariant
                        i <= it.directories@.len(),
                        dir_rows_view(dirs@) == d0 + it.directories@.take(i as int).map_values(|d: String| (id, d@)),
                    decreases it.directories.len() - i,
                {
                    let ghost before = dirs@;
                    dirs.push(DirRow { addon_id: id, dir: it.directories[i].clone() });
                    proof {
                        assert(dirs@ == before.push(dirs@[before.len() as int]));
                        assert(dir_rows_view(dirs@) =~= dir_rows_view(before).push((id, it.directories@[i as int]@)));
                        assert(it.directories@.take(i + 1).map_values(|d: String| (id, d@)) =~= it.directories@.take(i as int).map_values(|d: String| (id, d@)).push((id, it.directories@[i as int]@)));
                        assert(dir_rows_view(dirs@) =~= d0 + it.directories@.take(i + 1).map_values(|d: String| (id, d@)));
                    }
                    i += 1;
                }
                proof {
                    assert(it.directories@.take(i as int) =~= it.directories@);
                }
                if let Some(cs) = &it.compatibility {
                    let ghost c0 = compat_rows_view(compats@);
                    let mut i: usize = 0;
                    while i < cs.len() && i <= 0x7fff_ffff
                        invariant
                            i <= cs@.len(),
                            i <= i32::MAX + 1,
                            compat_rows_view(compats@) == c0 + Seq::new(i as nat, |x: int| (id, x, cs@[x].version@, cs@[x].name@)),
                        decreases cs.len() - i,
                    {
                        let ghost before = compats@;
                        compats.push(CompatRow { addon_id: id, id: i as i32, version: cs[i].version.clone(), name: cs[i].name.clone() });
                        proof {
                            assert(compats@ == before.push(compats@[before.len() as int]));
                            assert(compat_rows_view(compats@) =~= compat_rows_view(before).push((id, i as int, cs@[i as int].version@, cs@[i as int].name@)));
                            assert(compat_rows_view(compats@) =~= c0 + Seq::new((i + 1) as nat, |x: int| (id, x, cs@[x].version@, cs@[x].name@)));
                        }
                        i += 1;
                    }
                    proof {
                        assert(i == numbered(cs@.len()));
                    }
                } else {
                    proof {
                        assert(compat_rows_view(compats@) =~= compat_rows_view(compats@) + Seq::<(i32, int, Seq<char>, Seq<char>)>::empty());
                    }
                }
                match (&it.image_thumbnails, &it.images) {
                    (Some(ts), Some(is)) => {
                        let ghost i0 = image_rows_view(images@);
                        let n = if ts.len() <= is.len() { ts.len() } else { is.len() };
                        let mut i: usize = 0;
                        while i < n && i <= 0x7fff_ffff
                            invariant
                                i <= n,
                                i <= i32::MAX + 1,
                                n <= ts@.len(),
                                n <= is@.len(),
                                image_rows_view(images@) == i0 + Seq::new(i as nat, |x: int| (id, x, ts@[x]@, is@[x]@)),
                            decreases n - i,
                        {
                            let ghost before = images@;
                            images.push(ImageRow { addon_id: id, index: i as i32, thumbnail: ts[i].clone(), image: is[i].clone() });
                            proof {
                                assert(images@ == before.push(images@[before.len() as int]));
                                assert(image_rows_view(images@) =~= image_rows_view(before).push((id, i as int, ts@[i as int]@, is@[i as int]@)));
                                assert(image_rows_view(images@) =~= i0 + Seq::new((i + 1) as nat, |x: int| (id, x, ts@[x]@, is@[x]@)));
                            }
                            i += 1;
                        }
                        proof {
                            assert(i == numbered(n as nat));
                        }
                    },
                    _ => {
                        proof {
                            assert(image_rows_view(images@) =~= image_rows_view(images@) + Seq::<(i32, int, Seq<char>, Seq<char>)>::empty());
                        }
                    },
                }
            },
        }
        k += 1;
    }
    proof {
        assert(items@.take(k as int) =~= items@);
    }
    CatalogueRows { addons, dirs, compats, images, ids }
}

/// A number as the catalogue feeds write it, if it is one.
pub open spec fn feed_number(s: Seq<char>) -> Option<i32> {
    parse_i32_spec(encode_utf8(s))
}

/// A category row: id, title, icon and file count.
pub struct CategoryRow {
    pub id: i32,
    pub title: String,
    pub icon: Option<String>,
    pub file_count: Option<i32>,
}

/// A link from a category to a parent category.
pub struct CategoryParentRow {
    pub id: i32,
    pub parent_id: i32,
}

/// The rows a refresh of the categories writes.
pub struct CategoryRows {
    pub categories: Vec<CategoryRow>,
    pub parents: Vec<CategoryParentRow>,
}

pub open spec fn category_model(c: Category, id: i32) -> (i32, Seq<char>, Option<Seq<char>>, Option<i32>) {
    (id, c.title@, Some(c.icon@), feed_number(c.file_count@))
}

/// The category rows: one for each category whose id is a number, in order.
pub open spec fn category_models(cs: Seq<Category>) -> Seq<(i32, Seq<char>, Option<Seq<char>>, Option<i32>)>
    decreases cs.len(),
{
    if cs.len() == 0 {
        Seq::empty()
    } else {
        match feed_number(cs.last().id@) {
            Some(id) => category_models(cs.drop_last()).push(category_model(cs.last(), id)),
            None => category_models(cs.drop_last()),
        }
    }
}

/// The links of category `id` to each parent whose id is a number.
pub open spec fn parent_links(id: i32, ps: Seq<String>) -> Seq<(i32, i32)>
    decreases ps.len(),
{
    if ps.len() == 0 {
        Seq::empty()
    } else {
        match feed_number(ps.last()@) {
            Some(p) => parent_links(id, ps.drop_last()).push((id, p)),
            None => parent_links(id, ps.drop_last()),
        }
    }
}

/// The parent links of the categories whose id is a number, in order.
pub open spec fn category_links(cs: Seq<Category>) -> Seq<(i32, i32)>
    decreases cs.len(),
{
    if cs.len() == 0 {
        Seq::empty()
    } else {
        match feed_number(cs.last().id@) {
            Some(id) => category_links(cs.drop_last()) + parent_links(id, cs.last().parent_ids@),
            None => category_links(cs.drop_last()),
        }
    }
}

pub open spec fn category_rows_view(rows: Seq<CategoryRow>) -> Seq<(i32, Seq<char>, Option<Seq<char>>, Option<i32>)> {
    rows.map_values(|r: CategoryRow| (r.id, r.title@, match r.icon {
        Some(i) => Some(i@),
        None => None,
    }, r.file_count))
}

pub open spec fn parent_rows_view(rows: Seq<CategoryParentRow>) -> Seq<(i32, i32)> {
    rows.map_values(|r: CategoryParentRow| (r.id, r.parent_id))
}

fn parse_feed_number(s: &String) -> (r: Option<i32>)
    ensures
        r == feed_number(s@),
{
    parse_i32(s.as_str())
}

/// The rows a refresh of the categories writes: categories whose id is no
/// number are skipped, and so are parents whose id is none; a file count
/// that is no number is left empty.
pub fn category_rows(cs: &Vec<Category>) -> (r: CategoryRows)
    ensures
        category_rows_view(r.categories@) == category_models(cs@),
        parent_rows_view(r.parents@) == category_links(cs@),
{
    let mut categories: Vec<CategoryRow> = Vec::new();
    let mut parents: Vec<CategoryParentRow> = Vec::new();
    let mut k: usize = 0;
    proof {
        assert(category_rows_view(categories@) =~= category_models(cs@.take(0)));
        assert(parent_rows_view(parents@) =~= category_links(cs@.take(0)));
    }
    while k < cs.len()
        invariant
            k <= cs@.len(),
            category_rows_view(categories@) == category_models(cs@.take(k as int)),
            parent_rows_view(parents@) == category_links(cs@.take(k as int)),
        decreases cs.len() - k,
    {
        let c = &cs[k];
        proof {
            assert(cs@.take(k + 1).drop_last() =~= cs@.take(k as int));
            assert(cs@.take(k + 1).last() == *c);
        }
        match parse_feed_number(&c.id) {
            Some(id) => {
                let row = CategoryRow {
                    id,
                    title: c.title.clone(),
                    icon: Some(c.icon.clone()),
                    file_count: parse_feed_number(&c.file_count),
                };
                let ghost before = categories@;
                categories.push(row);
                proof {
                    assert(categories@ == before.push(row));
                    assert(category_rows_view(categories@) =~= category_rows_view(before).push(category_model(*c, id)));
                }
                let ghost start = parents@;
                let mut j: usize = 0;
                proof {
                    assert(c.parent_ids@.take(0) =~= Seq::<String>::empty());
                    assert(parent_rows_view(parents@) =~= parent_rows_view(start) + parent_links(id, c.parent_ids@.take(0)));
                }
                while j < c.parent_ids.len()
                    invariant
                        j <= c.parent_ids@.len(),
                        parent_rows_view(parents@) == parent_rows_view(start) + parent_links(id, c.parent_ids@.take(j as int)),
                    decreases c.parent_ids.len() - j,
                {
                    proof {
                        assert(c.parent_ids@.take(j + 1).drop_last() =~= c.parent_ids@.take(j as int));
                    }
                    match parse_feed_number(&c.parent_ids[j]) {
                        Some(p) => {
                            let ghost mid = parents@;
                            parents.push(CategoryParentRow { id, parent_id: p });
                            proof {
                                assert(parent_rows_view(parents@) =~= parent_rows_view(mid).push((id, p)));
                                assert(parent_rows_view(parents@) =~= parent_rows_view(start) + parent_links(id, c.parent_ids@.take(j + 1)));
                            }
                        },
                        None => {
                            proof {
                                assert(parent_rows_view(parents@) =~= parent_rows_view(start) + parent_links(id, c.parent_ids@.take(j + 1)));
                            }
                        },
                    }
                    j += 1;
                }
                proof {
                    assert(c.parent_ids@.take(j as int) =~= c.parent_ids@);
                    assert(parent_rows_view(parents@) =~= category_links(cs@.take(k + 1)));
                }
            },
            None => {},
        }
        k += 1;
    }
    proof {
        assert(cs@.take(k as int) =~= cs@);
    }
    CategoryRows { categories, parents }
}

/// The most ids one delete statement binds; SQLite allows 32766, this
/// leaves room to spare.
pub const SQLITE_MAX_VARS: usize = 32000;

/// The chunks, joined back into one list.
pub open spec fn join_chunks(cs: Seq<Seq<i32>>) -> Seq<i32>
    decreases cs.len(),
{
    if cs.len() == 0 {
        Seq::empty()
    } else {
        join_chunks(cs.drop_last()) + cs.last()
    }
}

pub open spec fn chunks_view(v: Seq<Vec<i32>>) -> Seq<Seq<i32>> {
    v.map_values(|c: Vec<i32>| c@)
}

/// Splits `ids` into consecutive chunks of `max` ids, the last one
/// possibly shorter, so that each delete binds at most `max` ids.
pub fn id_chunks(ids: &Vec<i32>, max: usize) -> (r: Vec<Vec<i32>>)
    requires
        max > 0,
    ensures
        join_chunks(chunks_view(r@)) == ids@,
        forall|k: int| 0 <= k < r@.len() ==> 1 <= (#[trigger] r@[k])@.len() <= max,
        forall|k: int| 0 <= k < r@.len() - 1 ==> (#[trigger] r@[k])@.len() == max,
{
    let n = ids.len();
    let mut r: Vec<Vec<i32>> = Vec::new();
    let mut i: usize = 0;
    proof {
        assert(chunks_view(r@) =~= Seq::<Seq<i32>>::empty());
        assert(ids@.take(0) =~= Seq::<i32>::empty());
    }
    while i < n
        invariant
            n == ids@.len(),
            max > 0,
            i <= n,
            join_chunks(chunks_view(r@)) == ids@.take(i as int),
            forall|k: int| 0 <= k < r@.len() ==> 1 <= (#[trigger] r@[k])@.len() <= max,
            forall|k: int| 0 <= k < r@.len() - 1 ==> (#[trigger] r@[k])@.len() == max,
            r@.len() > 0 && r@[r@.len() - 1]@.len() != max ==> i == n,
        decreases n - i,
    {
        let end = if n - i > max { i + max } else { n };
        let mut chunk: Vec<i32> = Vec::new();
        let mut j = i;
        while j < end
            invariant
                i <= j <= end,
                end <= n,
                n == ids@.len(),
                chunk@ == ids@.subrange(i as int, j as int),
            decreases end - j,
        {
            chunk.push(ids[j]);
            proof {
                assert(ids@.subrange(i as int, j + 1) =~= ids@.subrange(i as int, j as int).push(ids@[j as int]));
            }
            j += 1;
        }
        let ghost before = r@;
        r.push(chunk);
        proof {
            assert(chunks_view(r@) =~= chunks_view(before).push(ids@.subrange(i as int, end as int)));
            assert(chunks_view(r@).drop_last() =~= chunks_view(before));
            assert(ids@.take(end as int) =~= ids@.take(i as int) + ids@.subrange(i as int, end as int));
        }
        i = end;
    }
    r
}

} // verus!

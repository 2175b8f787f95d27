//! What a snapshot hands to a remote reader.
use bytes::Bytes;
use std::collections::HashMap;
use vstd::prelude::*;

use crate::bound::{ordered, Bound, BoundedDataSet, DataBound, InnerKey};
use crate::buf::content;
use crate::lists::{contains_u64, copy_i64s};
use crate::pb;
use crate::pb::{BlobCreate, ChangeSet, ColumnarCreate, L0Create, SchemaMeta, Snapshot, TableCreate};
use crate::properties::ENCRYPTION_KEY;
use crate::shard::data::{BlobTable, ColumnarFile, L0Table, ShardData};
use crate::shard::levels::{range_bound, Level, LevelHandler, SsTable};
use crate::text::{append_dec, dec_text, hex_encode, hex_of};
use crate::vectors::{copy_vectors, vectors_of};
use crate::{NUM_CFS, WRITE_CF};

verus! {

broadcast use vstd::std_specs::hash::group_hash_axioms;

/// A range of keys that is asked for: the first key and the key that ends it.
pub type KeyRange = (Bytes, Bytes);

/// One of the ranges has a key in common with the bound.
pub open spec fn hit(b: Bound, ranges: Seq<KeyRange>) -> bool {
    exists|i: int|
        0 <= i < ranges.len() && b.overlaps(
            range_bound(content((#[trigger] ranges[i]).0), content(ranges[i].1)),
        )
}

/// Where the table meta begins in a file.
pub open spec fn offset_of(offsets: Map<u64, u32>, id: u64) -> u32 {
    if offsets.contains_key(id) {
        offsets[id]
    } else {
        0
    }
}

/// A table of level 0 is asked for: it has data of the column family of committed
/// data, where only that is wanted, and keys of a range.
pub open spec fn l0_asked(
    l0: L0Table,
    write_size: Option<u64>,
    ranges: Seq<KeyRange>,
    write_cf_only: bool,
) -> bool {
    &&& write_cf_only ==> write_size is Some && write_size->0 != 0
    &&& hit(l0.bound(), ranges)
}

/// The tables of level 0 that are asked for.
pub open spec fn l0s_asked(
    l0s: Seq<L0Table>,
    write_sizes: Seq<Option<u64>>,
    ranges: Seq<KeyRange>,
    write_cf_only: bool,
) -> Seq<L0Table>
    decreases l0s.len(),
{
    if l0s.len() == 0 {
        Seq::empty()
    } else {
        let n = l0s.len() - 1;
        let rest = l0s_asked(l0s.drop_last(), write_sizes, ranges, write_cf_only);
        if l0_asked(l0s.last(), write_sizes[n], ranges, write_cf_only) {
            rest.push(l0s.last())
        } else {
            rest
        }
    }
}

/// How a table of level 0 is handed out.
pub open spec fn l0_create(t: L0Table) -> L0Create {
    L0Create {
        id: t.id,
        smallest: t.smallest,
        biggest: t.biggest,
        size: t.size as u32,
        table_ids: t.table_ids,
    }
}

/// How a blob table is handed out.
pub open spec fn blob_create(t: BlobTable, offsets: Map<u64, u32>) -> BlobCreate {
    BlobCreate {
        id: t.id,
        smallest: t.smallest,
        biggest: t.biggest,
        meta_offset: offset_of(offsets, t.id),
        table_ids: t.table_ids,
    }
}

/// How a table is handed out.
pub open spec fn table_create(
    t: SsTable,
    cf: int,
    level: usize,
    offsets: Map<u64, u32>,
) -> TableCreate {
    TableCreate {
        id: t.id,
        level: level as u32,
        cf: cf as i32,
        smallest: t.smallest,
        biggest: t.biggest,
        meta_offset: offset_of(offsets, t.id),
        table_ids: t.table_ids,
    }
}

/// A table is asked for: it, or one with its id, has keys of a range.
pub open spec fn table_asked(tables: Seq<SsTable>, ranges: Seq<KeyRange>, t: SsTable) -> bool {
    exists|k: int|
        0 <= k < tables.len() && (#[trigger] tables[k]).id == t.id && hit(
            tables[k].bound(),
            ranges,
        )
}

/// The first `n` tables of a level that are asked for.
pub open spec fn level_creates(
    level: Level,
    cf: int,
    ranges: Seq<KeyRange>,
    offsets: Map<u64, u32>,
    n: int,
) -> Seq<TableCreate>
    decreases n,
{
    if n <= 0 {
        Seq::empty()
    } else {
        let rest = level_creates(level, cf, ranges, offsets, n - 1);
        if table_asked(level.tables, ranges, level.tables[n - 1]) {
            rest.push(table_create(level.tables[n - 1], cf, level.level, offsets))
        } else {
            rest
        }
    }
}

/// The tables of the first `n` levels that are asked for.
pub open spec fn cf_creates(
    levels: Seq<Level>,
    cf: int,
    ranges: Seq<KeyRange>,
    offsets: Map<u64, u32>,
    n: int,
) -> Seq<TableCreate>
    decreases n,
{
    if n <= 0 {
        Seq::empty()
    } else {
        cf_creates(levels, cf, ranges, offsets, n - 1) + level_creates(
            levels[n - 1],
            cf,
            ranges,
            offsets,
            levels[n - 1].tables.len() as int,
        )
    }
}

/// The tables of the first `n` column families that are asked for.
pub open spec fn table_creates(
    cfs: Seq<Seq<Level>>,
    ranges: Seq<KeyRange>,
    write_cf_only: bool,
    offsets: Map<u64, u32>,
    n: int,
) -> Seq<TableCreate>
    decreases n,
{
    if n <= 0 {
        Seq::empty()
    } else {
        let rest = table_creates(cfs, ranges, write_cf_only, offsets, n - 1);
        if write_cf_only && n - 1 != WRITE_CF {
            rest
        } else {
            rest + cf_creates(cfs[n - 1], n - 1, ranges, offsets, cfs[n - 1].len() as int)
        }
    }
}

/// How a columnar file is handed out.
pub open spec fn columnar_create(
    f: ColumnarFile,
    level: int,
    offsets: Map<u64, u32>,
) -> ColumnarCreate {
    ColumnarCreate {
        id: f.id,
        level: level as u32,
        smallest: f.smallest,
        biggest: f.biggest,
        meta_offset: offset_of(offsets, f.id),
        snap_version: f.snap().version,
        table_ids: f.table_ids,
    }
}

/// The columnar file has data of one of the ranges. `holding` are, for each range, the files
/// that have data of it.
pub open spec fn has_data_in(holding: Seq<Vec<u64>>, id: u64) -> bool {
    exists|r: int| 0 <= r < holding.len() && (#[trigger] holding[r])@.contains(id)
}

/// The files of a columnar level that are asked for.
pub open spec fn col_level_creates(
    files: Seq<ColumnarFile>,
    level: int,
    holding: Seq<Vec<u64>>,
    offsets: Map<u64, u32>,
) -> Seq<ColumnarCreate>
    decreases files.len(),
{
    if files.len() == 0 {
        Seq::empty()
    } else {
        let rest = col_level_creates(files.drop_last(), level, holding, offsets);
        if has_data_in(holding, files.last().id) {
            rest.push(columnar_create(files.last(), level, offsets))
        } else {
            rest
        }
    }
}

/// The files of the first `n` columnar levels that are asked for.
pub open spec fn columnar_creates(
    levels: Seq<Seq<ColumnarFile>>,
    holding: Seq<Vec<u64>>,
    offsets: Map<u64, u32>,
    n: int,
) -> Seq<ColumnarCreate>
    decreases n,
{
    if n <= 0 {
        Seq::empty()
    } else {
        columnar_creates(levels, holding, offsets, n - 1) + col_level_creates(
            levels[n - 1],
            n - 1,
            holding,
            offsets,
        )
    }
}

/// The ids of the tables that are among the others.
pub open spec fn ids_among(l0s: Seq<L0Table>, others: Seq<L0Table>) -> Seq<u64>
    decreases l0s.len(),
{
    if l0s.len() == 0 {
        Seq::empty()
    } else {
        let rest = ids_among(l0s.drop_last(), others);
        if exists|k: int| 0 <= k < others.len() && (#[trigger] others[k]).id == l0s.last().id {
            rest.push(l0s.last().id)
        } else {
            rest
        }
    }
}

/// Whether one of the ranges has a key in common with the bound.
fn is_hit(b: DataBound<'_>, ranges: &Vec<KeyRange>) -> (res: bool)
    ensures
        res == hit(b@, ranges@),
{
    let mut i: usize = 0;
    while i < ranges.len()
        invariant
            i <= ranges@.len(),
            forall|j: int|
                0 <= j < i ==> !b@.overlaps(
                    range_bound(content((#[trigger] ranges@[j]).0), content(ranges@[j].1)),
                ),
        decreases ranges@.len() - i,
    {
        let bound = DataBound::new(
            InnerKey::from_outer_key(&ranges[i].0),
            InnerKey::from_outer_end_key(&ranges[i].1),
            false,
        );
        if b.overlap_bound(bound) {
            assert(b@.overlaps(range_bound(content(ranges@[i as int].0), content(ranges@[i as int].1))));
            return true;
        }
        i = i + 1;
    }
    false
}

/// Where the table meta begins in a file.
fn get_offset(offsets: &HashMap<u64, u32>, id: u64) -> (res: u32)
    ensures
        res == offset_of(offsets@, id),
{
    match offsets.get(&id) {
        Some(off) => *off,
        None => 0,
    }
}

/// The tables of level 0 that are asked for, and their ids.
fn collect_l0s(
    l0s: &Vec<L0Table>,
    write_sizes: &Vec<Option<u64>>,
    ranges: &Vec<KeyRange>,
    write_cf_only: bool,
) -> (res: (Vec<L0Create>, Vec<u64>))
    requires
        write_sizes@.len() == l0s@.len(),
    ensures
        ({
            let asked = l0s_asked(l0s@, write_sizes@, ranges@, write_cf_only);
            &&& res.0@ == asked.map_values(|t: L0Table| l0_create(t))
            &&& res.1@ == asked.map_values(|t: L0Table| t.id)
        }),
{
    let mut creates: Vec<L0Create> = Vec::new();
    let mut ids: Vec<u64> = Vec::new();
    let mut i: usize = 0;
    while i < l0s.len()
        invariant
            i <= l0s@.len(),
            write_sizes@.len() == l0s@.len(),
            ({
                let asked = l0s_asked(l0s@.take(i as int), write_sizes@, ranges@, write_cf_only);
                &&& creates@ =~= asked.map_values(|t: L0Table| l0_create(t))
                &&& ids@ =~= asked.map_values(|t: L0Table| t.id)
            }),
        decreases l0s@.len() - i,
    {
        let t = &l0s[i];
        assert(l0s@.take(i + 1).drop_last() =~= l0s@.take(i as int));
        let wanted = !write_cf_only || match write_sizes[i] {
            Some(size) => size != 0,
            None => false,
        };
        if wanted && is_hit(t.data_bound(), ranges) {
            creates.push(
                L0Create {
                    id: t.id,
                    smallest: t.smallest.clone(),
                    biggest: t.biggest.clone(),
                    size: t.size as u32,
                    table_ids: t.table_ids,
                },
            );
            ids.push(t.id);
        }
        i = i + 1;
    }
    assert(l0s@.take(l0s@.len() as int) =~= l0s@);
    (creates, ids)
}

/// All blob tables.
fn collect_blobs(blobs: &Vec<BlobTable>, offsets: &HashMap<u64, u32>) -> (res: Vec<BlobCreate>)
    ensures
        res@ == blobs@.map_values(|t: BlobTable| blob_create(t, offsets@)),
{
    let mut res: Vec<BlobCreate> = Vec::new();
    let mut i: usize = 0;
    while i < blobs.len()
        invariant
            i <= blobs@.len(),
            res@ =~= blobs@.take(i as int).map_values(|t: BlobTable| blob_create(t, offsets@)),
        decreases blobs@.len() - i,
    {
        let t = &blobs[i];
        res.push(
            BlobCreate {
                id: t.id,
                smallest: t.smallest.clone(),
                biggest: t.biggest.clone(),
                meta_offset: get_offset(offsets, t.id),
                table_ids: t.table_ids,
            },
        );
        i = i + 1;
    }
    assert(blobs@.take(blobs@.len() as int) =~= blobs@);
    res
}

/// The ids of the tables of a level that have keys of a range.
fn overlap_ids(tables: &Vec<SsTable>, ranges: &Vec<KeyRange>) -> (res: Vec<u64>)
    requires
        ordered(tables@),
    ensures
        forall|id: u64| #[trigger]
            res@.contains(id) <==> exists|k: int|
                0 <= k < tables@.len() && (#[trigger] tables@[k]).id == id && hit(
                    tables@[k].bound(),
                    ranges@,
                ),
{
    let mut ids: Vec<u64> = Vec::new();
    let mut r: usize = 0;
    proof {
        assert forall|id: u64, k: int|
            0 <= k < tables@.len() && (#[trigger] tables@[k]).id == id && hit(
                tables@[k].bound(),
                ranges@.take(0),
            ) implies #[trigger] ids@.contains(id) by {}
    }
    while r < ranges.len()
        invariant
            r <= ranges@.len(),
            ordered(tables@),
            forall|id: u64| #[trigger]
                ids@.contains(id) ==> exists|k: int|
                    0 <= k < tables@.len() && (#[trigger] tables@[k]).id == id && hit(
                        tables@[k].bound(),
                        ranges@,
                    ),
            forall|k: int|
                0 <= k < tables@.len() && hit(
                    (#[trigger] tables@[k]).bound(),
                    ranges@.take(r as int),
                ) ==> ids@.contains(tables@[k].id),
        decreases ranges@.len() - r,
    {
        let bound = DataBound::new(
            InnerKey::from_outer_key(&ranges[r].0),
            InnerKey::from_outer_end_key(&ranges[r].1),
            false,
        );
        let ghost b = range_bound(content(ranges@[r as int].0), content(ranges@[r as int].1));
        let ghost before = ids@;
        let (left, right) = bound.get_overlap_data_sets(tables.as_slice());
        let mut i = left;
        while i < right
            invariant
                left <= i <= right <= tables@.len(),
                bound@ == b,
                r < ranges@.len(),
                b == range_bound(content(ranges@[r as int].0), content(ranges@[r as int].1)),
                forall|k: int|
                    0 <= k < tables@.len() ==> ((#[trigger] tables@[k].bound()).overlaps(b) <==> left
                        <= k < right),
                before.is_prefix_of(ids@),
                forall|id: u64| #[trigger]
                    ids@.contains(id) ==> exists|k: int|
                        0 <= k < tables@.len() && (#[trigger] tables@[k]).id == id && hit(
                            tables@[k].bound(),
                            ranges@,
                        ),
                forall|k: int| left <= k < i ==> ids@.contains((#[trigger] tables@[k]).id),
            decreases right - i,
        {
            let ghost was = ids@;
            ids.push(tables[i].id);
            proof {
                assert(tables@[i as int].bound().overlaps(b));
                assert(hit(tables@[i as int].bound(), ranges@)) by {
                    let range = ranges@[r as int];
                    assert(tables@[i as int].bound().overlaps(
                        range_bound(content(range.0), content(range.1)),
                    ));
                }
                assert(ids@ =~= was.push(tables@[i as int].id));
                assert forall|id: u64| #[trigger] ids@.contains(id) implies exists|k: int|
                    0 <= k < tables@.len() && (#[trigger] tables@[k]).id == id && hit(
                        tables@[k].bound(),
                        ranges@,
                    ) by {
                    let p = ids@.index_of(id);
                    if p < was.len() {
                        assert(was[p] == id);
                        assert(was.contains(id));
                    } else {
                        assert(tables@[i as int].id == id);
                    }
                }
                assert forall|k: int| left <= k < i + 1 implies ids@.contains(
                    (#[trigger] tables@[k]).id,
                ) by {
                    if k < i {
                        let p = was.index_of(tables@[k].id);
                        assert(ids@[p] == tables@[k].id);
                    } else {
                        assert(ids@[was.len() as int] == tables@[k].id);
                    }
                }
            }
            i = i + 1;
        }
        proof {
            assert forall|k: int|
                0 <= k < tables@.len() && hit(
                    (#[trigger] tables@[k]).bound(),
                    ranges@.take(r + 1),
                ) implies ids@.contains(tables@[k].id) by {
                let w = ranges@.take(r + 1);
                let j = choose|j: int|
                    0 <= j < w.len() && tables@[k].bound().overlaps(
                        range_bound(content((#[trigger] w[j]).0), content(w[j].1)),
                    );
                if j < r {
                    let v = ranges@.take(r as int);
                    assert(v[j] == w[j]);
                    assert(hit(tables@[k].bound(), v));
                    let p = before.index_of(tables@[k].id);
                    assert(ids@[p] == tables@[k].id);
                } else {
                    assert(w[j] == ranges@[r as int]);
                    assert(tables@[k].bound().overlaps(b));
                }
            }
        }
        r = r + 1;
    }
    proof {
        assert(ranges@.take(ranges@.len() as int) =~= ranges@);
        assert forall|id: u64| #[trigger]
            ids@.contains(id) <==> exists|k: int|
                0 <= k < tables@.len() && (#[trigger] tables@[k]).id == id && hit(
                    tables@[k].bound(),
                    ranges@,
                ) by {}
    }
    ids
}

/// The tables of a level that are asked for.
fn collect_level(
    level: &LevelHandler,
    cf: usize,
    ranges: &Vec<KeyRange>,
    offsets: &HashMap<u64, u32>,
    creates: &mut Vec<TableCreate>,
)
    requires
        ordered(level@.tables),
        cf < NUM_CFS,
    ensures
        final(creates)@ == old(creates)@ + level_creates(
            level@,
            cf as int,
            ranges@,
            offsets@,
            level@.tables.len() as int,
        ),
{
    let ids = overlap_ids(&level.tables, ranges);
    let ghost before = creates@;
    let mut i: usize = 0;
    while i < level.tables.len()
        invariant
            i <= level.tables@.len(),
            before == old(creates)@,
            cf < NUM_CFS,
            forall|id: u64| #[trigger]
                ids@.contains(id) <==> exists|k: int|
                    0 <= k < level.tables@.len() && (#[trigger] level.tables@[k]).id == id && hit(
                        level.tables@[k].bound(),
                        ranges@,
                    ),
            creates@ =~= before + level_creates(level@, cf as int, ranges@, offsets@, i as int),
        decreases level.tables@.len() - i,
    {
        let t = &level.tables[i];
        let listed = contains_u64(&ids, t.id);
        assert(listed == table_asked(level@.tables, ranges@, *t));
        if listed {
            creates.push(
                TableCreate {
                    id: t.id,
                    level: level.level as u32,
                    cf: cf as i32,
                    smallest: t.smallest.clone(),
                    biggest: t.biggest.clone(),
                    meta_offset: get_offset(offsets, t.id),
                    table_ids: t.table_ids,
                },
            );
        }
        i = i + 1;
    }
}

/// The tables of all levels that are asked for.
fn collect_tables(
    data: &ShardData,
    ranges: &Vec<KeyRange>,
    write_cf_only: bool,
    offsets: &HashMap<u64, u32>,
) -> (res: Vec<TableCreate>)
    requires
        data@.wf(),
        levels_ordered(data@.cfs),
    ensures
        res@ == table_creates(data@.cfs, ranges@, write_cf_only, offsets@, NUM_CFS as int),
{
    let mut res: Vec<TableCreate> = Vec::new();
    let ghost cfs = data@.cfs;
    let mut c: usize = 0;
    while c < data.cfs.len()
        invariant
            c <= data.cfs@.len(),
            data.cfs@.len() == NUM_CFS,
            cfs == data@.cfs,
            levels_ordered(cfs),
            res@ =~= table_creates(cfs, ranges@, write_cf_only, offsets@, c as int),
        decreases data.cfs@.len() - c,
    {
        if !write_cf_only || c == WRITE_CF {
            let ghost before = res@;
            let ghost levels = cfs[c as int];
            let mut l: usize = 0;
            assert(levels == data.cfs@[c as int]@);
            while l < data.cfs[c].levels.len()
                invariant
                    c < data.cfs@.len(),
                    data.cfs@.len() == NUM_CFS,
                    cfs == data@.cfs,
                    levels == data.cfs@[c as int]@,
                    levels == cfs[c as int],
                    levels_ordered(cfs),
                    l <= data.cfs@[c as int].levels@.len(),
                    res@ =~= before + cf_creates(levels, c as int, ranges@, offsets@, l as int),
                decreases data.cfs@[c as int].levels@.len() - l,
            {
                let level = &data.cfs[c].levels[l];
                assert(levels[l as int] == level@);
                collect_level(level, c, ranges, offsets, &mut res);
                l = l + 1;
            }
        }
        c = c + 1;
    }
    res
}

/// The tables of each level are in order.
pub open spec fn levels_ordered(cfs: Seq<Seq<Level>>) -> bool {
    forall|c: int, l: int|
        0 <= c < cfs.len() && 0 <= l < cfs[c].len() ==> ordered((#[trigger] cfs[c][l]).tables)
}

/// Whether the columnar file has data of one of the ranges.
fn has_data(holding: &Vec<Vec<u64>>, id: u64) -> (res: bool)
    ensures
        res == has_data_in(holding@, id),
{
    let mut r: usize = 0;
    while r < holding.len()
        invariant
            r <= holding@.len(),
            forall|j: int| 0 <= j < r ==> !(#[trigger] holding@[j])@.contains(id),
        decreases holding@.len() - r,
    {
        if contains_u64(&holding[r], id) {
            return true;
        }
        r = r + 1;
    }
    false
}

/// The columnar files that are asked for.
fn collect_columnar(
    data: &ShardData,
    holding: &Vec<Vec<u64>>,
    offsets: &HashMap<u64, u32>,
) -> (res: Vec<ColumnarCreate>)
    requires
        data@.wf(),
    ensures
        res@ == columnar_creates(
            data@.col_levels.levels,
            holding@,
            offsets@,
            data@.col_levels.levels.len() as int,
        ),
{
    let mut res: Vec<ColumnarCreate> = Vec::new();
    let ghost levels = data@.col_levels.levels;
    let mut l: usize = 0;
    while l < data.col_levels.levels.len()
        invariant
            l <= data.col_levels.levels@.len(),
            data.col_levels.levels@.len() == 3,
            levels == data@.col_levels.levels,
            res@ =~= columnar_creates(levels, holding@, offsets@, l as int),
        decreases data.col_levels.levels@.len() - l,
    {
        let files = &data.col_levels.levels[l];
        assert(levels[l as int] == files@);
        let ghost before = res@;
        let mut i: usize = 0;
        assert(files@.take(0) =~= Seq::empty());
        while i < files.len()
            invariant
                i <= files@.len(),
                l < 3,
                res@ =~= before + col_level_creates(
                    files@.take(i as int),
                    l as int,
                    holding@,
                    offsets@,
                ),
            decreases files@.len() - i,
        {
            let f = &files[i];
            assert(files@.take(i + 1).drop_last() =~= files@.take(i as int));
            if has_data(holding, f.id) {
                let snap_version: u64 = match f.snap_version {
                    Some(v) => v.version,
                    None => 0,
                };
                res.push(
                    ColumnarCreate {
                        id: f.id,
                        level: l as u32,
                        smallest: f.smallest.clone(),
                        biggest: f.biggest.clone(),
                        meta_offset: get_offset(offsets, f.id),
                        snap_version,
                        table_ids: f.table_ids,
                    },
                );
            }
            i = i + 1;
        }
        assert(files@.take(files@.len() as int) =~= files@);
        l = l + 1;
    }
    res
}

/// The ids of the tables that are among the ids.
fn collect_unconverted(l0s: &Vec<L0Table>, ids: &Vec<u64>, Ghost(asked): Ghost<Seq<L0Table>>) -> (res:
    Vec<u64>)
    requires
        ids@ == asked.map_values(|t: L0Table| t.id),
    ensures
        res@ == ids_among(l0s@, asked),
{
    let mut res: Vec<u64> = Vec::new();
    let mut i: usize = 0;
    while i < l0s.len()
        invariant
            i <= l0s@.len(),
            ids@ == asked.map_values(|t: L0Table| t.id),
            res@ =~= ids_among(l0s@.take(i as int), asked),
        decreases l0s@.len() - i,
    {
        assert(l0s@.take(i + 1).drop_last() =~= l0s@.take(i as int));
        let id = l0s[i].id;
        let listed = contains_u64(ids, id);
        proof {
            if listed {
                let k = ids@.index_of(id);
                assert(asked[k].id == id);
            }
            if exists|k: int| 0 <= k < asked.len() && (#[trigger] asked[k]).id == id {
                let k = choose|k: int| 0 <= k < asked.len() && (#[trigger] asked[k]).id == id;
                assert(ids@[k] == id);
            }
        }
        if listed {
            res.push(id);
        }
        i = i + 1;
    }
    assert(l0s@.take(l0s@.len() as int) =~= l0s@);
    res
}

/// A snapshot of a shard that is read.
pub struct SnapInfo {
    /// The shard.
    pub id: u64,
    /// Version of the shard.
    pub ver: u64,
    /// Sequence of the last change of the metadata.
    pub meta_seq: u64,
    /// The key that the data is encrypted with, as it is handed out.
    pub encryption_key: Option<Bytes>,
}

/// What is handed out of a snapshot.
pub open spec fn snapshot_for(
    snap: Snapshot,
    info: SnapInfo,
    data: ShardData,
    write_sizes: Seq<Option<u64>>,
    offsets: Map<u64, u32>,
    ranges: Seq<KeyRange>,
    holding: Seq<Vec<u64>>,
    write_cf_only: bool,
) -> bool {
    let d = data@;
    let asked = l0s_asked(d.l0_tbls, write_sizes, ranges, write_cf_only);
    &&& content(snap.outer_start) == d.range.start
    &&& content(snap.outer_end) == d.range.end
    &&& snap.inner_key_off == d.inner_key_off as u32
    &&& snap.properties is Some
    &&& snap.properties->0.shard_id == info.id
    &&& match info.encryption_key {
        Some(key) => {
            &&& snap.properties->0.keys@.len() == 1
            &&& snap.properties->0.keys@[0]@ == ENCRYPTION_KEY@
            &&& snap.properties->0.values@ == seq![key]
        },
        None => snap.properties->0.keys@.len() == 0 && snap.properties->0.values@.len() == 0,
    }
    &&& snap.l0_creates@ == asked.map_values(|t: L0Table| l0_create(t))
    &&& snap.blob_creates@ == d.blob_tbls.map_values(|t: BlobTable| blob_create(t, offsets))
    &&& snap.table_creates@ == table_creates(
        d.cfs,
        ranges,
        write_cf_only,
        offsets,
        NUM_CFS as int,
    )
    &&& snap.columnar_creates@ == columnar_creates(
        d.col_levels.levels,
        holding,
        offsets,
        d.col_levels.levels.len() as int,
    )
    &&& snap.unconverted_l0s@ == ids_among(d.col_levels.unconverted_l0s, asked)
    &&& match d.schema_file {
        Some(schema) => snap.schema_meta == Some(
            SchemaMeta {
                file_id: schema.file_id,
                version: schema.version,
                restore_version: schema.restore_version,
                keyspace_id: d.range.keyspace_id,
            },
        ),
        None => snap.schema_meta is None,
    }
    &&& snap.columnar_table_ids@ == d.columnar_table_ids
    &&& snap.columnar_l2_snap_version == d.col_levels.l2_snap_version.version
    &&& vectors_of(snap.vector_indexes@) == d.vector_indexes
    &&& snap.data_sequence == 0
    &&& snap.base_version == 0
    &&& snap.max_ts == 0
    &&& snap.txn_file_refs@.len() == 0
    &&& snap.fts_indexes@.len() == 0
    &&& snap.fts_l0_snap_version == 0
    &&& snap.fts_l0_files@.len() == 0
    &&& snap.fts_l1_files@.len() == 0
    &&& snap.fts_l2_files@.len() == 0
    &&& snap.fts_pending_l0_ids@.len() == 0
}

/// The files that a reader of the ranges needs, as a change that holds a snapshot and
/// nothing else. The sequence of its data is not known and not set.
///
/// `write_sizes` are the sizes of what the tables of level 0 hold of the column family
/// of committed data. `holding` are, for each range, the columnar files that have data of it.
pub fn to_change_set(
    info: &SnapInfo,
    data: &ShardData,
    write_sizes: &Vec<Option<u64>>,
    offsets: &HashMap<u64, u32>,
    ranges: &Vec<KeyRange>,
    holding: &Vec<Vec<u64>>,
    write_cf_only: bool,
) -> (res: ChangeSet)
    requires
        data@.wf(),
        levels_ordered(data@.cfs),
        write_sizes@.len() == data@.l0_tbls.len(),
        holding@.len() == ranges@.len(),
    ensures
        res.shard_id == info.id,
        res.shard_ver == info.ver,
        res.sequence == info.meta_seq,
        (ChangeSet { sequence: 0, snapshot: None, ..res }).blank(),
        res.snapshot is Some,
        snapshot_for(
            res.snapshot->0,
            *info,
            *data,
            write_sizes@,
            offsets@,
            ranges@,
            holding@,
            write_cf_only,
        ),
{
    let mut cs = pb::new_change_set(info.id, info.ver);
    cs.sequence = info.meta_seq;
    let mut snap = Snapshot::default();
    let mut properties = pb::Properties::default();
    properties.shard_id = info.id;
    if let Some(key) = &info.encryption_key {
        properties.keys.push(ENCRYPTION_KEY.to_string());
        properties.values.push(key.clone());
        assert(properties.values@ =~= seq![*key]);
    }
    snap.properties = Some(properties);
    snap.outer_start = data.range.outer_start.clone();
    snap.outer_end = data.range.outer_end.clone();
    snap.inner_key_off = data.inner_key_off as u32;
    let (l0_creates, l0_ids) = collect_l0s(&data.l0_tbls, write_sizes, ranges, write_cf_only);
    let ghost asked = l0s_asked(data@.l0_tbls, write_sizes@, ranges@, write_cf_only);
    snap.l0_creates = l0_creates;
    snap.blob_creates = collect_blobs(&data.blob_tbls, offsets);
    snap.table_creates = collect_tables(data, ranges, write_cf_only, offsets);
    snap.columnar_creates = collect_columnar(data, holding, offsets);
    snap.unconverted_l0s =
    collect_unconverted(&data.col_levels.unconverted_l0s, &l0_ids, Ghost(asked));
    if let Some(schema) = &data.schema_file {
        snap.schema_meta = Some(
            SchemaMeta {
                file_id: schema.file_id,
                version: schema.version,
                restore_version: schema.restore_version,
                keyspace_id: data.range.keyspace_id,
            },
        );
    }
    snap.columnar_table_ids = copy_i64s(&data.columnar_table_ids);
    snap.columnar_l2_snap_version = data.col_levels.l2_snap_version.version;
    snap.vector_indexes = copy_vectors(&data.vector_indexes);
    cs.snapshot = Some(snap);
    cs
}

proof fn lemma_level_creates(
    level: Level,
    cf: int,
    ranges: Seq<KeyRange>,
    offsets: Map<u64, u32>,
    n: int,
    k: int,
)
    requires
        0 <= k < n <= level.tables.len(),
        table_asked(level.tables, ranges, level.tables[k]),
    ensures
        level_creates(level, cf, ranges, offsets, n).contains(
            table_create(level.tables[k], cf, level.level, offsets),
        ),
    decreases n,
{
    let t = table_create(level.tables[k], cf, level.level, offsets);
    let all = level_creates(level, cf, ranges, offsets, n);
    if k < n - 1 {
        lemma_level_creates(level, cf, ranges, offsets, n - 1, k);
        let rest = level_creates(level, cf, ranges, offsets, n - 1);
        let j = rest.index_of(t);
        assert(all[j] == t);
    } else {
        assert(all.last() == t);
    }
}

proof fn lemma_cf_creates(
    levels: Seq<Level>,
    cf: int,
    ranges: Seq<KeyRange>,
    offsets: Map<u64, u32>,
    n: int,
    l: int,
    t: TableCreate,
)
    requires
        0 <= l < n <= levels.len(),
        level_creates(levels[l], cf, ranges, offsets, levels[l].tables.len() as int).contains(t),
    ensures
        cf_creates(levels, cf, ranges, offsets, n).contains(t),
    decreases n,
{
    let all = cf_creates(levels, cf, ranges, offsets, n);
    let rest = cf_creates(levels, cf, ranges, offsets, n - 1);
    if l < n - 1 {
        lemma_cf_creates(levels, cf, ranges, offsets, n - 1, l, t);
        let j = rest.index_of(t);
        assert(all[j] == t);
    } else {
        let part = level_creates(levels[l], cf, ranges, offsets, levels[l].tables.len() as int);
        let j = part.index_of(t);
        assert(all[rest.len() + j] == t);
    }
}

/// Each table that has keys of a range is handed out, where its column family is wanted.
pub proof fn law_tables_of_the_ranges_are_handed_out(
    cfs: Seq<Seq<Level>>,
    ranges: Seq<KeyRange>,
    write_cf_only: bool,
    offsets: Map<u64, u32>,
    n: int,
    cf: int,
    l: int,
    k: int,
)
    requires
        0 <= cf < n <= cfs.len(),
        0 <= l < cfs[cf].len(),
        0 <= k < cfs[cf][l].tables.len(),
        hit(cfs[cf][l].tables[k].bound(), ranges),
        !write_cf_only || cf == WRITE_CF,
    ensures
        table_creates(cfs, ranges, write_cf_only, offsets, n).contains(
            table_create(cfs[cf][l].tables[k], cf, cfs[cf][l].level, offsets),
        ),
    decreases n,
{
    let level = cfs[cf][l];
    let t = table_create(level.tables[k], cf, level.level, offsets);
    let all = table_creates(cfs, ranges, write_cf_only, offsets, n);
    let rest = table_creates(cfs, ranges, write_cf_only, offsets, n - 1);
    if cf < n - 1 {
        law_tables_of_the_ranges_are_handed_out(
            cfs,
            ranges,
            write_cf_only,
            offsets,
            n - 1,
            cf,
            l,
            k,
        );
        let j = rest.index_of(t);
        assert(all[j] == t);
    } else {
        assert(table_asked(level.tables, ranges, level.tables[k]));
        lemma_level_creates(level, cf, ranges, offsets, level.tables.len() as int, k);
        lemma_cf_creates(cfs[cf], cf, ranges, offsets, cfs[cf].len() as int, l, t);
        let part = cf_creates(cfs[cf], cf, ranges, offsets, cfs[cf].len() as int);
        let j = part.index_of(t);
        assert(all[rest.len() + j] == t);
    }
}

/// The keys of the ranges, one behind the other.
pub open spec fn ranges_bytes(ranges: Seq<KeyRange>) -> Seq<u8>
    decreases ranges.len(),
{
    if ranges.len() == 0 {
        Seq::empty()
    } else {
        ranges_bytes(ranges.drop_last()) + content(ranges.last().0) + content(ranges.last().1)
    }
}

/// Under which key the answer to the ranges is cached: the shard, its version, the
/// sequence and the ranges, with colons between them.
pub open spec fn cache_key_of(id: u64, ver: u64, seq: u64, ranges: Seq<KeyRange>) -> Seq<char> {
    dec_text(id as nat) + seq![':'] + dec_text(ver as nat) + seq![':'] + dec_text(seq as nat)
        + seq![':'] + hex_of(ranges_bytes(ranges))
}

/// Under which key the answer to the ranges is cached; nothing where it is not.
pub fn cache_key(cs: &ChangeSet, ranges: &Vec<KeyRange>, wanted: bool) -> (res: String)
    ensures
        res@ == (if wanted {
            cache_key_of(cs.shard_id, cs.shard_ver, cs.sequence, ranges@)
        } else {
            Seq::empty()
        }),
{
    let mut res = "".to_string();
    proof {
        reveal_strlit("");
        assert(res@ =~= Seq::<char>::empty());
    }
    if !wanted {
        return res;
    }
    let mut bytes: Vec<u8> = Vec::new();
    let mut i: usize = 0;
    while i < ranges.len()
        invariant
            i <= ranges@.len(),
            bytes@ =~= ranges_bytes(ranges@.take(i as int)),
        decreases ranges@.len() - i,
    {
        assert(ranges@.take(i + 1).drop_last() =~= ranges@.take(i as int));
        bytes.extend_from_slice(&ranges[i].0);
        bytes.extend_from_slice(&ranges[i].1);
        i = i + 1;
    }
    assert(ranges@.take(ranges@.len() as int) =~= ranges@);
    let ranges_key = hex_encode(bytes.as_slice());
    append_dec(&mut res, cs.shard_id);
    res.append(":");
    append_dec(&mut res, cs.shard_ver);
    res.append(":");
    append_dec(&mut res, cs.sequence);
    res.append(":");
    res.append(ranges_key.as_str());
    proof {
        reveal_strlit(":");
        assert(":"@ =~= seq![':']);
        assert(res@ =~= cache_key_of(cs.shard_id, cs.shard_ver, cs.sequence, ranges@));
    }
    res
}

} // verus!

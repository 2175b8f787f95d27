//! Tables by column family and level.
use bytes::Bytes;
use vstd::prelude::*;

use crate::bound::{ordered, Bound, BoundedDataSet, DataBound, InnerKey};
use crate::buf::content;
use crate::file_meta::key_bound;
use crate::key::{bytes_lt, lemma_le_transitive, lemma_not_lt, lex_le, lex_lt};
use crate::keyspace::{inner_end_of, inner_of};
use crate::pb::TableIdSpan;

verus! {

/// What is known of an open table.
#[derive(Debug)]
pub struct SsTable {
    /// File id.
    pub id: u64,
    /// Lowest inner key.
    pub smallest: Bytes,
    /// Highest inner key.
    pub biggest: Bytes,
    /// Size of the file.
    pub size: u64,
    /// Size of keys and values.
    pub kv_size: u64,
    /// Number of entries.
    pub entries: u32,
    /// Number of deletions.
    pub tombs: u32,
    /// Highest timestamp.
    pub max_ts: u64,
    /// Highest timestamp of locks.
    pub max_lock_ts: u64,
    /// Size of the blobs that it refers to.
    pub blob_size: u64,
    /// The file is on local disk.
    pub sync: bool,
    /// The file is kept remote.
    pub storage_class_ia: bool,
    /// Table ids of its keys.
    pub table_ids: TableIdSpan,
}

impl Clone for SsTable {
    fn clone(&self) -> (res: Self)
        ensures
            res == *self,
    {
        SsTable {
            id: self.id,
            smallest: self.smallest.clone(),
            biggest: self.biggest.clone(),
            size: self.size,
            kv_size: self.kv_size,
            entries: self.entries,
            tombs: self.tombs,
            max_ts: self.max_ts,
            max_lock_ts: self.max_lock_ts,
            blob_size: self.blob_size,
            sync: self.sync,
            storage_class_ia: self.storage_class_ia,
            table_ids: self.table_ids,
        }
    }
}

impl BoundedDataSet for SsTable {
    open spec fn bound(&self) -> Bound {
        key_bound(self.smallest, self.biggest)
    }

    fn data_bound(&self) -> (res: DataBound<'_>) {
        DataBound::new(
            InnerKey::from_inner_buf(&self.smallest),
            InnerKey::from_inner_buf(&self.biggest),
            true,
        )
    }
}

/// Lowest inner keys of the blocks of a table, in order.
pub struct BlockIndex {
    /// The keys.
    pub keys: Vec<Vec<u8>>,
}

/// How many of the keys are at most `k`.
pub open spec fn blocks_up_to(keys: Seq<Vec<u8>>, k: Seq<u8>) -> nat
    decreases keys.len(),
{
    if keys.len() == 0 || lex_lt(k, keys[0]@) {
        0
    } else {
        1 + blocks_up_to(keys.drop_first(), k)
    }
}

/// How many of the keys are below `k`.
pub open spec fn blocks_below(keys: Seq<Vec<u8>>, k: Seq<u8>) -> nat
    decreases keys.len(),
{
    if keys.len() == 0 || !lex_lt(keys[0]@, k) {
        0
    } else {
        1 + blocks_below(keys.drop_first(), k)
    }
}

impl BlockIndex {
    /// How many blocks there are.
    pub fn num_blocks(&self) -> (res: usize)
        ensures
            res == self.keys@.len(),
    {
        self.keys.len()
    }

    /// The first block whose lowest key is above the key.
    pub fn seek_block(&self, key: InnerKey<'_>) -> (res: usize)
        ensures
            res == blocks_up_to(self.keys@, key@),
            res <= self.keys@.len(),
    {
        let mut i: usize = 0;
        assert(self.keys@.skip(0) =~= self.keys@);
        while i < self.keys.len() && !bytes_lt(key.deref(), self.keys[i].as_slice())
            invariant
                i <= self.keys@.len(),
                i + blocks_up_to(self.keys@.skip(i as int), key@) == blocks_up_to(
                    self.keys@,
                    key@,
                ),
            decreases self.keys@.len() - i,
        {
            assert(self.keys@.skip(i as int).drop_first() =~= self.keys@.skip(i + 1));
            i = i + 1;
        }
        i
    }

    /// The first block whose lowest key is the key or above it.
    pub fn seek_block_bigger_or_equal(&self, key: InnerKey<'_>) -> (res: usize)
        ensures
            res == blocks_below(self.keys@, key@),
            res <= self.keys@.len(),
    {
        let mut i: usize = 0;
        assert(self.keys@.skip(0) =~= self.keys@);
        while i < self.keys.len() && bytes_lt(self.keys[i].as_slice(), key.deref())
            invariant
                i <= self.keys@.len(),
                i + blocks_below(self.keys@.skip(i as int), key@) == blocks_below(
                    self.keys@,
                    key@,
                ),
            decreases self.keys@.len() - i,
        {
            assert(self.keys@.skip(i as int).drop_first() =~= self.keys@.skip(i + 1));
            i = i + 1;
        }
        i
    }
}

/// The highest timestamp of the tables.
pub open spec fn tables_max_ts(tables: Seq<SsTable>) -> u64
    decreases tables.len(),
{
    if tables.len() == 0 {
        0
    } else {
        let rest = tables_max_ts(tables.drop_last());
        if rest < tables.last().max_ts {
            tables.last().max_ts
        } else {
            rest
        }
    }
}

/// The tables of a level.
#[derive(Debug)]
pub struct LevelHandler {
    /// Tables, by their lowest keys.
    pub tables: Vec<SsTable>,
    /// Level.
    pub level: usize,
    /// Highest timestamp of the tables.
    pub max_ts: u64,
}

/// The tables of a level.
#[verifier::ext_equal]
pub struct Level {
    /// Tables, by their lowest keys.
    pub tables: Seq<SsTable>,
    /// Level.
    pub level: usize,
    /// Highest timestamp of the tables.
    pub max_ts: u64,
}

/// A level that knows the highest timestamp of its tables.
pub open spec fn level_of(tables: Seq<SsTable>, level: usize) -> Level {
    Level { tables, level, max_ts: tables_max_ts(tables) }
}

impl View for LevelHandler {
    type V = Level;

    open spec fn view(&self) -> Level {
        Level { tables: self.tables@, level: self.level, max_ts: self.max_ts }
    }
}

/// A copy of the tables.
pub fn copy_tables(v: &Vec<SsTable>) -> (res: Vec<SsTable>)
    ensures
        res@ == v@,
{
    let res = v.clone();
    assert(res@ =~= v@);
    res
}

/// No two neighbours of the tables are out of order: no table but the last ends
/// before it begins, and each begins and ends before the next does.
pub open spec fn neighbours_in_order(tables: Seq<SsTable>) -> bool {
    forall|i: int|
        0 <= i < tables.len() - 1 ==> {
            &&& lex_le((#[trigger] tables[i]).bound().lower, tables[i].bound().upper)
            &&& lex_lt(tables[i].bound().lower, tables[i + 1].bound().lower)
            &&& lex_lt(tables[i].bound().upper, tables[i + 1].bound().upper)
        }
}

/// Where the tables that overlap the bound begin and end.
pub open spec fn overlap_range(tables: Seq<SsTable>, b: Bound, l: int, r: int) -> bool {
    &&& 0 <= l <= r <= tables.len()
    &&& forall|i: int|
        0 <= i < tables.len() ==> ((#[trigger] tables[i]).bound().overlaps(b) <==> l <= i < r)
}

/// Where the tables that overlap the bound begin.
pub open spec fn overlap_left(tables: Seq<SsTable>, b: Bound) -> int {
    (choose|l: int, r: int| #[trigger] overlap_range(tables, b, l, r) && l < r).0
}

/// Where the tables that overlap the bound end.
pub open spec fn overlap_right(tables: Seq<SsTable>, b: Bound) -> int {
    (choose|l: int, r: int| #[trigger] overlap_range(tables, b, l, r) && l < r).1
}

/// Some table overlaps the bound.
pub open spec fn any_overlap(tables: Seq<SsTable>, b: Bound) -> bool {
    exists|i: int| 0 <= i < tables.len() && (#[trigger] tables[i]).bound().overlaps(b)
}

/// Where the tables that overlap begin and end is known once it is found.
pub proof fn lemma_overlap_range(tables: Seq<SsTable>, b: Bound, l: int, r: int)
    requires
        overlap_range(tables, b, l, r),
    ensures
        any_overlap(tables, b) <==> l < r,
        l < r ==> overlap_left(tables, b) == l && overlap_right(tables, b) == r,
{
    if l < r {
        assert(tables[l].bound().overlaps(b));
        let (l2, r2) = choose|l: int, r: int| #[trigger] overlap_range(tables, b, l, r) && l < r;
        assert(overlap_range(tables, b, l2, r2) && l2 < r2);
        assert(tables[l2].bound().overlaps(b));
        assert(tables[r - 1].bound().overlaps(b));
        assert(tables[r2 - 1].bound().overlaps(b));
    }
}

/// The sizes of keys and values of the tables from `l` up to `r`.
pub open spec fn kv_sum(tables: Seq<SsTable>, l: int, r: int) -> int
    decreases r - l,
{
    if r <= l {
        0
    } else {
        kv_sum(tables, l, r - 1) + tables[r - 1].kv_size as usize
    }
}

/// The blocks that ranges were found in so far: their size, and where the last
/// range ended.
pub struct BlockWalk {
    /// Size of the blocks.
    pub size: int,
    /// Table that the last range ended in.
    pub id: u64,
    /// Block that the last range ended before.
    pub right: int,
}

/// The inner bound of a range of keys.
pub open spec fn range_bound(start: Seq<u8>, end: Seq<u8>) -> Bound {
    Bound { lower: inner_of(start), upper: inner_end_of(end), inclusive: false }
}

/// Size of keys and values of a block of the table, on average.
pub open spec fn avg_block(t: SsTable, idx: BlockIndex) -> int {
    (t.kv_size as usize) as int / (idx.keys@.len() as int)
}

/// The first block of the first table that a range is in.
pub open spec fn first_left(idx: BlockIndex, b: Bound) -> int {
    let n = blocks_up_to(idx.keys@, b.lower) as int;
    if n > 0 {
        n - 1
    } else {
        0
    }
}

/// The block of the first table that a range ends before.
pub open spec fn first_right(idx: BlockIndex, b: Bound, only: bool) -> int {
    if only {
        blocks_below(idx.keys@, b.upper) as int
    } else {
        idx.keys@.len() as int
    }
}

/// The size after the first table of a range: its blocks are added, but for one
/// that the range before ended in.
pub open spec fn first_table_size(
    w: BlockWalk,
    t: SsTable,
    idx: BlockIndex,
    b: Bound,
    only: bool,
) -> int {
    let avg = avg_block(t, idx);
    let size = w.size + (first_right(idx, b, only) - first_left(idx, b)) * avg;
    if t.id == w.id && first_left(idx, b) < w.right {
        size - avg
    } else {
        size
    }
}

/// One more range.
pub open spec fn walk_range(
    tables: Seq<SsTable>,
    indexes: Seq<BlockIndex>,
    w: BlockWalk,
    b: Bound,
) -> BlockWalk {
    if !any_overlap(tables, b) {
        w
    } else {
        let l = overlap_left(tables, b);
        let r = overlap_right(tables, b);
        let size = first_table_size(w, tables[l], indexes[l], b, r - l == 1);
        if r - l == 1 {
            BlockWalk { size, id: tables[l].id, right: first_right(indexes[l], b, true) }
        } else {
            let right = blocks_below(indexes[r - 1].keys@, b.upper) as int;
            BlockWalk {
                size: size + kv_sum(tables, l + 1, r - 1) + right * avg_block(
                    tables[r - 1],
                    indexes[r - 1],
                ),
                id: tables[r - 1].id,
                right,
            }
        }
    }
}

/// The first `n` ranges.
pub open spec fn walk_ranges(
    tables: Seq<SsTable>,
    indexes: Seq<BlockIndex>,
    ranges: Seq<(Bytes, Bytes)>,
    n: nat,
) -> BlockWalk
    decreases n,
{
    if n == 0 {
        BlockWalk { size: 0, id: 0, right: 0 }
    } else {
        walk_range(
            tables,
            indexes,
            walk_ranges(tables, indexes, ranges, (n - 1) as nat),
            range_bound(content(ranges[n - 1].0), content(ranges[n - 1].1)),
        )
    }
}

/// The blocks of the range can be counted in a machine word: no range ends before
/// it begins, and the sizes are not too large.
pub open spec fn walk_fits(
    tables: Seq<SsTable>,
    indexes: Seq<BlockIndex>,
    w: BlockWalk,
    b: Bound,
) -> bool {
    any_overlap(tables, b) ==> {
        let l = overlap_left(tables, b);
        let r = overlap_right(tables, b);
        let only = r - l == 1;
        &&& first_left(indexes[l], b) <= first_right(indexes[l], b, only)
        &&& w.size + (first_right(indexes[l], b, only) - first_left(indexes[l], b)) * avg_block(
            tables[l],
            indexes[l],
        ) <= usize::MAX
        &&& 0 <= first_table_size(w, tables[l], indexes[l], b, only)
        &&& walk_range(tables, indexes, w, b).size <= usize::MAX
    }
}

proof fn lemma_kv_sum(tables: Seq<SsTable>, l: int, r: int, m: int)
    requires
        l <= m <= r,
    ensures
        0 <= kv_sum(tables, l, m) <= kv_sum(tables, l, r),
    decreases r - l,
{
    if m < r {
        lemma_kv_sum(tables, l, r - 1, m);
    } else if l < m {
        lemma_kv_sum(tables, l, m - 1, m - 1);
    }
}

proof fn lemma_product(a: int, b: int)
    requires
        0 <= a,
        0 <= b,
    ensures
        0 <= a * b,
{
    assert(0 <= a * b) by (nonlinear_arith)
        requires
            0 <= a,
            0 <= b,
    ;
}

impl LevelHandler {
    /// The tables of a level.
    pub fn new(level: usize, tables: Vec<SsTable>) -> (res: Self)
        ensures
            res@ == level_of(tables@, level),
    {
        let mut max_ts: u64 = 0;
        let mut i: usize = 0;
        assert(tables@.take(0) =~= Seq::empty());
        while i < tables.len()
            invariant
                i <= tables@.len(),
                max_ts == tables_max_ts(tables@.take(i as int)),
            decreases tables@.len() - i,
        {
            assert(tables@.take(i + 1).drop_last() =~= tables@.take(i as int));
            if max_ts < tables[i].max_ts {
                max_ts = tables[i].max_ts;
            }
            i = i + 1;
        }
        assert(tables@.take(i as int) =~= tables@);
        LevelHandler { tables, level, max_ts }
    }

    /// A copy.
    pub fn copy(&self) -> (res: Self)
        ensures
            res@ == self@,
    {
        LevelHandler { tables: copy_tables(&self.tables), level: self.level, max_ts: self.max_ts }
    }

    /// The table that a key is in, if it is in any: the first that reaches it. The
    /// key may lie before it.
    pub fn get_table(&self, key: InnerKey<'_>) -> (res: Option<&SsTable>)
        requires
            ordered(self@.tables),
        ensures
            match res {
                Some(t) => exists|i: int|
                    {
                        &&& 0 <= i < self@.tables.len()
                        &&& #[trigger] self@.tables[i] == *t
                        &&& lex_le(key@, t.bound().upper)
                        &&& forall|j: int|
                            0 <= j < i ==> lex_lt((#[trigger] self@.tables[j]).bound().upper, key@)
                    },
                None => forall|j: int|
                    0 <= j < self@.tables.len() ==> lex_lt(
                        (#[trigger] self@.tables[j]).bound().upper,
                        key@,
                    ),
            },
    {
        let tables = self.tables.as_slice();
        let idx = crate::bound::first_reaching(tables, key);
        if idx >= tables.len() {
            return None;
        }
        assert(self@.tables[idx as int] == tables@[idx as int]);
        assert(lex_le(key@, tables@[idx as int].bound().upper));
        Some(&tables[idx])
    }

    /// The table with the id, the first where there are several.
    pub fn get_table_by_id(&self, id: u64) -> (res: Option<SsTable>)
        ensures
            match res {
                Some(t) => exists|i: int|
                    {
                        &&& 0 <= i < self@.tables.len()
                        &&& #[trigger] self@.tables[i] == t
                        &&& t.id == id
                        &&& forall|j: int| 0 <= j < i ==> (#[trigger] self@.tables[j]).id != id
                    },
                None => forall|j: int|
                    0 <= j < self@.tables.len() ==> (#[trigger] self@.tables[j]).id != id,
            },
    {
        let mut i: usize = 0;
        while i < self.tables.len()
            invariant
                i <= self.tables@.len(),
                forall|j: int| 0 <= j < i ==> (#[trigger] self@.tables[j]).id != id,
            decreases self.tables@.len() - i,
        {
            if self.tables[i].id == id {
                assert(self@.tables[i as int].id == id);
                return Some(self.tables[i].clone());
            }
            i = i + 1;
        }
        None
    }

    /// Whether the tables are in order.
    pub fn check_order(&self) -> (res: bool)
        ensures
            res == neighbours_in_order(self@.tables),
    {
        let tables = &self.tables;
        if tables.len() <= 1 {
            return true;
        }
        let mut i: usize = 0;
        while i < tables.len() - 1
            invariant
                i <= tables@.len() - 1,
                tables@ == self@.tables,
                forall|j: int|
                    0 <= j < i ==> {
                        &&& lex_le((#[trigger] tables@[j]).bound().lower, tables@[j].bound().upper)
                        &&& lex_lt(tables@[j].bound().lower, tables@[j + 1].bound().lower)
                        &&& lex_lt(tables@[j].bound().upper, tables@[j + 1].bound().upper)
                    },
            decreases tables@.len() - i,
        {
            let ti = tables[i].data_bound();
            let tj = tables[i + 1].data_bound();
            proof {
                lemma_not_lt(ti@.upper, ti@.lower);
                lemma_not_lt(ti@.lower, tj@.lower);
                lemma_not_lt(ti@.upper, tj@.upper);
            }
            if ti.upper_bound.lt(ti.lower_bound) || !ti.lower_bound.lt(tj.lower_bound)
                || !ti.upper_bound.lt(tj.upper_bound) {
                assert(tables@[i as int].bound() == ti@);
                return false;
            }
            i = i + 1;
        }
        true
    }

    /// From the lowest key of the first table to the highest key of the last.
    pub fn get_data_bound(&self) -> (res: Option<DataBound<'_>>)
        ensures
            match res {
                Some(b) => self@.tables.len() > 0 && b@ == (Bound {
                    lower: self@.tables[0].bound().lower,
                    upper: self@.tables[self@.tables.len() - 1].bound().upper,
                    inclusive: true,
                }),
                None => self@.tables.len() == 0,
            },
    {
        if self.tables.len() == 0 {
            return None;
        }
        let first = &self.tables[0];
        let last = &self.tables[self.tables.len() - 1];
        Some(
            DataBound::new(
                InnerKey::from_inner_buf(&first.smallest),
                InnerKey::from_inner_buf(&last.biggest),
                true,
            ),
        )
    }

    /// Size of the blocks that the ranges are in, estimated from the average of
    /// each table. Of two ranges in a row that meet in a block, it counts once.
    /// `indexes` gives the blocks of each table.
    pub fn range_blocks_size(
        &self,
        indexes: &Vec<BlockIndex>,
        ranges: &Vec<(Bytes, Bytes)>,
    ) -> (res: usize)
        requires
            ordered(self@.tables),
            indexes@.len() == self@.tables.len(),
            forall|i: int| 0 <= i < indexes@.len() ==> (#[trigger] indexes@[i]).keys@.len() > 0,
            forall|n: int|
                0 <= n < ranges@.len() ==> walk_fits(
                    self@.tables,
                    indexes@,
                    walk_ranges(self@.tables, indexes@, ranges@, n as nat),
                    range_bound(content((#[trigger] ranges@[n]).0), content(ranges@[n].1)),
                ),
        ensures
            res == walk_ranges(self@.tables, indexes@, ranges@, ranges@.len()).size,
    {
        let tables = self.tables.as_slice();
        let mut blocks_size: usize = 0;
        let mut prev_table_id: u64 = 0;
        let mut prev_block_right: usize = 0;
        let mut n: usize = 0;
        while n < ranges.len()
            invariant
                n <= ranges@.len(),
                tables@ == self@.tables,
                ordered(tables@),
                indexes@.len() == tables@.len(),
                forall|i: int| 0 <= i < indexes@.len() ==> (#[trigger] indexes@[i]).keys@.len() > 0,
                forall|n: int|
                    0 <= n < ranges@.len() ==> walk_fits(
                        tables@,
                        indexes@,
                        walk_ranges(tables@, indexes@, ranges@, n as nat),
                        range_bound(content((#[trigger] ranges@[n]).0), content(ranges@[n].1)),
                    ),
                walk_ranges(tables@, indexes@, ranges@, n as nat) == (BlockWalk {
                    size: blocks_size as int,
                    id: prev_table_id,
                    right: prev_block_right as int,
                }),
            decreases ranges@.len() - n,
        {
            let start_key = InnerKey::from_outer_key(&ranges[n].0);
            let end_key = InnerKey::from_outer_end_key(&ranges[n].1);
            let bound = DataBound::new(start_key, end_key, false);
            let (left, right) = bound.get_overlap_data_sets(tables);
            let ghost b = range_bound(content(ranges@[n as int].0), content(ranges@[n as int].1));
            let ghost w = walk_ranges(tables@, indexes@, ranges@, n as nat);
            proof {
                assert(bound@ == b);
                assert(overlap_range(tables@, b, left as int, right as int)) by {
                    assert forall|i: int| 0 <= i < tables@.len() implies ((
                    #[trigger] tables@[i]).bound().overlaps(b) <==> left <= i < right) by {
                        assert(tables@[i].bound().overlaps(bound@) <==> left <= i < right);
                    }
                }
                lemma_overlap_range(tables@, b, left as int, right as int);
                assert(walk_fits(tables@, indexes@, w, b));
            }
            if left < right {
                let count = right - left;
                let first_table = &tables[left];
                let first_idx = &indexes[left];
                let first_avg_block_size: usize = first_table.kv_size as usize
                    / first_idx.num_blocks();
                let sought = first_idx.seek_block(start_key);
                let first_block_left: usize = if sought > 0 {
                    sought - 1
                } else {
                    0
                };
                let first_block_right: usize = if count == 1 {
                    first_idx.seek_block_bigger_or_equal(end_key)
                } else {
                    first_idx.num_blocks()
                };
                proof {
                    lemma_product(
                        first_block_right - first_block_left,
                        first_avg_block_size as int,
                    );
                }
                blocks_size =
                blocks_size + (first_block_right - first_block_left) * first_avg_block_size;
                if first_table.id == prev_table_id && first_block_left < prev_block_right {
                    blocks_size = blocks_size - first_avg_block_size;
                }
                if count == 1 {
                    prev_table_id = first_table.id;
                    prev_block_right = first_block_right;
                } else {
                    let last_table = &tables[right - 1];
                    let last_idx = &indexes[right - 1];
                    let last_block_right = last_idx.seek_block_bigger_or_equal(end_key);
                    let last_avg_block_size: usize = last_table.kv_size as usize
                        / last_idx.num_blocks();
                    proof {
                        lemma_product(last_block_right as int, last_avg_block_size as int);
                    }
                    let ghost size = blocks_size as int;
                    let mut m: usize = left + 1;
                    while m < right - 1
                        invariant
                            left + 1 <= m <= right - 1,
                            right <= tables@.len(),
                            blocks_size == size + kv_sum(tables@, left + 1, m as int),
                            size + kv_sum(tables@, left + 1, right - 1) <= usize::MAX,
                        decreases right - m,
                    {
                        proof {
                            lemma_kv_sum(tables@, left + 1, right - 1, m + 1);
                        }
                        blocks_size = blocks_size + tables[m].kv_size as usize;
                        m = m + 1;
                    }
                    blocks_size = blocks_size + last_block_right * last_avg_block_size;
                    prev_table_id = last_table.id;
                    prev_block_right = last_block_right;
                }
            }
            n = n + 1;
        }
        blocks_size
    }
}

/// Number of levels of each column family.
pub const CF_LEVELS: [usize; 3] = [3, 2, 1];

/// The levels of a column family.
#[derive(Debug)]
pub struct ShardCf {
    /// Levels, from 1 on.
    pub levels: Vec<LevelHandler>,
}

impl View for ShardCf {
    type V = Seq<Level>;

    open spec fn view(&self) -> Seq<Level> {
        Seq::new(self.levels@.len(), |i: int| self.levels@[i]@)
    }
}

/// How many levels a column family has.
pub open spec fn cf_levels(cf: int) -> int {
    3 - cf
}

/// Each level is at its place.
pub open spec fn levels_placed(levels: Seq<Level>) -> bool {
    forall|i: int| 0 <= i < levels.len() ==> (#[trigger] levels[i]).level == i + 1
}

/// Sizes of the files of the tables.
pub open spec fn size_sum(tables: Seq<SsTable>) -> int
    decreases tables.len(),
{
    if tables.len() == 0 {
        0
    } else {
        size_sum(tables.drop_last()) + tables.last().size
    }
}

/// Sizes of the files of all levels.
pub open spec fn levels_size(levels: Seq<Level>) -> int
    decreases levels.len(),
{
    if levels.len() == 0 {
        0
    } else {
        levels_size(levels.drop_last()) + size_sum(levels.last().tables)
    }
}

proof fn lemma_size_sum(s: Seq<SsTable>, i: int)
    requires
        0 <= i <= s.len(),
    ensures
        0 <= size_sum(s.take(i)) <= size_sum(s),
    decreases s.len() - i,
{
    if i < s.len() {
        lemma_size_sum(s, i + 1);
        assert(s.take(i + 1).drop_last() =~= s.take(i));
        lemma_size_sum_nonneg(s.take(i));
    } else {
        assert(s.take(i) =~= s);
        lemma_size_sum_nonneg(s);
    }
}

proof fn lemma_size_sum_nonneg(s: Seq<SsTable>)
    ensures
        0 <= size_sum(s),
    decreases s.len(),
{
    if s.len() > 0 {
        lemma_size_sum_nonneg(s.drop_last());
    }
}

proof fn lemma_levels_size(s: Seq<Level>, i: int)
    requires
        0 <= i <= s.len(),
    ensures
        0 <= levels_size(s.take(i)) <= levels_size(s),
    decreases s.len() - i,
{
    if i < s.len() {
        lemma_levels_size(s, i + 1);
        assert(s.take(i + 1).drop_last() =~= s.take(i));
        lemma_size_sum_nonneg(s[i].tables);
        lemma_levels_size_nonneg(s.take(i));
    } else {
        assert(s.take(i) =~= s);
        lemma_levels_size_nonneg(s);
    }
}

proof fn lemma_levels_size_nonneg(s: Seq<Level>)
    ensures
        0 <= levels_size(s),
    decreases s.len(),
{
    if s.len() > 0 {
        lemma_levels_size_nonneg(s.drop_last());
        lemma_size_sum_nonneg(s.last().tables);
    }
}

/// Of the first level that has tables, whether the first of them is on local disk.
pub open spec fn levels_sync(levels: Seq<Level>) -> bool
    decreases levels.len(),
{
    if levels.len() == 0 {
        true
    } else if levels[0].tables.len() > 0 {
        levels[0].tables[0].sync
    } else {
        levels_sync(levels.drop_first())
    }
}

impl ShardCf {
    /// The empty levels of a column family.
    pub fn new(cf: usize) -> (res: Self)
        requires
            cf < 3,
        ensures
            res@.len() == cf_levels(cf as int),
            levels_placed(res@),
            forall|i: int|
                0 <= i < res@.len() ==> (#[trigger] res@[i]) == level_of(
                    Seq::empty(),
                    (i + 1) as usize,
                ),
    {
        let mut levels: Vec<LevelHandler> = Vec::new();
        let mut j: usize = 1;
        while j <= CF_LEVELS[cf]
            invariant
                cf < 3,
                1 <= j <= cf_levels(cf as int) + 1,
                levels@.len() == j - 1,
                forall|i: int|
                    0 <= i < levels@.len() ==> (#[trigger] levels@[i])@ == level_of(
                        Seq::empty(),
                        (i + 1) as usize,
                    ),
            decreases 4 - j,
        {
            let none: Vec<SsTable> = Vec::new();
            assert(none@ =~= Seq::empty());
            levels.push(LevelHandler::new(j, none));
            j = j + 1;
        }
        ShardCf { levels }
    }

    /// A copy.
    pub fn copy(&self) -> (res: Self)
        ensures
            res@ == self@,
    {
        let mut levels: Vec<LevelHandler> = Vec::new();
        let mut i: usize = 0;
        while i < self.levels.len()
            invariant
                i <= self.levels@.len(),
                levels@.len() == i,
                forall|j: int| 0 <= j < i ==> (#[trigger] levels@[j])@ == self.levels@[j]@,
            decreases self.levels@.len() - i,
        {
            levels.push(self.levels[i].copy());
            i = i + 1;
        }
        let res = ShardCf { levels };
        assert(res@ =~= self@);
        res
    }

    /// A level.
    pub fn get_level(&self, level: usize) -> (res: &LevelHandler)
        requires
            1 <= level <= self@.len(),
        ensures
            res@ == self@[level - 1],
    {
        &self.levels[level - 1]
    }

    /// Replaces a level.
    pub fn set_level(&mut self, level_handler: LevelHandler)
        requires
            1 <= level_handler@.level <= old(self)@.len(),
        ensures
            final(self)@ == old(self)@.update(level_handler@.level - 1, level_handler@),
    {
        let ghost before = self@;
        let ghost l = level_handler@;
        let i = level_handler.level - 1;
        self.levels.set(i, level_handler);
        assert(self@ =~= before.update(l.level - 1, l));
    }

    /// Size of the files of all levels.
    pub fn size(&self) -> (res: u64)
        requires
            levels_size(self@) <= u64::MAX,
        ensures
            res == levels_size(self@),
    {
        let mut total: u64 = 0;
        let mut i: usize = 0;
        let ghost s = self@;
        assert(s.take(0) =~= Seq::empty());
        while i < self.levels.len()
            invariant
                i <= self.levels@.len(),
                s == self@,
                levels_size(s) <= u64::MAX,
                total == levels_size(s.take(i as int)),
            decreases self.levels@.len() - i,
        {
            let tables = &self.levels[i].tables;
            let ghost base = total as int;
            proof {
                lemma_levels_size(s, i + 1);
                assert(s.take(i + 1).drop_last() =~= s.take(i as int));
                assert(s.take(i + 1).last() == self.levels@[i as int]@);
                assert(tables@.take(0) =~= Seq::empty());
            }
            let mut j: usize = 0;
            while j < tables.len()
                invariant
                    j <= tables@.len(),
                    total == base + size_sum(tables@.take(j as int)),
                    base + size_sum(tables@) <= u64::MAX,
                decreases tables@.len() - j,
            {
                proof {
                    lemma_size_sum(tables@, j + 1);
                    assert(tables@.take(j + 1).drop_last() =~= tables@.take(j as int));
                }
                total = total + tables[j].size;
                j = j + 1;
            }
            assert(tables@.take(j as int) =~= tables@);
            i = i + 1;
        }
        assert(s.take(i as int) =~= s);
        total
    }

    /// Whether the tables are on local disk, as the first of them says.
    pub fn is_sync(&self) -> (res: bool)
        ensures
            res == levels_sync(self@),
    {
        let ghost s = self@;
        let mut i: usize = 0;
        assert(s.skip(0) =~= s);
        while i < self.levels.len()
            invariant
                i <= self.levels@.len(),
                s == self@,
                levels_sync(s) == levels_sync(s.skip(i as int)),
            decreases self.levels@.len() - i,
        {
            assert(s.skip(i as int)[0] == self.levels@[i as int]@);
            if self.levels[i].tables.len() > 0 {
                return self.levels[i].tables[0].sync;
            }
            assert(s.skip(i as int).drop_first() =~= s.skip(i + 1));
            i = i + 1;
        }
        true
    }
}

/// A list of tables with one more, behind those whose lowest key is not above its
/// own.
pub open spec fn insert_table(s: Seq<SsTable>, t: SsTable) -> Seq<SsTable>
    decreases s.len(),
{
    if s.len() == 0 {
        seq![t]
    } else if lex_le(s.last().bound().lower, t.bound().lower) {
        s.push(t)
    } else {
        insert_table(s.drop_last(), t).push(s.last())
    }
}

/// The tables by their lowest keys; those with one lowest key stay in order.
pub open spec fn sorted_tables(s: Seq<SsTable>) -> Seq<SsTable>
    decreases s.len(),
{
    if s.len() == 0 {
        Seq::empty()
    } else {
        insert_table(sorted_tables(s.drop_last()), s.last())
    }
}

/// The lowest keys of the tables do not decrease.
pub open spec fn tables_sorted(s: Seq<SsTable>) -> bool {
    forall|i: int, j: int|
        0 <= i < j < s.len() ==> lex_le(
            (#[trigger] s[i]).bound().lower,
            (#[trigger] s[j]).bound().lower,
        )
}

proof fn lemma_insert_table(s: Seq<SsTable>, t: SsTable)
    requires
        tables_sorted(s),
    ensures
        tables_sorted(insert_table(s, t)),
        insert_table(s, t).to_multiset() =~= s.to_multiset().insert(t),
    decreases s.len(),
{
    let r = insert_table(s, t);
    broadcast use vstd::seq_lib::group_to_multiset_ensures;

    if s.len() == 0 {
        assert(r =~= s.push(t));
    } else if lex_le(s.last().bound().lower, t.bound().lower) {
        assert forall|i: int, j: int| 0 <= i < j < r.len() implies lex_le(
            (#[trigger] r[i]).bound().lower,
            (#[trigger] r[j]).bound().lower,
        ) by {
            if j == s.len() && i < s.len() - 1 {
                assert(lex_le(s[i].bound().lower, s[s.len() - 1].bound().lower));
                lemma_le_transitive(
                    s[i].bound().lower,
                    s.last().bound().lower,
                    t.bound().lower,
                );
            }
        }
    } else {
        let h = s.drop_last();
        lemma_insert_table(h, t);
        let u = insert_table(h, t);
        assert(s =~= h.push(s.last()));
        lemma_not_lt(s.last().bound().lower, t.bound().lower);
        lemma_not_lt(t.bound().lower, s.last().bound().lower);
        assert(u.to_multiset() =~= h.to_multiset().insert(t));
        assert forall|i: int, j: int| 0 <= i < j < r.len() implies lex_le(
            (#[trigger] r[i]).bound().lower,
            (#[trigger] r[j]).bound().lower,
        ) by {
            if j == u.len() {
                let x = u[i];
                assert(u.contains(x));
                assert(u.to_multiset().contains(x));
                if x != t {
                    assert(h.to_multiset().contains(x));
                    assert(h.contains(x));
                    let k = choose|k: int| 0 <= k < h.len() && h[k] == x;
                    assert(lex_le(s[k].bound().lower, s[s.len() - 1].bound().lower));
                }
            }
        }
        assert(r.to_multiset() =~= u.to_multiset().insert(s.last()));
        assert(s.to_multiset() =~= h.to_multiset().insert(s.last()));
    }
}

/// Sorting keeps the tables, in the order of their lowest keys.
pub proof fn law_sorted_tables(s: Seq<SsTable>)
    ensures
        tables_sorted(sorted_tables(s)),
        sorted_tables(s).to_multiset() == s.to_multiset(),
    decreases s.len(),
{
    broadcast use vstd::seq_lib::group_to_multiset_ensures;

    if s.len() > 0 {
        law_sorted_tables(s.drop_last());
        lemma_insert_table(sorted_tables(s.drop_last()), s.last());
        assert(s =~= s.drop_last().push(s.last()));
    } else {
        assert(sorted_tables(s) =~= s);
    }
}

/// Sorts the tables by their lowest keys.
pub fn sort_tables(v: &Vec<SsTable>) -> (res: Vec<SsTable>)
    ensures
        res@ == sorted_tables(v@),
{
    let mut res: Vec<SsTable> = Vec::new();
    let mut i: usize = 0;
    assert(v@.take(0) =~= Seq::empty());
    while i < v.len()
        invariant
            i <= v@.len(),
            res@ == sorted_tables(v@.take(i as int)),
        decreases v@.len() - i,
    {
        assert(v@.take(i + 1).drop_last() =~= v@.take(i as int));
        let t = v[i].clone();
        let ghost s = res@;
        let mut j: usize = res.len();
        assert(s.take(j as int) =~= s);
        assert(insert_table(s, t) =~= insert_table(s.take(j as int), t) + s.skip(j as int));
        while j > 0 && bytes_lt(&t.smallest, &res[j - 1].smallest)
            invariant
                j <= res@.len(),
                res@ == s,
                insert_table(s, t) == insert_table(s.take(j as int), t) + s.skip(j as int),
            decreases j,
        {
            proof {
                let h = s.take(j as int);
                lemma_not_lt(t.bound().lower, h.last().bound().lower);
                crate::key::lemma_lt_asymmetric(t.bound().lower, h.last().bound().lower);
                assert(h.drop_last() =~= s.take(j - 1));
                assert(insert_table(s.take(j - 1), t) + s.skip(j - 1) =~= insert_table(
                    s.take(j - 1),
                    t,
                ).push(h.last()) + s.skip(j as int));
            }
            j = j - 1;
        }
        proof {
            if j > 0 {
                lemma_not_lt(t.bound().lower, s[j - 1].bound().lower);
            }
            assert(insert_table(s.take(j as int), t) =~= s.take(j as int).push(t));
        }
        res.insert(j, t);
        assert(res@ =~= s.take(j as int).push(t) + s.skip(j as int));
        i = i + 1;
    }
    assert(v@.take(i as int) =~= v@);
    res
}

/// The tables of the levels of a column family, in no order yet.
pub struct ShardCfBuilder {
    levels: Vec<Vec<SsTable>>,
}

impl View for ShardCfBuilder {
    type V = Seq<Seq<SsTable>>;

    closed spec fn view(&self) -> Seq<Seq<SsTable>> {
        Seq::new(self.levels@.len(), |i: int| self.levels@[i]@)
    }
}

impl ShardCfBuilder {
    /// No table yet.
    pub fn new(cf: usize) -> (res: Self)
        requires
            cf < 3,
        ensures
            res@ == Seq::new(cf_levels(cf as int) as nat, |i: int| Seq::<SsTable>::empty()),
    {
        let mut levels: Vec<Vec<SsTable>> = Vec::new();
        let mut j: usize = 0;
        while j < CF_LEVELS[cf]
            invariant
                cf < 3,
                j <= cf_levels(cf as int),
                levels@.len() == j,
                forall|i: int| 0 <= i < j ==> (#[trigger] levels@[i])@ =~= Seq::<SsTable>::empty(),
            decreases 3 - j,
        {
            levels.push(Vec::new());
            j = j + 1;
        }
        let res = ShardCfBuilder { levels };
        assert(res@ =~= Seq::new(cf_levels(cf as int) as nat, |i: int| Seq::<SsTable>::empty()));
        res
    }

    /// Adds a table to a level.
    pub fn add_table(&mut self, tbl: SsTable, level: usize)
        requires
            1 <= level <= old(self)@.len(),
        ensures
            final(self)@ == old(self)@.update(level - 1, old(self)@[level - 1].push(tbl)),
    {
        let ghost before = self@;
        let mut tables = copy_tables(&self.levels[level - 1]);
        tables.push(tbl);
        self.levels.set(level - 1, tables);
        assert(self@ =~= before.update(level - 1, before[level - 1].push(tbl)));
    }

    /// The levels, each with its tables in order.
    pub fn build(&self) -> (res: ShardCf)
        requires
            self@.len() < usize::MAX,
        ensures
            res@ == Seq::new(
                self@.len(),
                |i: int| level_of(sorted_tables(self@[i]), (i + 1) as usize),
            ),
    {
        let mut levels: Vec<LevelHandler> = Vec::new();
        let mut i: usize = 0;
        while i < self.levels.len()
            invariant
                i <= self.levels@.len(),
                self@.len() < usize::MAX,
                levels@.len() == i,
                forall|j: int|
                    0 <= j < i ==> (#[trigger] levels@[j])@ == level_of(
                        sorted_tables(self@[j]),
                        (j + 1) as usize,
                    ),
            decreases self.levels@.len() - i,
        {
            let tables = sort_tables(&self.levels[i]);
            levels.push(LevelHandler::new(i + 1, tables));
            i = i + 1;
        }
        let res = ShardCf { levels };
        assert(res@ =~= Seq::new(
            self@.len(),
            |i: int| level_of(sorted_tables(self@[i]), (i + 1) as usize),
        ));
        res
    }
}

} // verus!

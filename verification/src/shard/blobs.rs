//! How much of the blob tables is in use.
use vstd::prelude::*;

use crate::shard::data::{BlobTable, L0Table, ShardData};
use crate::shard::levels::{Level, LevelHandler, ShardCf};

verus! {

/// Sizes of the blobs that tables of level 0 refer to, from `i` on.
pub open spec fn l0_blobs_from(s: Seq<L0Table>, i: int) -> nat
    decreases s.len() - i,
{
    if i >= s.len() {
        0
    } else {
        s[i].blob_size as nat + l0_blobs_from(s, i + 1)
    }
}

/// Sizes of the blobs that the tables of a level refer to, from `i` on.
pub open spec fn table_blobs_from(level: Level, i: int) -> nat
    decreases level.tables.len() - i,
{
    if i >= level.tables.len() {
        0
    } else {
        level.tables[i].blob_size as nat + table_blobs_from(level, i + 1)
    }
}

/// That of the levels from `l` on.
pub open spec fn level_blobs_from(levels: Seq<Level>, l: int) -> nat
    decreases levels.len() - l,
{
    if l >= levels.len() {
        0
    } else {
        table_blobs_from(levels[l], 0) + level_blobs_from(levels, l + 1)
    }
}

/// That of the column families from `c` on.
pub open spec fn cf_blobs_from(cfs: Seq<Seq<Level>>, c: int) -> nat
    decreases cfs.len() - c,
{
    if c >= cfs.len() {
        0
    } else {
        level_blobs_from(cfs[c], 0) + cf_blobs_from(cfs, c + 1)
    }
}

/// Sizes of the blobs that blob tables hold, from `i` on.
pub open spec fn blob_tables_from(s: Seq<BlobTable>, i: int) -> nat
    decreases s.len() - i,
{
    if i >= s.len() {
        0
    } else {
        s[i].blob_size as nat + blob_tables_from(s, i + 1)
    }
}

fn blobs_of_level(level: &LevelHandler) -> (res: u64)
    requires
        table_blobs_from(level@, 0) <= u64::MAX,
    ensures
        res == table_blobs_from(level@, 0),
{
    let mut total: u64 = 0;
    let mut i: usize = 0;
    while i < level.tables.len()
        invariant
            i <= level.tables@.len(),
            table_blobs_from(level@, 0) <= u64::MAX,
            total + table_blobs_from(level@, i as int) == table_blobs_from(level@, 0),
        decreases level.tables@.len() - i,
    {
        total = total + level.tables[i].blob_size;
        i = i + 1;
    }
    total
}

fn blobs_of_cf(cf: &ShardCf) -> (res: u64)
    requires
        level_blobs_from(cf@, 0) <= u64::MAX,
    ensures
        res == level_blobs_from(cf@, 0),
{
    let mut total: u64 = 0;
    let mut l: usize = 0;
    while l < cf.levels.len()
        invariant
            l <= cf.levels@.len(),
            level_blobs_from(cf@, 0) <= u64::MAX,
            total + level_blobs_from(cf@, l as int) == level_blobs_from(cf@, 0),
        decreases cf.levels@.len() - l,
    {
        assert(cf@[l as int] == cf.levels@[l as int]@);
        total = total + blobs_of_level(&cf.levels[l]);
        l = l + 1;
    }
    total
}

impl ShardData {
    /// Size of the blobs that tables refer to, and of those that blob tables hold.
    pub fn get_blob_usage(&self) -> (res: (u64, u64))
        requires
            l0_blobs_from(self@.l0_tbls, 0) + cf_blobs_from(self@.cfs, 0) <= u64::MAX,
            blob_tables_from(self@.blob_tbls, 0) <= u64::MAX,
        ensures
            res.0 == l0_blobs_from(self@.l0_tbls, 0) + cf_blobs_from(self@.cfs, 0),
            res.1 == blob_tables_from(self@.blob_tbls, 0),
    {
        let ghost all = l0_blobs_from(self@.l0_tbls, 0) + cf_blobs_from(self@.cfs, 0);
        let mut in_use: u64 = 0;
        let mut i: usize = 0;
        while i < self.l0_tbls.len()
            invariant
                i <= self.l0_tbls@.len(),
                l0_blobs_from(self@.l0_tbls, 0) <= u64::MAX,
                in_use + l0_blobs_from(self@.l0_tbls, i as int) == l0_blobs_from(self@.l0_tbls, 0),
            decreases self.l0_tbls@.len() - i,
        {
            in_use = in_use + self.l0_tbls[i].blob_size;
            i = i + 1;
        }
        let mut c: usize = 0;
        while c < self.cfs.len()
            invariant
                c <= self.cfs@.len(),
                all <= u64::MAX,
                in_use + cf_blobs_from(self@.cfs, c as int) == all,
            decreases self.cfs@.len() - c,
        {
            assert(self@.cfs[c as int] == self.cfs@[c as int]@);
            in_use = in_use + blobs_of_cf(&self.cfs[c]);
            c = c + 1;
        }
        let mut total: u64 = 0;
        let mut b: usize = 0;
        while b < self.blob_tbls.len()
            invariant
                b <= self.blob_tbls@.len(),
                blob_tables_from(self@.blob_tbls, 0) <= u64::MAX,
                total + blob_tables_from(self@.blob_tbls, b as int) == blob_tables_from(
                    self@.blob_tbls,
                    0,
                ),
            decreases self.blob_tbls@.len() - b,
        {
            total = total + self.blob_tbls[b].blob_size;
            b = b + 1;
        }
        (in_use, total)
    }
}

} // verus!

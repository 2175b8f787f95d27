//! Sizes and timestamps of the tables of a shard.
use vstd::prelude::*;

use crate::bound::{Bound, BoundedDataSet};
use crate::pb::StorageClassSpec;
use crate::shard::data::{ColumnarFile, L0Table, ShardData};
use crate::shard::levels::{LevelHandler, SsTable};
use crate::{EXTRA_CF, LOCK_CF, WRITE_CF};

verus! {

/// Sizes and timestamps of the tables of a level.
#[derive(Clone, Copy, Debug, PartialEq, Eq, Structural)]
pub struct LevelStatsLite {
    /// Size of the files.
    pub data_size: u64,
    /// Size of the blobs that they refer to.
    pub blob_size: u64,
    /// Number of entries.
    pub entries: u64,
    /// Size of keys and values.
    pub kv_size: u64,
    /// That of tables that are kept remote.
    pub ia_kv_size: u64,
    /// Highest timestamp.
    pub max_ts: u64,
    /// That of committed data from level 2 on.
    pub lv2plus_max_ts: u64,
    /// Number of deletions of committed data from level 2 on.
    pub lv2plus_tombs: u64,
    /// Number of entries of committed data from level 2 on.
    pub lv2plus_entries_write_cf: u64,
    /// Lowest of the highest timestamps of the tables of locks; zero where there
    /// is none.
    pub lv1plus_min_max_lock_ts: u64,
    /// Lowest of the highest timestamps of the tables of the extra column family;
    /// zero where there is none.
    pub lv1_min_max_extra_ts: u64,
    /// Size of columnar files.
    pub columnar_size: u64,
    /// Size of their keys and values.
    pub columnar_kv_size: u64,
}

impl Default for LevelStatsLite {
    fn default() -> (res: Self)
        ensures
            res == Self::zero(),
    {
        LevelStatsLite {
            data_size: 0,
            blob_size: 0,
            entries: 0,
            kv_size: 0,
            ia_kv_size: 0,
            max_ts: 0,
            lv2plus_max_ts: 0,
            lv2plus_tombs: 0,
            lv2plus_entries_write_cf: 0,
            lv1plus_min_max_lock_ts: 0,
            lv1_min_max_extra_ts: 0,
            columnar_size: 0,
            columnar_kv_size: 0,
        }
    }
}

impl LevelStatsLite {
    /// Nothing.
    pub open spec fn zero() -> LevelStatsLite {
        LevelStatsLite {
            data_size: 0,
            blob_size: 0,
            entries: 0,
            kv_size: 0,
            ia_kv_size: 0,
            max_ts: 0,
            lv2plus_max_ts: 0,
            lv2plus_tombs: 0,
            lv2plus_entries_write_cf: 0,
            lv1plus_min_max_lock_ts: 0,
            lv1_min_max_extra_ts: 0,
            columnar_size: 0,
            columnar_kv_size: 0,
        }
    }
}

/// What a number counts for: half, where the table reaches outside the shard.
pub open spec fn share(x: int, over: bool) -> int {
    if over {
        x / 2
    } else {
        x
    }
}

fn share_of(x: u64, over: bool) -> (res: u64)
    ensures
        res == share(x as int, over),
{
    if over {
        x / 2
    } else {
        x
    }
}

/// Sums over the tables of a level.
pub struct Sums {
    /// Size of the files.
    pub data_size: int,
    /// Size of the blobs that they refer to.
    pub blob_size: int,
    /// Number of entries.
    pub entries: int,
    /// Size of keys and values.
    pub kv_size: int,
    /// Number of deletions.
    pub tombs: int,
    /// Size of keys and values of tables that are kept remote.
    pub ia_kv_size: int,
}

/// Whether table `i` is at an end of the level and reaches outside the bound.
pub open spec fn over_bound_at(tables: Seq<SsTable>, i: int, b: Bound) -> bool {
    (i == 0 || i == tables.len() - 1) && !b.covers(tables[i].bound())
}

/// The sums over the first `n` tables.
pub open spec fn sums_of(tables: Seq<SsTable>, b: Bound, n: nat) -> Sums
    decreases n,
{
    if n == 0 {
        Sums { data_size: 0, blob_size: 0, entries: 0, kv_size: 0, tombs: 0, ia_kv_size: 0 }
    } else {
        let s = sums_of(tables, b, (n - 1) as nat);
        let t = tables[n - 1];
        let over = over_bound_at(tables, n - 1, b);
        Sums {
            data_size: s.data_size + share(t.size as int, over),
            blob_size: s.blob_size + share(t.blob_size as int, over),
            entries: s.entries + share(t.entries as int, over),
            kv_size: s.kv_size + share(t.kv_size as int, over),
            tombs: s.tombs + share(t.tombs as int, over),
            ia_kv_size: s.ia_kv_size + if t.storage_class_ia {
                share(t.kv_size as int, over)
            } else {
                0
            },
        }
    }
}

/// The highest timestamp of the first `n` tables.
pub open spec fn max_ts_of(tables: Seq<SsTable>, n: nat) -> u64
    decreases n,
{
    if n == 0 {
        0
    } else {
        let rest = max_ts_of(tables, (n - 1) as nat);
        if rest >= tables[n - 1].max_ts {
            rest
        } else {
            tables[n - 1].max_ts
        }
    }
}

/// The lower of two timestamps, of which zero says that there is none.
pub open spec fn lower_ts(a: u64, b: u64) -> u64 {
    if a == 0 || a > b {
        b
    } else {
        a
    }
}

/// The lowest highest timestamp of locks of the first `n` tables that do not
/// reach outside the bound.
pub open spec fn min_lock_ts(tables: Seq<SsTable>, b: Bound, n: nat) -> u64
    decreases n,
{
    if n == 0 {
        0
    } else {
        let rest = min_lock_ts(tables, b, (n - 1) as nat);
        if over_bound_at(tables, n - 1, b) {
            rest
        } else {
            lower_ts(rest, tables[n - 1].max_lock_ts)
        }
    }
}

/// The lowest highest timestamp of the first `n` tables that do not reach outside
/// the bound.
pub open spec fn min_extra_ts(tables: Seq<SsTable>, b: Bound, n: nat) -> u64
    decreases n,
{
    if n == 0 {
        0
    } else {
        let rest = min_extra_ts(tables, b, (n - 1) as nat);
        if over_bound_at(tables, n - 1, b) {
            rest
        } else {
            lower_ts(rest, tables[n - 1].max_ts)
        }
    }
}

/// Size of keys and values of the tables that are kept remote, as the storage
/// class says: all, those that are, or none.
pub open spec fn remote_size(sums: Sums, sc: StorageClassSpec) -> int {
    if sc.must_be_ia {
        sums.kv_size
    } else if sc.spec_can_be_ia() {
        sums.ia_kv_size
    } else {
        0
    }
}

/// The statistics of a level of a column family.
pub open spec fn level_stats(
    tables: Seq<SsTable>,
    b: Bound,
    cf: usize,
    level: usize,
    sc: StorageClassSpec,
) -> LevelStatsLite {
    let n = tables.len();
    let s = sums_of(tables, b, n);
    let write = cf == WRITE_CF;
    let low = write && level >= 2;
    LevelStatsLite {
        data_size: s.data_size as u64,
        blob_size: s.blob_size as u64,
        entries: s.entries as u64,
        kv_size: if write {
            s.kv_size as u64
        } else {
            0
        },
        ia_kv_size: if write {
            remote_size(s, sc) as u64
        } else {
            0
        },
        max_ts: max_ts_of(tables, n),
        lv2plus_max_ts: if low {
            max_ts_of(tables, n)
        } else {
            0
        },
        lv2plus_tombs: if low {
            s.tombs as u64
        } else {
            0
        },
        lv2plus_entries_write_cf: if low {
            s.entries as u64
        } else {
            0
        },
        lv1plus_min_max_lock_ts: if cf == LOCK_CF {
            min_lock_ts(tables, b, n)
        } else {
            0
        },
        lv1_min_max_extra_ts: if cf == EXTRA_CF {
            min_extra_ts(tables, b, n)
        } else {
            0
        },
        columnar_size: 0,
        columnar_kv_size: 0,
    }
}

/// The sums fit a machine word.
pub open spec fn sums_fit(s: Sums) -> bool {
    &&& s.data_size <= u64::MAX
    &&& s.blob_size <= u64::MAX
    &&& s.entries <= u64::MAX
    &&& s.kv_size <= u64::MAX
    &&& s.tombs <= u64::MAX
}

proof fn lemma_sums_grow(tables: Seq<SsTable>, b: Bound, n: nat, m: nat)
    requires
        n <= m,
    ensures
        ({
            let s = sums_of(tables, b, n);
            let t = sums_of(tables, b, m);
            &&& 0 <= s.data_size <= t.data_size
            &&& 0 <= s.blob_size <= t.blob_size
            &&& 0 <= s.entries <= t.entries
            &&& 0 <= s.kv_size <= t.kv_size
            &&& 0 <= s.tombs <= t.tombs
            &&& 0 <= s.ia_kv_size <= t.ia_kv_size
            &&& s.ia_kv_size <= s.kv_size
        }),
    decreases m,
{
    if n < m {
        lemma_sums_grow(tables, b, n, (m - 1) as nat);
    } else if n > 0 {
        lemma_sums_grow(tables, b, (n - 1) as nat, (n - 1) as nat);
    }
}

/// The sums over tables of level 0.
pub struct L0Sums {
    /// Size of the files.
    pub data_size: int,
    /// Number of entries.
    pub entries: int,
    /// Size of keys and values.
    pub kv_size: int,
}

/// The sums over tables of level 0.
pub open spec fn l0_sums(s: Seq<L0Table>, b: Bound) -> L0Sums
    decreases s.len(),
{
    if s.len() == 0 {
        L0Sums { data_size: 0, entries: 0, kv_size: 0 }
    } else {
        let rest = l0_sums(s.drop_last(), b);
        let t = s.last();
        let over = !b.covers(t.bound());
        L0Sums {
            data_size: rest.data_size + share(t.size as int, over),
            entries: rest.entries + share(t.entries as int, over),
            kv_size: rest.kv_size + share(t.kv_size as int, over),
        }
    }
}

/// The highest timestamp of tables of level 0.
pub open spec fn l0_max_ts(s: Seq<L0Table>) -> u64
    decreases s.len(),
{
    if s.len() == 0 {
        0
    } else {
        let rest = l0_max_ts(s.drop_last());
        if rest >= s.last().max_ts {
            rest
        } else {
            s.last().max_ts
        }
    }
}

/// The sums over tables of level 0 fit a machine word.
pub open spec fn l0_sums_fit(s: L0Sums) -> bool {
    s.data_size <= u64::MAX && s.entries <= u64::MAX && s.kv_size <= u64::MAX
}

proof fn lemma_l0_sums_grow(s: Seq<L0Table>, b: Bound, i: int)
    requires
        0 <= i <= s.len(),
    ensures
        0 <= l0_sums(s.take(i), b).data_size <= l0_sums(s, b).data_size,
        0 <= l0_sums(s.take(i), b).entries <= l0_sums(s, b).entries,
        0 <= l0_sums(s.take(i), b).kv_size <= l0_sums(s, b).kv_size,
    decreases s.len(),
{
    if i == s.len() {
        assert(s.take(i) =~= s);
        if s.len() > 0 {
            let t = s.drop_last();
            lemma_l0_sums_grow(t, b, t.len() as int);
            assert(t.take(t.len() as int) =~= t);
        }
    } else {
        lemma_l0_sums_grow(s.drop_last(), b, i);
        assert(s.drop_last().take(i) =~= s.take(i));
    }
}

/// Sizes of columnar files.
pub open spec fn columnar_sizes(s: Seq<ColumnarFile>) -> (int, int)
    decreases s.len(),
{
    if s.len() == 0 {
        (0, 0)
    } else {
        let rest = columnar_sizes(s.drop_last());
        (rest.0 + s.last().size, rest.1 + s.last().kv_size)
    }
}

proof fn lemma_columnar_grow(s: Seq<ColumnarFile>, i: int)
    requires
        0 <= i <= s.len(),
    ensures
        0 <= columnar_sizes(s.take(i)).0 <= columnar_sizes(s).0,
        0 <= columnar_sizes(s.take(i)).1 <= columnar_sizes(s).1,
    decreases s.len(),
{
    if i == s.len() {
        assert(s.take(i) =~= s);
        if s.len() > 0 {
            let t = s.drop_last();
            lemma_columnar_grow(t, t.len() as int);
            assert(t.take(t.len() as int) =~= t);
        }
    } else {
        lemma_columnar_grow(s.drop_last(), i);
        assert(s.drop_last().take(i) =~= s.take(i));
    }
}

impl ShardData {
    /// Whether the table is at an end of the level and reaches outside the shard.
    fn is_over_bound_table(&self, level: &LevelHandler, i: usize) -> (res: bool)
        requires
            i < level@.tables.len(),
        ensures
            res == over_bound_at(level@.tables, i as int, self@.range.inner_bound()),
    {
        (i == 0 || i == level.tables.len() - 1) && !self.range.data_bound().contains_bound(
            level.tables[i].data_bound(),
        )
    }

    /// The statistics of the tables of level 0. One that reaches outside the shard
    /// counts half.
    pub fn get_l0_stats(&self) -> (res: LevelStatsLite)
        requires
            l0_sums_fit(l0_sums(self@.l0_tbls, self@.range.inner_bound())),
        ensures
            ({
                let s = l0_sums(self@.l0_tbls, self@.range.inner_bound());
                res == (LevelStatsLite {
                    data_size: s.data_size as u64,
                    entries: s.entries as u64,
                    kv_size: s.kv_size as u64,
                    max_ts: l0_max_ts(self@.l0_tbls),
                    ..LevelStatsLite::zero()
                })
            }),
    {
        let bound = self.range.data_bound();
        let ghost b = self@.range.inner_bound();
        let ghost all = self@.l0_tbls;
        let mut stats = LevelStatsLite::default();
        let mut i: usize = 0;
        assert(all.take(0) =~= Seq::empty());
        while i < self.l0_tbls.len()
            invariant
                i <= self.l0_tbls@.len(),
                all == self.l0_tbls@,
                bound@ == b,
                l0_sums_fit(l0_sums(all, b)),
                stats == (LevelStatsLite {
                    data_size: l0_sums(all.take(i as int), b).data_size as u64,
                    entries: l0_sums(all.take(i as int), b).entries as u64,
                    kv_size: l0_sums(all.take(i as int), b).kv_size as u64,
                    max_ts: l0_max_ts(all.take(i as int)),
                    ..LevelStatsLite::zero()
                }),
            decreases self.l0_tbls@.len() - i,
        {
            let l0 = &self.l0_tbls[i];
            proof {
                assert(all.take(i + 1).drop_last() =~= all.take(i as int));
                lemma_l0_sums_grow(all, b, i as int);
                lemma_l0_sums_grow(all, b, i + 1);
            }
            let over = !bound.contains_bound(l0.data_bound());
            stats.data_size = stats.data_size + share_of(l0.size, over);
            stats.entries = stats.entries + share_of(l0.entries, over);
            stats.kv_size = stats.kv_size + share_of(l0.kv_size, over);
            if stats.max_ts < l0.max_ts {
                stats.max_ts = l0.max_ts;
            }
            i = i + 1;
        }
        assert(all.take(i as int) =~= all);
        stats
    }

    /// The size of the tables of level 0.
    pub fn get_l0_total_size(&self) -> (res: u64)
        requires
            l0_sums_fit(l0_sums(self@.l0_tbls, self@.range.inner_bound())),
        ensures
            res == l0_sums(self@.l0_tbls, self@.range.inner_bound()).data_size,
    {
        proof {
            let all = self@.l0_tbls;
            lemma_l0_sums_grow(all, self@.range.inner_bound(), all.len() as int);
            assert(all.take(all.len() as int) =~= all);
        }
        self.get_l0_stats().data_size
    }

    /// The statistics of the tables of a level of a column family. One at an end of
    /// the level that reaches outside the shard counts half, and not at all for the
    /// lowest timestamps.
    pub fn get_level_stats(
        &self,
        cf: usize,
        level: &LevelHandler,
        sc_spec: &StorageClassSpec,
    ) -> (res: LevelStatsLite)
        requires
            sums_fit(
                sums_of(level@.tables, self@.range.inner_bound(), level@.tables.len()),
            ),
        ensures
            res == level_stats(
                level@.tables,
                self@.range.inner_bound(),
                cf,
                level@.level,
                *sc_spec,
            ),
    {
        let ghost b = self@.range.inner_bound();
        let ghost all = level@.tables;
        let mut data_size: u64 = 0;
        let mut blob_size: u64 = 0;
        let mut entries: u64 = 0;
        let mut kv_size: u64 = 0;
        let mut tombs: u64 = 0;
        let mut ia_kv_size: u64 = 0;
        let mut max_ts: u64 = 0;
        let mut lock_ts: u64 = 0;
        let mut extra_ts: u64 = 0;
        let mut i: usize = 0;
        while i < level.tables.len()
            invariant
                i <= level.tables@.len(),
                all == level.tables@,
                all == level@.tables,
                b == self@.range.inner_bound(),
                sums_fit(sums_of(all, b, all.len())),
                sums_of(all, b, i as nat) == (Sums {
                    data_size: data_size as int,
                    blob_size: blob_size as int,
                    entries: entries as int,
                    kv_size: kv_size as int,
                    tombs: tombs as int,
                    ia_kv_size: ia_kv_size as int,
                }),
                max_ts == max_ts_of(all, i as nat),
                lock_ts == min_lock_ts(all, b, i as nat),
                extra_ts == min_extra_ts(all, b, i as nat),
            decreases level.tables@.len() - i,
        {
            let tbl = &level.tables[i];
            let over = self.is_over_bound_table(level, i);
            proof {
                lemma_sums_grow(all, b, (i + 1) as nat, all.len());
                let s = sums_of(all, b, (i + 1) as nat);
                assert(s.ia_kv_size <= s.kv_size);
            }
            data_size = data_size + share_of(tbl.size, over);
            blob_size = blob_size + share_of(tbl.blob_size, over);
            entries = entries + share_of(tbl.entries as u64, over);
            kv_size = kv_size + share_of(tbl.kv_size, over);
            tombs = tombs + share_of(tbl.tombs as u64, over);
            if tbl.storage_class_ia {
                ia_kv_size = ia_kv_size + share_of(tbl.kv_size, over);
            }
            if max_ts < tbl.max_ts {
                max_ts = tbl.max_ts;
            }
            if !over {
                if lock_ts == 0 || lock_ts > tbl.max_lock_ts {
                    lock_ts = tbl.max_lock_ts;
                }
                if extra_ts == 0 || extra_ts > tbl.max_ts {
                    extra_ts = tbl.max_ts;
                }
            }
            i = i + 1;
        }
        let mut stats = LevelStatsLite::default();
        stats.data_size = data_size;
        stats.blob_size = blob_size;
        stats.entries = entries;
        stats.max_ts = max_ts;
        if cf == WRITE_CF {
            stats.kv_size = kv_size;
            if level.level >= 2 {
                stats.lv2plus_max_ts = max_ts;
                stats.lv2plus_tombs = tombs;
                stats.lv2plus_entries_write_cf = entries;
            }
            stats.ia_kv_size = if sc_spec.must_be_ia {
                kv_size
            } else if sc_spec.can_be_ia() {
                ia_kv_size
            } else {
                0
            };
        }
        if cf == LOCK_CF {
            stats.lv1plus_min_max_lock_ts = lock_ts;
        }
        if cf == EXTRA_CF {
            stats.lv1_min_max_extra_ts = extra_ts;
        }
        stats
    }

    /// The sizes of the columnar files of a level.
    pub fn get_columnar_level_stats(&self, level: usize) -> (res: LevelStatsLite)
        requires
            level < self@.col_levels.levels.len(),
            columnar_sizes(self@.col_levels.levels[level as int]).0 <= u64::MAX,
            columnar_sizes(self@.col_levels.levels[level as int]).1 <= u64::MAX,
        ensures
            res == (LevelStatsLite {
                columnar_size: columnar_sizes(self@.col_levels.levels[level as int]).0 as u64,
                columnar_kv_size: columnar_sizes(self@.col_levels.levels[level as int]).1 as u64,
                ..LevelStatsLite::zero()
            }),
    {
        let files = &self.col_levels.levels[level];
        let ghost all = self@.col_levels.levels[level as int];
        let mut stats = LevelStatsLite::default();
        let mut i: usize = 0;
        assert(all.take(0) =~= Seq::empty());
        while i < files.len()
            invariant
                i <= files@.len(),
                all == files@,
                columnar_sizes(all).0 <= u64::MAX,
                columnar_sizes(all).1 <= u64::MAX,
                stats == (LevelStatsLite {
                    columnar_size: columnar_sizes(all.take(i as int)).0 as u64,
                    columnar_kv_size: columnar_sizes(all.take(i as int)).1 as u64,
                    ..LevelStatsLite::zero()
                }),
            decreases files@.len() - i,
        {
            proof {
                assert(all.take(i + 1).drop_last() =~= all.take(i as int));
                lemma_columnar_grow(all, i as int);
                lemma_columnar_grow(all, i + 1);
            }
            stats.columnar_size = stats.columnar_size + files[i].size;
            stats.columnar_kv_size = stats.columnar_kv_size + files[i].kv_size;
            i = i + 1;
        }
        assert(all.take(i as int) =~= all);
        stats
    }
}

/// What is kept remote of a level is never more than what is there.
pub proof fn law_remote_size_is_part(
    tables: Seq<SsTable>,
    b: Bound,
    sc: StorageClassSpec,
)
    ensures
        0 <= remote_size(sums_of(tables, b, tables.len()), sc) <= sums_of(
            tables,
            b,
            tables.len(),
        ).kv_size,
{
    lemma_sums_grow(tables, b, tables.len(), tables.len());
}

} // verus!

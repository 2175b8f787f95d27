//! Sizes, counts and timestamps of shards, as totals and extremes over what they hold.
use vstd::prelude::*;

use crate::bound::{Bound, BoundedDataSet};
use crate::buf::content;
use crate::key::{lex_le, lex_lt};
use crate::pb::StorageClassSpec;
use crate::shard::blobs::{
    blob_tables_from, cf_blobs_from, l0_blobs_from, level_blobs_from, table_blobs_from,
};
use crate::shard::data::{mem_max_ts, mem_size, BlobTable, ColumnarFile, L0Table, Mem};
use crate::shard::levels::{levels_size, size_sum, Level, SsTable};
use crate::shard::split_keys::l0_sizes;
use crate::shard::state::{
    kv_from, levels_kv_from, mem_max_version, states_of, sum_from, ShardStates,
};
use crate::shard::stats::{
    columnar_sizes, l0_max_ts, l0_sums, level_stats, max_ts_of, min_extra_ts, min_lock_ts,
    over_bound_at, sums_fit, sums_of, LevelStatsLite,
};

verus! {

/// The total of what `f` says of each item.
pub open spec fn total<A>(s: Seq<A>, f: spec_fn(A) -> int) -> int
    decreases s.len(),
{
    if s.len() == 0 {
        0
    } else {
        f(s[0]) + total(s.drop_first(), f)
    }
}

/// A total is that of all but the last item, and the last.
pub proof fn lemma_total_last<A>(s: Seq<A>, f: spec_fn(A) -> int)
    requires
        s.len() > 0,
    ensures
        total(s, f) == total(s.drop_last(), f) + f(s.last()),
    decreases s.len(),
{
    if s.len() == 1 {
        assert(s.drop_first() =~= Seq::empty());
        assert(s.drop_last() =~= Seq::empty());
        assert(total(s.drop_first(), f) == 0);
        assert(total(s.drop_last(), f) == 0);
    } else {
        lemma_total_last(s.drop_first(), f);
        assert(s.drop_first().drop_last() =~= s.drop_last().drop_first());
        assert(s.drop_first().last() == s.last());
        assert(s.drop_last()[0] == s[0]);
    }
}

proof fn lemma_total_skip<A>(s: Seq<A>, f: spec_fn(A) -> int, i: int)
    requires
        0 <= i < s.len(),
    ensures
        total(s.skip(i), f) == f(s[i]) + total(s.skip(i + 1), f),
{
    assert(s.skip(i)[0] == s[i]);
    assert(s.skip(i).drop_first() =~= s.skip(i + 1));
}

proof fn lemma_total_none<A>(s: Seq<A>, f: spec_fn(A) -> int, i: int)
    requires
        i == s.len(),
    ensures
        total(s.skip(i), f) == 0,
{
    assert(s.skip(i) =~= Seq::empty());
}

/// Two functions that say the same of each item give the same total.
pub proof fn lemma_total_same<A>(s: Seq<A>, f: spec_fn(A) -> int, g: spec_fn(A) -> int)
    requires
        forall|i: int| 0 <= i < s.len() ==> f(#[trigger] s[i]) == g(s[i]),
    ensures
        total(s, f) == total(s, g),
    decreases s.len(),
{
    if s.len() > 0 {
        assert(f(s[0]) == g(s[0]));
        let rest = s.drop_first();
        assert forall|i: int| 0 <= i < rest.len() implies f(#[trigger] rest[i]) == g(rest[i]) by {
            assert(rest[i] == s[i + 1]);
        }
        lemma_total_same(rest, f, g);
    }
}

proof fn lemma_level_blobs(level: Level, i: int)
    requires
        0 <= i <= level.tables.len(),
    ensures
        table_blobs_from(level, i) == total(level.tables.skip(i), |t: SsTable| t.blob_size as int),
    decreases level.tables.len() - i,
{
    let f = |t: SsTable| t.blob_size as int;
    if i < level.tables.len() {
        lemma_level_blobs(level, i + 1);
        lemma_total_skip(level.tables, f, i);
    } else {
        lemma_total_none(level.tables, f, i);
    }
}

/// The blobs that the tables of a level refer to.
pub open spec fn blobs_in_level(level: Level) -> int {
    total(level.tables, |t: SsTable| t.blob_size as int)
}

/// The blobs that the tables of a column family refer to.
pub open spec fn blobs_in_cf(levels: Seq<Level>) -> int {
    total(levels, |l: Level| blobs_in_level(l))
}

proof fn lemma_cf_blobs(levels: Seq<Level>, i: int)
    requires
        0 <= i <= levels.len(),
    ensures
        level_blobs_from(levels, i) == total(levels.skip(i), |l: Level| blobs_in_level(l)),
    decreases levels.len() - i,
{
    let f = |l: Level| blobs_in_level(l);
    if i < levels.len() {
        lemma_cf_blobs(levels, i + 1);
        lemma_total_skip(levels, f, i);
        lemma_level_blobs(levels[i], 0);
        assert(levels[i].tables.skip(0) =~= levels[i].tables);
    } else {
        lemma_total_none(levels, f, i);
    }
}

proof fn lemma_cfs_blobs(cfs: Seq<Seq<Level>>, i: int)
    requires
        0 <= i <= cfs.len(),
    ensures
        cf_blobs_from(cfs, i) == total(cfs.skip(i), |l: Seq<Level>| blobs_in_cf(l)),
    decreases cfs.len() - i,
{
    let f = |l: Seq<Level>| blobs_in_cf(l);
    if i < cfs.len() {
        lemma_cfs_blobs(cfs, i + 1);
        lemma_total_skip(cfs, f, i);
        lemma_cf_blobs(cfs[i], 0);
        assert(cfs[i].skip(0) =~= cfs[i]);
    } else {
        lemma_total_none(cfs, f, i);
    }
}

proof fn lemma_l0_blobs(s: Seq<L0Table>, i: int)
    requires
        0 <= i <= s.len(),
    ensures
        l0_blobs_from(s, i) == total(s.skip(i), |t: L0Table| t.blob_size as int),
    decreases s.len() - i,
{
    let f = |t: L0Table| t.blob_size as int;
    if i < s.len() {
        lemma_l0_blobs(s, i + 1);
        lemma_total_skip(s, f, i);
    } else {
        lemma_total_none(s, f, i);
    }
}

proof fn lemma_blob_tables(s: Seq<BlobTable>, i: int)
    requires
        0 <= i <= s.len(),
    ensures
        blob_tables_from(s, i) == total(s.skip(i), |t: BlobTable| t.blob_size as int),
    decreases s.len() - i,
{
    let f = |t: BlobTable| t.blob_size as int;
    if i < s.len() {
        lemma_blob_tables(s, i + 1);
        lemma_total_skip(s, f, i);
    } else {
        lemma_total_none(s, f, i);
    }
}

/// The blobs in use are those of all tables of all levels and of level 0; the blobs that there
/// are, those of all blob tables.
pub proof fn law_blobs_in_use_are_those_of_all_tables(
    l0s: Seq<L0Table>,
    cfs: Seq<Seq<Level>>,
    blobs: Seq<BlobTable>,
)
    ensures
        l0_blobs_from(l0s, 0) + cf_blobs_from(cfs, 0) == total(
            l0s,
            |t: L0Table| t.blob_size as int,
        ) + total(cfs, |l: Seq<Level>| blobs_in_cf(l)),
        blob_tables_from(blobs, 0) == total(blobs, |t: BlobTable| t.blob_size as int),
{
    lemma_l0_blobs(l0s, 0);
    lemma_cfs_blobs(cfs, 0);
    lemma_blob_tables(blobs, 0);
    assert(l0s.skip(0) =~= l0s);
    assert(cfs.skip(0) =~= cfs);
    assert(blobs.skip(0) =~= blobs);
}

proof fn lemma_sum(s: Seq<u64>, i: int)
    requires
        0 <= i <= s.len(),
    ensures
        sum_from(s, i) == total(s.skip(i), |x: u64| x as int),
    decreases s.len() - i,
{
    let f = |x: u64| x as int;
    if i < s.len() {
        lemma_sum(s, i + 1);
        lemma_total_skip(s, f, i);
    } else {
        lemma_total_none(s, f, i);
    }
}

proof fn lemma_level_kv(level: Level, i: int)
    requires
        0 <= i <= level.tables.len(),
    ensures
        kv_from(level, i) == total(level.tables.skip(i), |t: SsTable| t.kv_size as int),
    decreases level.tables.len() - i,
{
    let f = |t: SsTable| t.kv_size as int;
    if i < level.tables.len() {
        lemma_level_kv(level, i + 1);
        lemma_total_skip(level.tables, f, i);
    } else {
        lemma_total_none(level.tables, f, i);
    }
}

/// Keys and values of the tables of a level.
pub open spec fn kv_in_level(level: Level) -> int {
    total(level.tables, |t: SsTable| t.kv_size as int)
}

proof fn lemma_levels_kv(levels: Seq<Level>, i: int)
    requires
        0 <= i <= levels.len(),
    ensures
        levels_kv_from(levels, i) == total(levels.skip(i), |l: Level| kv_in_level(l)),
    decreases levels.len() - i,
{
    let f = |l: Level| kv_in_level(l);
    if i < levels.len() {
        lemma_levels_kv(levels, i + 1);
        lemma_total_skip(levels, f, i);
        lemma_level_kv(levels[i], 0);
        assert(levels[i].tables.skip(0) =~= levels[i].tables);
    } else {
        lemma_total_none(levels, f, i);
    }
}

/// The size of a column family is that of all its memory tables and of the keys and values of
/// all tables of all its levels.
pub proof fn law_size_of_a_column_family_is_that_of_all_tables(
    mem_sizes: Seq<u64>,
    levels: Seq<Level>,
)
    ensures
        sum_from(mem_sizes, 0) + levels_kv_from(levels, 0) == total(
            mem_sizes,
            |x: u64| x as int,
        ) + total(levels, |l: Level| kv_in_level(l)),
{
    lemma_sum(mem_sizes, 0);
    lemma_levels_kv(levels, 0);
    assert(mem_sizes.skip(0) =~= mem_sizes);
    assert(levels.skip(0) =~= levels);
}

proof fn lemma_size_sum(s: Seq<SsTable>)
    ensures
        size_sum(s) == total(s, |t: SsTable| t.size as int),
    decreases s.len(),
{
    if s.len() > 0 {
        lemma_size_sum(s.drop_last());
        lemma_total_last(s, |t: SsTable| t.size as int);
    }
}

/// The size of the levels is that of the files of all their tables.
pub proof fn law_size_of_levels_is_that_of_all_tables(levels: Seq<Level>)
    ensures
        levels_size(levels) == total(
            levels,
            |l: Level| total(l.tables, |t: SsTable| t.size as int),
        ),
    decreases levels.len(),
{
    let f = |l: Level| total(l.tables, |t: SsTable| t.size as int);
    if levels.len() > 0 {
        law_size_of_levels_is_that_of_all_tables(levels.drop_last());
        lemma_total_last(levels, f);
        lemma_size_sum(levels.last().tables);
    }
}

/// The size of the tables of level 0, and that of memory, are those of all of them.
pub proof fn law_sizes_are_totals(l0s: Seq<L0Table>, mems: Seq<Mem>, files: Seq<ColumnarFile>)
    ensures
        l0_sizes(l0s) == total(l0s, |t: L0Table| t.size as int),
        mem_size(mems) == total(mems, |m: Mem| m.size as int),
        columnar_sizes(files).0 == total(files, |f: ColumnarFile| f.size as int),
        columnar_sizes(files).1 == total(files, |f: ColumnarFile| f.kv_size as int),
    decreases l0s.len() + mems.len() + files.len(),
{
    if l0s.len() > 0 {
        law_sizes_are_totals(l0s.drop_last(), Seq::empty(), Seq::empty());
        lemma_total_last(l0s, |t: L0Table| t.size as int);
    }
    if mems.len() > 0 {
        law_sizes_are_totals(Seq::empty(), mems.drop_last(), Seq::empty());
        lemma_total_last(mems, |m: Mem| m.size as int);
    }
    if files.len() > 0 {
        law_sizes_are_totals(Seq::empty(), Seq::empty(), files.drop_last());
        lemma_total_last(files, |f: ColumnarFile| f.size as int);
        lemma_total_last(files, |f: ColumnarFile| f.kv_size as int);
    }
}

/// The highest timestamp, or version, in memory is that of one memory table, and none has a
/// higher one.
pub proof fn law_highest_timestamp_of_memory(mems: Seq<Mem>)
    ensures
        forall|i: int| 0 <= i < mems.len() ==> (#[trigger] mems[i]).max_ts <= mem_max_ts(mems),
        mem_max_ts(mems) == 0 || exists|i: int|
            0 <= i < mems.len() && (#[trigger] mems[i]).max_ts == mem_max_ts(mems),
        forall|i: int|
            0 <= i < mems.len() ==> (#[trigger] mems[i]).version.version <= mem_max_version(mems),
        mem_max_version(mems) == 0 || exists|i: int|
            0 <= i < mems.len() && (#[trigger] mems[i]).version.version == mem_max_version(mems),
    decreases mems.len(),
{
    if mems.len() > 0 {
        let init = mems.drop_last();
        law_highest_timestamp_of_memory(init);
        assert(mems[mems.len() - 1] == mems.last());
        assert forall|i: int| 0 <= i < mems.len() implies (#[trigger] mems[i]).max_ts <= mem_max_ts(
            mems,
        ) && mems[i].version.version <= mem_max_version(mems) by {
            if i < init.len() {
                assert(init[i].max_ts <= mem_max_ts(init));
            }
        }
        if mem_max_ts(init) != 0 && mem_max_ts(mems) == mem_max_ts(init) {
            let i = choose|i: int|
                0 <= i < init.len() && (#[trigger] init[i]).max_ts == mem_max_ts(init);
            assert(mems[i].max_ts == mem_max_ts(mems));
        }
        if mem_max_version(init) != 0 && mem_max_version(mems) == mem_max_version(init) {
            let i = choose|i: int|
                0 <= i < init.len() && (#[trigger] init[i]).version.version == mem_max_version(init);
            assert(mems[i].version.version == mem_max_version(mems));
        }
    }
}

/// The table has keys before `lower` or from `upper` on.
pub open spec fn sticks_out(t: SsTable, b: Bound) -> bool {
    !(lex_le(b.lower, content(t.smallest)) && lex_lt(content(t.biggest), b.upper))
}

/// What table `i` of a level counts for: all of it, or half where it is the first or the last
/// and has keys outside the shard.
pub open spec fn counts_for(tables: Seq<SsTable>, b: Bound, i: int, n: int) -> int {
    if (i == 0 || i == tables.len() - 1) && sticks_out(tables[i], b) {
        n / 2
    } else {
        n
    }
}

/// The places of the first `n` items.
pub open spec fn places(n: nat) -> Seq<int> {
    Seq::new(n, |i: int| i)
}

proof fn lemma_places(n: nat)
    requires
        n > 0,
    ensures
        places(n).drop_last() == places((n - 1) as nat),
        places(n).last() == n - 1,
{
    assert(places(n).drop_last() =~= places((n - 1) as nat));
}

proof fn lemma_sums(tables: Seq<SsTable>, b: Bound, n: nat)
    requires
        !b.inclusive,
        n <= tables.len(),
    ensures
        ({
            let s = sums_of(tables, b, n);
            let p = places(n);
            &&& s.data_size == total(p, |i: int| counts_for(tables, b, i, tables[i].size as int))
            &&& s.blob_size == total(p, |i: int| counts_for(tables, b, i, tables[i].blob_size as int))
            &&& s.entries == total(p, |i: int| counts_for(tables, b, i, tables[i].entries as int))
            &&& s.kv_size == total(p, |i: int| counts_for(tables, b, i, tables[i].kv_size as int))
            &&& s.tombs == total(p, |i: int| counts_for(tables, b, i, tables[i].tombs as int))
            &&& s.ia_kv_size == total(
                p,
                |i: int|
                    if tables[i].storage_class_ia {
                        counts_for(tables, b, i, tables[i].kv_size as int)
                    } else {
                        0
                    },
            )
        }),
    decreases n,
{
    if n > 0 {
        lemma_sums(tables, b, (n - 1) as nat);
        lemma_places(n);
        let p = places(n);
        let t = tables[n - 1];
        assert(b.covers(t.bound()) == !sticks_out(t, b));
        lemma_total_last(p, |i: int| counts_for(tables, b, i, tables[i].size as int));
        lemma_total_last(p, |i: int| counts_for(tables, b, i, tables[i].blob_size as int));
        lemma_total_last(p, |i: int| counts_for(tables, b, i, tables[i].entries as int));
        lemma_total_last(p, |i: int| counts_for(tables, b, i, tables[i].kv_size as int));
        lemma_total_last(p, |i: int| counts_for(tables, b, i, tables[i].tombs as int));
        lemma_total_last(
            p,
            |i: int|
                if tables[i].storage_class_ia {
                    counts_for(tables, b, i, tables[i].kv_size as int)
                } else {
                    0
                },
        );
    }
}

/// The statistics of a level are totals over its tables, of which the first and the last count
/// half where they have keys outside the shard. Keys and values are counted for committed data,
/// and what may be removed for its levels from the second on.
pub proof fn law_statistics_of_a_level_are_totals(
    tables: Seq<SsTable>,
    b: Bound,
    cf: usize,
    level: usize,
    sc: StorageClassSpec,
    res: LevelStatsLite,
)
    requires
        !b.inclusive,
        sums_fit(sums_of(tables, b, tables.len())),
        res == level_stats(tables, b, cf, level, sc),
    ensures
        ({
            let p = places(tables.len());
            let kv = total(p, |i: int| counts_for(tables, b, i, tables[i].kv_size as int));
            &&& res.data_size == total(p, |i: int| counts_for(tables, b, i, tables[i].size as int))
            &&& res.blob_size == total(p, |i: int| counts_for(tables, b, i, tables[i].blob_size as int))
            &&& res.entries == total(p, |i: int| counts_for(tables, b, i, tables[i].entries as int))
            &&& cf == 0 ==> res.kv_size == kv
            &&& cf != 0 ==> res.kv_size == 0 && res.ia_kv_size == 0
            &&& cf == 0 && sc.must_be_ia ==> res.ia_kv_size == kv
            &&& cf == 0 && level >= 2 ==> res.lv2plus_tombs == total(
                p,
                |i: int| counts_for(tables, b, i, tables[i].tombs as int),
            ) && res.lv2plus_entries_write_cf == res.entries && res.lv2plus_max_ts == res.max_ts
            &&& cf != 0 || level < 2 ==> res.lv2plus_tombs == 0 && res.lv2plus_entries_write_cf
                == 0 && res.lv2plus_max_ts == 0
            &&& res.columnar_size == 0 && res.columnar_kv_size == 0
        }),
        forall|i: int| 0 <= i < tables.len() ==> (#[trigger] tables[i]).max_ts <= res.max_ts,
        res.max_ts == 0 || exists|i: int|
            0 <= i < tables.len() && (#[trigger] tables[i]).max_ts == res.max_ts,
{
    lemma_sums(tables, b, tables.len());
    lemma_max_ts(tables, tables.len());
    lemma_remote_part(tables, b, tables.len());
}

proof fn lemma_remote_part(tables: Seq<SsTable>, b: Bound, n: nat)
    ensures
        sums_of(tables, b, n).ia_kv_size <= sums_of(tables, b, n).kv_size,
        0 <= sums_of(tables, b, n).ia_kv_size,
        0 <= sums_of(tables, b, n).data_size,
        0 <= sums_of(tables, b, n).blob_size,
        0 <= sums_of(tables, b, n).entries,
        0 <= sums_of(tables, b, n).tombs,
    decreases n,
{
    if n > 0 {
        lemma_remote_part(tables, b, (n - 1) as nat);
    }
}

proof fn lemma_max_ts(tables: Seq<SsTable>, n: nat)
    requires
        n <= tables.len(),
    ensures
        forall|i: int| 0 <= i < n ==> (#[trigger] tables[i]).max_ts <= max_ts_of(tables, n),
        max_ts_of(tables, n) == 0 || exists|i: int|
            0 <= i < n && (#[trigger] tables[i]).max_ts == max_ts_of(tables, n),
    decreases n,
{
    if n > 0 {
        lemma_max_ts(tables, (n - 1) as nat);
        assert(tables[n - 1].max_ts <= max_ts_of(tables, n));
        if max_ts_of(tables, (n - 1) as nat) != 0 && max_ts_of(tables, n) == max_ts_of(
            tables,
            (n - 1) as nat,
        ) {
            let i = choose|i: int|
                0 <= i < n - 1 && (#[trigger] tables[i]).max_ts == max_ts_of(
                    tables,
                    (n - 1) as nat,
                );
            assert(tables[i].max_ts == max_ts_of(tables, n));
        }
    }
}

/// The table is one that counts for the lowest timestamps.
pub open spec fn counts_lowest(tables: Seq<SsTable>, b: Bound, i: int) -> bool {
    0 <= i < tables.len() && !((i == 0 || i == tables.len() - 1) && sticks_out(tables[i], b))
}

proof fn lemma_lowest_lock(tables: Seq<SsTable>, b: Bound, n: nat)
    requires
        !b.inclusive,
        n <= tables.len(),
        forall|i: int|
            0 <= i < n && #[trigger] counts_lowest(tables, b, i) ==> tables[i].max_lock_ts > 0,
    ensures
        forall|i: int|
            0 <= i < n && #[trigger] counts_lowest(tables, b, i) ==> 0 < min_lock_ts(tables, b, n)
                <= tables[i].max_lock_ts,
        min_lock_ts(tables, b, n) == 0 || exists|i: int|
            0 <= i < n && #[trigger] counts_lowest(tables, b, i) && tables[i].max_lock_ts
                == min_lock_ts(tables, b, n),
    decreases n,
{
    if n > 0 {
        let m = (n - 1) as nat;
        lemma_lowest_lock(tables, b, m);
        let t = tables[n - 1];
        assert(b.covers(t.bound()) == !sticks_out(t, b));
        assert(over_bound_at(tables, n - 1, b) == !counts_lowest(tables, b, n - 1));
        let was = min_lock_ts(tables, b, m);
        let now = min_lock_ts(tables, b, n);
        assert forall|i: int| 0 <= i < n && #[trigger] counts_lowest(tables, b, i) implies 0 < now
            <= tables[i].max_lock_ts by {
            if i < m {
                assert(0 < was <= tables[i].max_lock_ts);
            }
        }
        if now == was && was != 0 {
            let i = choose|i: int|
                0 <= i < m && #[trigger] counts_lowest(tables, b, i) && tables[i].max_lock_ts
                    == was;
            assert(tables[i].max_lock_ts == now);
        } else if now != 0 {
            assert(tables[n - 1].max_lock_ts == now);
        }
    }
}

proof fn lemma_lowest_extra(tables: Seq<SsTable>, b: Bound, n: nat)
    requires
        !b.inclusive,
        n <= tables.len(),
        forall|i: int|
            0 <= i < n && #[trigger] counts_lowest(tables, b, i) ==> tables[i].max_ts > 0,
    ensures
        forall|i: int|
            0 <= i < n && #[trigger] counts_lowest(tables, b, i) ==> 0 < min_extra_ts(tables, b, n)
                <= tables[i].max_ts,
        min_extra_ts(tables, b, n) == 0 || exists|i: int|
            0 <= i < n && #[trigger] counts_lowest(tables, b, i) && tables[i].max_ts
                == min_extra_ts(tables, b, n),
    decreases n,
{
    if n > 0 {
        let m = (n - 1) as nat;
        lemma_lowest_extra(tables, b, m);
        let t = tables[n - 1];
        assert(b.covers(t.bound()) == !sticks_out(t, b));
        assert(over_bound_at(tables, n - 1, b) == !counts_lowest(tables, b, n - 1));
        let was = min_extra_ts(tables, b, m);
        let now = min_extra_ts(tables, b, n);
        assert forall|i: int| 0 <= i < n && #[trigger] counts_lowest(tables, b, i) implies 0 < now
            <= tables[i].max_ts by {
            if i < m {
                assert(0 < was <= tables[i].max_ts);
            }
        }
        if now == was && was != 0 {
            let i = choose|i: int|
                0 <= i < m && #[trigger] counts_lowest(tables, b, i) && tables[i].max_ts == was;
            assert(tables[i].max_ts == now);
        } else if now != 0 {
            assert(tables[n - 1].max_ts == now);
        }
    }
}

/// The lowest timestamp of locks is the lowest of the tables that have no key outside the shard
/// at an end of the level; it is told for locks only. Every such table has a timestamp.
pub proof fn law_lowest_timestamp_of_locks(
    tables: Seq<SsTable>,
    b: Bound,
    cf: usize,
    level: usize,
    sc: StorageClassSpec,
    res: LevelStatsLite,
)
    requires
        !b.inclusive,
        res == level_stats(tables, b, cf, level, sc),
        forall|i: int|
            #[trigger] counts_lowest(tables, b, i) ==> tables[i].max_lock_ts > 0,
    ensures
        cf != 1 ==> res.lv1plus_min_max_lock_ts == 0,
        cf == 1 ==> forall|i: int|
            #[trigger] counts_lowest(tables, b, i) ==> 0 < res.lv1plus_min_max_lock_ts
                <= tables[i].max_lock_ts,
        cf == 1 ==> res.lv1plus_min_max_lock_ts == 0 || exists|i: int|
            #[trigger] counts_lowest(tables, b, i) && tables[i].max_lock_ts
                == res.lv1plus_min_max_lock_ts,
{
    lemma_lowest_lock(tables, b, tables.len());
    if cf == 1 {
        assert(res.lv1plus_min_max_lock_ts == min_lock_ts(tables, b, tables.len()));
    }
}

/// The lowest timestamp of other data is the lowest of the tables that have no key outside the
/// shard at an end of the level; it is told for that column family only. Every such table has a
/// timestamp.
pub proof fn law_lowest_timestamp_of_other_data(
    tables: Seq<SsTable>,
    b: Bound,
    cf: usize,
    level: usize,
    sc: StorageClassSpec,
    res: LevelStatsLite,
)
    requires
        !b.inclusive,
        res == level_stats(tables, b, cf, level, sc),
        forall|i: int| #[trigger] counts_lowest(tables, b, i) ==> tables[i].max_ts > 0,
    ensures
        cf != 2 ==> res.lv1_min_max_extra_ts == 0,
        cf == 2 ==> forall|i: int|
            #[trigger] counts_lowest(tables, b, i) ==> 0 < res.lv1_min_max_extra_ts <= tables[i].max_ts,
        cf == 2 ==> res.lv1_min_max_extra_ts == 0 || exists|i: int|
            #[trigger] counts_lowest(tables, b, i) && tables[i].max_ts
                == res.lv1_min_max_extra_ts,
{
    lemma_lowest_extra(tables, b, tables.len());
    if cf == 2 {
        assert(res.lv1_min_max_extra_ts == min_extra_ts(tables, b, tables.len()));
    }
}

/// What a table of level 0 counts for: all of it, or half where it has keys outside the shard.
pub open spec fn l0_counts_for(t: L0Table, b: Bound, n: int) -> int {
    if lex_le(b.lower, content(t.smallest)) && lex_lt(content(t.biggest), b.upper) {
        n
    } else {
        n / 2
    }
}

/// The statistics of level 0 are totals over its tables, of which those count half that have
/// keys outside the shard; the highest timestamp is that of one of them.
pub proof fn law_statistics_of_level_0_are_totals(s: Seq<L0Table>, b: Bound)
    requires
        !b.inclusive,
    ensures
        l0_sums(s, b).data_size == total(s, |t: L0Table| l0_counts_for(t, b, t.size as int)),
        l0_sums(s, b).entries == total(s, |t: L0Table| l0_counts_for(t, b, t.entries as int)),
        l0_sums(s, b).kv_size == total(s, |t: L0Table| l0_counts_for(t, b, t.kv_size as int)),
        forall|i: int| 0 <= i < s.len() ==> (#[trigger] s[i]).max_ts <= l0_max_ts(s),
        l0_max_ts(s) == 0 || exists|i: int|
            0 <= i < s.len() && (#[trigger] s[i]).max_ts == l0_max_ts(s),
    decreases s.len(),
{
    if s.len() > 0 {
        let init = s.drop_last();
        let t = s.last();
        law_statistics_of_level_0_are_totals(init, b);
        assert(s[s.len() - 1] == t);
        lemma_total_last(s, |t: L0Table| l0_counts_for(t, b, t.size as int));
        lemma_total_last(s, |t: L0Table| l0_counts_for(t, b, t.entries as int));
        lemma_total_last(s, |t: L0Table| l0_counts_for(t, b, t.kv_size as int));
        assert(b.covers(t.bound()) == (lex_le(b.lower, content(t.smallest)) && lex_lt(
            content(t.biggest),
            b.upper,
        )));
        assert forall|i: int| 0 <= i < s.len() implies (#[trigger] s[i]).max_ts <= l0_max_ts(s) by {
            if i < init.len() {
                assert(init[i].max_ts <= l0_max_ts(init));
            }
        }
        if l0_max_ts(init) != 0 && l0_max_ts(s) == l0_max_ts(init) {
            let i = choose|i: int|
                0 <= i < init.len() && (#[trigger] init[i]).max_ts == l0_max_ts(init);
            assert(s[i].max_ts == l0_max_ts(s));
        }
    }
}

/// The states of a shard follow its statistics: its size is that of tables and blobs, and its
/// highest timestamp the higher of those in tables and in memory.
pub proof fn law_states_follow_the_statistics(
    stats: LevelStatsLite,
    mem_ts: u64,
    res: ShardStates,
)
    requires
        stats.data_size + stats.blob_size <= u64::MAX,
        res == states_of(stats, mem_ts),
    ensures
        res.estimated_size == stats.data_size + stats.blob_size,
        res.estimated_entries == stats.entries,
        res.estimated_kv_size == stats.kv_size,
        res.estimated_ia_kv_size == stats.ia_kv_size,
        res.estimated_columnar_size == stats.columnar_size,
        res.estimated_columnar_kv_size == stats.columnar_kv_size,
        res.sst_max_ts == stats.max_ts,
        res.max_ts >= stats.max_ts && res.max_ts >= mem_ts,
        res.max_ts == stats.max_ts || res.max_ts == mem_ts,
        res.gc_stats.lv2plus_max_ts == stats.lv2plus_max_ts,
        res.gc_stats.lv2plus_tombs == stats.lv2plus_tombs,
        res.gc_stats.lv2plus_entries_write_cf == stats.lv2plus_entries_write_cf,
        res.gc_stats.lv1plus_min_lock_file_max_ts == stats.lv1plus_min_max_lock_ts,
        res.gc_stats.lv1_min_max_extra_ts == stats.lv1_min_max_extra_ts,
{
}

} // verus!

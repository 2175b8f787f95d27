//! What a walk over a column family merges.
use vstd::prelude::*;

use crate::shard::data::{L0Table, Mem, ShardData, Txn};
use crate::shard::levels::{tables_max_ts, Level, LevelHandler, SsTable};
use crate::{LOCK_CF, NUM_CFS, WRITE_CF};

verus! {

/// What a walk merges.
pub struct Sources {
    /// Lock files, by the start of their transactions.
    pub txn_files: Vec<u64>,
    /// Memory tables, by their places.
    pub mems: Vec<usize>,
    /// Tables of level 0.
    pub l0s: Vec<u64>,
    /// Tables of lower levels, those of one level one behind the other.
    pub levels: Vec<Vec<u64>>,
}

/// The starts of the transactions of the files, but for one.
pub open spec fn txn_starts(files: Seq<Txn>, skip: Option<u64>, n: int) -> Seq<u64>
    decreases n,
{
    if n <= 0 {
        Seq::empty()
    } else if skip == Some(files[n - 1].start_ts) {
        txn_starts(files, skip, n - 1)
    } else {
        txn_starts(files, skip, n - 1).push(files[n - 1].start_ts)
    }
}

/// The places of the memory tables that have something newer than `since`; of all where
/// there is no such time.
pub open spec fn mems_since(mems: Seq<Mem>, since: Option<u64>, n: int) -> Seq<usize>
    decreases n,
{
    if n <= 0 {
        Seq::empty()
    } else if since is Some && mems[n - 1].max_ts <= since->0 {
        mems_since(mems, since, n - 1)
    } else {
        mems_since(mems, since, n - 1).push((n - 1) as usize)
    }
}

/// The tables of level 0 that have something newer than `since` in the column family.
/// `tops` are the highest timestamps that they have there, if they have anything.
pub open spec fn l0s_since(
    l0s: Seq<L0Table>,
    tops: Seq<Option<u64>>,
    since: Option<u64>,
    n: int,
) -> Seq<u64>
    decreases n,
{
    if n <= 0 {
        Seq::empty()
    } else if tops[n - 1] is None || (since is Some && tops[n - 1]->0 <= since->0) {
        l0s_since(l0s, tops, since, n - 1)
    } else {
        l0s_since(l0s, tops, since, n - 1).push(l0s[n - 1].id)
    }
}

/// The tables that have something newer than `since`.
pub open spec fn tables_since(tables: Seq<SsTable>, since: Option<u64>, n: int) -> Seq<u64>
    decreases n,
{
    if n <= 0 {
        Seq::empty()
    } else if since is Some && tables[n - 1].max_ts <= since->0 {
        tables_since(tables, since, n - 1)
    } else {
        tables_since(tables, since, n - 1).push(tables[n - 1].id)
    }
}

/// The tables of each of the first `n` levels that have something newer than `since`.
/// Levels that have none are left out.
pub open spec fn levels_since(levels: Seq<Level>, since: Option<u64>, n: int) -> Seq<Seq<u64>>
    decreases n,
{
    if n <= 0 {
        Seq::empty()
    } else {
        let rest = levels_since(levels, since, n - 1);
        let tables = levels[n - 1].tables;
        if tables.len() == 0 || (since is Some && tables_max_ts(tables) <= since->0) {
            rest
        } else {
            rest.push(tables_since(tables, since, tables.len() as int))
        }
    }
}

/// The lists of ids.
pub open spec fn id_lists(lists: Seq<Vec<u64>>) -> Seq<Seq<u64>> {
    Seq::new(lists.len(), |i: int| lists[i]@)
}

/// The tables that have something newer than `since`.
fn collect_tables(tables: &Vec<SsTable>, since: Option<u64>) -> (res: Vec<u64>)
    ensures
        res@ == tables_since(tables@, since, tables@.len() as int),
{
    let mut res: Vec<u64> = Vec::new();
    let mut i: usize = 0;
    while i < tables.len()
        invariant
            i <= tables@.len(),
            res@ =~= tables_since(tables@, since, i as int),
        decreases tables@.len() - i,
    {
        let newer = match since {
            Some(ts) => tables[i].max_ts > ts,
            None => true,
        };
        if newer {
            res.push(tables[i].id);
        }
        i = i + 1;
    }
    res
}

/// The tables of each level that have something newer than `since`.
fn collect_levels(levels: &Vec<LevelHandler>, since: Option<u64>) -> (res: Vec<Vec<u64>>)
    requires
        forall|i: int|
            0 <= i < levels@.len() ==> (#[trigger] levels@[i]).max_ts == tables_max_ts(
                levels@[i].tables@,
            ),
    ensures
        id_lists(res@) == levels_since(
            Seq::new(levels@.len(), |i: int| levels@[i]@),
            since,
            levels@.len() as int,
        ),
{
    let ghost all = Seq::new(levels@.len(), |i: int| levels@[i]@);
    let mut res: Vec<Vec<u64>> = Vec::new();
    let mut l: usize = 0;
    assert(id_lists(res@) =~= Seq::empty());
    while l < levels.len()
        invariant
            l <= levels@.len(),
            all == Seq::new(levels@.len(), |i: int| levels@[i]@),
            forall|i: int|
                0 <= i < levels@.len() ==> (#[trigger] levels@[i]).max_ts == tables_max_ts(
                    levels@[i].tables@,
                ),
            id_lists(res@) == levels_since(all, since, l as int),
        decreases levels@.len() - l,
    {
        let level = &levels[l];
        let newer = match since {
            Some(ts) => level.max_ts > ts,
            None => true,
        };
        if level.tables.len() > 0 && newer {
            let ghost was = id_lists(res@);
            let ids = collect_tables(&level.tables, since);
            res.push(ids);
            assert(id_lists(res@) =~= was.push(ids@));
        }
        l = l + 1;
    }
    res
}

impl ShardData {
    /// All memory tables of the shard that have something newer than `since`.
    fn collect_mems(&self, since: Option<u64>) -> (res: Vec<usize>)
        ensures
            res@ == mems_since(self@.mem_tbls, since, self@.mem_tbls.len() as int),
    {
        let mut res: Vec<usize> = Vec::new();
        let ghost mems = self@.mem_tbls;
        let mut i: usize = 0;
        while i < self.mem_tbls.len()
            invariant
                i <= self.mem_tbls@.len(),
                mems == self@.mem_tbls,
                res@ =~= mems_since(mems, since, i as int),
            decreases self.mem_tbls@.len() - i,
        {
            assert(mems[i as int] == self.mem_tbls@[i as int]@);
            let newer = match since {
                Some(ts) => self.mem_tbls[i].max_ts > ts,
                None => true,
            };
            if newer {
                res.push(i);
            }
            i = i + 1;
        }
        res
    }

    /// All tables of level 0 that have something newer than `since` in the column
    /// family.
    fn collect_l0s(&self, tops: &Vec<Option<u64>>, since: Option<u64>) -> (res: Vec<u64>)
        requires
            tops@.len() == self@.l0_tbls.len(),
        ensures
            res@ == l0s_since(self@.l0_tbls, tops@, since, tops@.len() as int),
    {
        let mut res: Vec<u64> = Vec::new();
        let mut i: usize = 0;
        while i < tops.len()
            invariant
                i <= tops@.len(),
                tops@.len() == self.l0_tbls@.len(),
                res@ =~= l0s_since(self.l0_tbls@, tops@, since, i as int),
            decreases tops@.len() - i,
        {
            if let Some(top) = tops[i] {
                let newer = match since {
                    Some(ts) => top > ts,
                    None => true,
                };
                if newer {
                    res.push(self.l0_tbls[i].id);
                }
            }
            i = i + 1;
        }
        res
    }

    /// What a walk over a column family merges: lock files, where it is that of locks,
    /// but for the one of the transaction that is to be left out; all memory tables; all
    /// tables of level 0 that have data of it; and the tables of each level.
    pub fn table_sources(
        &self,
        cf: usize,
        l0_tops: &Vec<Option<u64>>,
        skip_txn_file: Option<u64>,
    ) -> (res: Sources)
        requires
            self@.wf(),
            cf < NUM_CFS,
            l0_tops@.len() == self@.l0_tbls.len(),
            self@.max_ts_known(),
        ensures
            res.txn_files@ == (if cf == LOCK_CF {
                txn_starts(
                    self@.lock_txn_files,
                    skip_txn_file,
                    self@.lock_txn_files.len() as int,
                )
            } else {
                Seq::empty()
            }),
            res.mems@ == mems_since(self@.mem_tbls, None, self@.mem_tbls.len() as int),
            res.l0s@ == l0s_since(self@.l0_tbls, l0_tops@, None, l0_tops@.len() as int),
            id_lists(res.levels@) == levels_since(
                self@.cfs[cf as int],
                None,
                self@.cfs[cf as int].len() as int,
            ),
    {
        let mut txn_files: Vec<u64> = Vec::new();
        if cf == LOCK_CF {
            let ghost files = self@.lock_txn_files;
            let mut i: usize = 0;
            while i < self.lock_txn_files.len()
                invariant
                    i <= self.lock_txn_files@.len(),
                    files == self@.lock_txn_files,
                    txn_files@ =~= txn_starts(files, skip_txn_file, i as int),
                decreases self.lock_txn_files@.len() - i,
            {
                let start_ts = self.lock_txn_files[i].start_ts;
                assert(files[i as int].start_ts == start_ts);
                let skipped = match skip_txn_file {
                    Some(ts) => ts == start_ts,
                    None => false,
                };
                if !skipped {
                    txn_files.push(start_ts);
                }
                i = i + 1;
            }
        }
        assert(self@.cfs[cf as int] =~= Seq::new(
            self.cfs@[cf as int].levels@.len(),
            |i: int| self.cfs@[cf as int].levels@[i]@,
        ));
        assert forall|i: int| 0 <= i < self.cfs@[cf as int].levels@.len() implies (
        #[trigger] self.cfs@[cf as int].levels@[i]).max_ts == tables_max_ts(
            self.cfs@[cf as int].levels@[i].tables@,
        ) by {
            assert(self@.cfs[cf as int][i] == self.cfs@[cf as int].levels@[i]@);
        }
        Sources {
            txn_files,
            mems: self.collect_mems(None),
            l0s: self.collect_l0s(l0_tops, None),
            levels: collect_levels(&self.cfs[cf].levels, None),
        }
    }

    /// What a walk over the memory tables merges.
    pub fn mem_table_sources(&self) -> (res: Sources)
        ensures
            res.txn_files@.len() == 0,
            res.mems@ == mems_since(self@.mem_tbls, None, self@.mem_tbls.len() as int),
            res.l0s@.len() == 0,
            res.levels@.len() == 0,
    {
        Sources {
            txn_files: Vec::new(),
            mems: self.collect_mems(None),
            l0s: Vec::new(),
            levels: Vec::new(),
        }
    }

    /// What a walk over what was committed after `since` merges: all that can hold
    /// something of it. What is older is shown as well.
    pub fn delta_write_sources(&self, l0_tops: &Vec<Option<u64>>, since: u64) -> (res: Sources)
        requires
            self@.wf(),
            l0_tops@.len() == self@.l0_tbls.len(),
            self@.max_ts_known(),
        ensures
            res.txn_files@.len() == 0,
            res.mems@ == mems_since(self@.mem_tbls, Some(since), self@.mem_tbls.len() as int),
            res.l0s@ == l0s_since(self@.l0_tbls, l0_tops@, Some(since), l0_tops@.len() as int),
            id_lists(res.levels@) == levels_since(
                self@.cfs[WRITE_CF as int],
                Some(since),
                self@.cfs[WRITE_CF as int].len() as int,
            ),
    {
        assert(self@.cfs[WRITE_CF as int] =~= Seq::new(
            self.cfs@[WRITE_CF as int].levels@.len(),
            |i: int| self.cfs@[WRITE_CF as int].levels@[i]@,
        ));
        assert forall|i: int| 0 <= i < self.cfs@[WRITE_CF as int].levels@.len() implies (
        #[trigger] self.cfs@[WRITE_CF as int].levels@[i]).max_ts == tables_max_ts(
            self.cfs@[WRITE_CF as int].levels@[i].tables@,
        ) by {
            assert(self@.cfs[WRITE_CF as int][i] == self.cfs@[WRITE_CF as int].levels@[i]@);
        }
        Sources {
            txn_files: Vec::new(),
            mems: self.collect_mems(Some(since)),
            l0s: self.collect_l0s(l0_tops, Some(since)),
            levels: collect_levels(&self.cfs[WRITE_CF].levels, Some(since)),
        }
    }
}

proof fn lemma_table_listed(tables: Seq<SsTable>, since: Option<u64>, n: int, k: int)
    requires
        0 <= k < n <= tables.len(),
        since is Some ==> tables[k].max_ts > since->0,
    ensures
        tables_since(tables, since, n).contains(tables[k].id),
    decreases n,
{
    let all = tables_since(tables, since, n);
    if k < n - 1 {
        lemma_table_listed(tables, since, n - 1, k);
        let rest = tables_since(tables, since, n - 1);
        let j = rest.index_of(tables[k].id);
        assert(all[j] == tables[k].id);
    } else {
        assert(all.last() == tables[k].id);
    }
}

proof fn lemma_top(tables: Seq<SsTable>, k: int)
    requires
        0 <= k < tables.len(),
    ensures
        tables[k].max_ts <= tables_max_ts(tables),
    decreases tables.len(),
{
    if k < tables.len() - 1 {
        lemma_top(tables.drop_last(), k);
        assert(tables.drop_last()[k] == tables[k]);
    }
}

/// A table that has something newer than `since` is one of those that a walk over what
/// was committed after `since` merges.
pub proof fn law_newer_tables_are_merged(
    levels: Seq<Level>,
    since: Option<u64>,
    n: int,
    l: int,
    k: int,
)
    requires
        0 <= l < n <= levels.len(),
        0 <= k < levels[l].tables.len(),
        since is Some ==> levels[l].tables[k].max_ts > since->0,
    ensures
        exists|m: int|
            0 <= m < levels_since(levels, since, n).len() && (#[trigger] levels_since(
                levels,
                since,
                n,
            )[m]).contains(levels[l].tables[k].id),
    decreases n,
{
    let all = levels_since(levels, since, n);
    let rest = levels_since(levels, since, n - 1);
    let id = levels[l].tables[k].id;
    if l < n - 1 {
        law_newer_tables_are_merged(levels, since, n - 1, l, k);
        let m = choose|m: int| 0 <= m < rest.len() && (#[trigger] rest[m]).contains(id);
        assert(all[m] == rest[m]);
    } else {
        lemma_top(levels[l].tables, k);
        lemma_table_listed(levels[l].tables, since, levels[l].tables.len() as int, k);
        assert(all.last().contains(id));
        assert(all[all.len() - 1].contains(id));
    }
}

} // verus!

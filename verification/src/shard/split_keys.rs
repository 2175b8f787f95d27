//! Keys at which a shard may be split.
use vstd::prelude::*;

use crate::bound::{BoundedDataSet, InnerKey};
use crate::buf::content;
use crate::del_prefixes::{key_sort, keys_view, sort_keys};
use crate::key::{bytes_eq, bytes_lt, lex_lt};
use crate::range::{Range, ShardRange};
use crate::shard::data::{tables_of_levels, Data, L0Table, ShardData};
use crate::shard::levels::{ShardCf, SsTable};
use crate::shard::ops::Shard;
use vstd::slice::slice_to_vec;

verus! {

/// The blocks of one column family of a table of level 0.
pub struct L0Blocks {
    /// Size of the data.
    pub size: u64,
    /// Lowest inner keys of the blocks, in order.
    pub keys: Vec<Vec<u8>>,
}

/// How tables are made.
#[derive(Clone, Copy, Debug, PartialEq, Eq, Structural)]
pub struct TableBuilderOptions {
    /// Size at which a table is full.
    pub max_table_size: usize,
    /// Size at which a block is full.
    pub block_size: usize,
}

/// The lowest keys of the tables that lie behind `start`.
pub open spec fn table_keys(tables: Seq<SsTable>, start: Seq<u8>) -> Seq<Seq<u8>>
    decreases tables.len(),
{
    if tables.len() == 0 {
        Seq::empty()
    } else {
        let rest = table_keys(tables.drop_last(), start);
        let k = content(tables.last().smallest);
        if lex_lt(start, k) {
            rest.push(k)
        } else {
            rest
        }
    }
}

/// Of the blocks from `i` on, the lowest keys of every `step`th that lie between
/// `start` and `end`.
pub open spec fn sampled(
    keys: Seq<Vec<u8>>,
    i: int,
    step: int,
    start: Seq<u8>,
    end: Seq<u8>,
) -> Seq<Seq<u8>>
    decreases
            (if i < keys.len() {
                keys.len() - i
            } else {
                0
            }),
{
    if i >= keys.len() || step <= 0 || i < 0 {
        Seq::empty()
    } else {
        let rest = sampled(keys, i + step, step, start, end);
        let k = keys[i]@;
        if lex_lt(start, k) && lex_lt(k, end) {
            seq![k] + rest
        } else {
            rest
        }
    }
}

/// The keys of a table of level 0 at which it may be cut into full tables.
pub open spec fn block_keys(
    b: L0Blocks,
    max_table_size: int,
    step: int,
    start: Seq<u8>,
    end: Seq<u8>,
) -> Seq<Seq<u8>> {
    if b.size < max_table_size {
        Seq::empty()
    } else {
        sampled(b.keys@, step, step, start, end)
    }
}

/// The keys of all tables of level 0.
pub open spec fn all_block_keys(
    blocks: Seq<L0Blocks>,
    max_table_size: int,
    step: int,
    start: Seq<u8>,
    end: Seq<u8>,
) -> Seq<Seq<u8>>
    decreases blocks.len(),
{
    if blocks.len() == 0 {
        Seq::empty()
    } else {
        all_block_keys(blocks.drop_last(), max_table_size, step, start, end) + block_keys(
            blocks.last(),
            max_table_size,
            step,
            start,
            end,
        )
    }
}

/// The sizes of tables of level 0.
pub open spec fn l0_sizes(s: Seq<L0Table>) -> int
    decreases s.len(),
{
    if s.len() == 0 {
        0
    } else {
        l0_sizes(s.drop_last()) + s.last().size
    }
}

/// The keys at which the shard may be split, in order: where tables of committed
/// data and locks begin, and, where level 0 is large, where its tables may be cut.
pub open spec fn candidates(
    data: Data,
    blocks: Seq<L0Blocks>,
    bucket_size: u64,
    opts: TableBuilderOptions,
) -> Seq<Seq<u8>> {
    let b = data.range.inner_bound();
    let tables = table_keys(
        tables_of_levels(data.cfs[0]) + tables_of_levels(data.cfs[1]),
        b.lower,
    );
    key_sort(
        if l0_sizes(data.l0_tbls) > bucket_size {
            tables + all_block_keys(
                blocks,
                opts.max_table_size as int,
                opts.max_table_size as int / opts.block_size as int,
                b.lower,
                b.upper,
            )
        } else {
            tables
        },
    )
}

/// Blocks can be sampled: blocks have a size, and a full table has at least one of it,
/// unless there is nothing to sample.
pub open spec fn can_sample(blocks: Seq<L0Blocks>, opts: TableBuilderOptions) -> bool {
    &&& opts.block_size > 0
    &&& opts.block_size <= opts.max_table_size || forall|j: int|
        0 <= j < blocks.len() ==> nothing_to_sample(#[trigger] blocks[j], opts.max_table_size)
}

/// The table is small, or has no block.
pub open spec fn nothing_to_sample(b: L0Blocks, max_table_size: usize) -> bool {
    b.size < max_table_size || b.keys@.len() == 0
}

proof fn lemma_l0_sizes(s: Seq<L0Table>, i: int)
    requires
        0 <= i <= s.len(),
    ensures
        0 <= l0_sizes(s.take(i)) <= l0_sizes(s),
    decreases s.len(),
{
    if i == s.len() {
        assert(s.take(i) =~= s);
        if s.len() > 0 {
            let t = s.drop_last();
            lemma_l0_sizes(t, t.len() as int);
            assert(t.take(t.len() as int) =~= t);
        }
    } else {
        lemma_l0_sizes(s.drop_last(), i);
        assert(s.drop_last().take(i) =~= s.take(i));
    }
}

fn push_key(keys: &mut Vec<Vec<u8>>, key: &[u8])
    ensures
        keys_view(final(keys)@) == keys_view(old(keys)@).push(key@),
{
    let ghost before = keys@;
    keys.push(slice_to_vec(key));
    assert(keys_view(keys@) =~= keys_view(before).push(key@));
}

fn push_table_keys(
    cf: &ShardCf,
    start: InnerKey<'_>,
    keys: &mut Vec<Vec<u8>>,
    Ghost(before): Ghost<Seq<SsTable>>,
)
    requires
        keys_view(old(keys)@) == table_keys(before, start@),
    ensures
        keys_view(final(keys)@) == table_keys(before + tables_of_levels(cf@), start@),
{
    let ghost levels = cf@;
    let mut l: usize = 0;
    assert(levels.take(0) =~= Seq::empty());
    assert(before + tables_of_levels(levels.take(0)) =~= before);
    while l < cf.levels.len()
        invariant
            l <= cf.levels@.len(),
            levels == cf@,
            keys_view(keys@) == table_keys(
                before + tables_of_levels(levels.take(l as int)),
                start@,
            ),
        decreases cf.levels@.len() - l,
    {
        let tables = &cf.levels[l].tables;
        let ghost done = before + tables_of_levels(levels.take(l as int));
        let mut i: usize = 0;
        assert(done + tables@.take(0) =~= done);
        while i < tables.len()
            invariant
                i <= tables@.len(),
                keys_view(keys@) == table_keys(done + tables@.take(i as int), start@),
            decreases tables@.len() - i,
        {
            let smallest: &[u8] = &tables[i].smallest;
            proof {
                let u = done + tables@.take(i + 1);
                assert(u.drop_last() =~= done + tables@.take(i as int));
                assert(u.last() == tables@[i as int]);
            }
            if bytes_lt(start.deref(), smallest) {
                push_key(keys, smallest);
            }
            i = i + 1;
        }
        proof {
            assert(tables@.take(i as int) =~= tables@);
            assert(levels.take(l + 1).drop_last() =~= levels.take(l as int));
            assert(levels.take(l + 1).last() == cf.levels@[l as int]@);
            assert(before + tables_of_levels(levels.take(l + 1)) =~= done + tables@);
        }
        l = l + 1;
    }
    assert(levels.take(l as int) =~= levels);
}

fn push_block_keys(
    b: &L0Blocks,
    max_table_size: usize,
    step: usize,
    start: InnerKey<'_>,
    end: InnerKey<'_>,
    keys: &mut Vec<Vec<u8>>,
)
    requires
        step > 0 || nothing_to_sample(*b, max_table_size),
    ensures
        keys_view(final(keys)@) == keys_view(old(keys)@) + block_keys(
            *b,
            max_table_size as int,
            step as int,
            start@,
            end@,
        ),
{
    let ghost before = keys_view(keys@);
    if b.size < max_table_size as u64 {
        assert(before + Seq::<Seq<u8>>::empty() =~= before);
        return;
    }
    let len = b.keys.len();
    let mut i: usize = step;
    let ghost all = sampled(b.keys@, step as int, step as int, start@, end@);
    let ghost mut done: Seq<Seq<u8>> = Seq::empty();
    proof {
        assert(before + done =~= before);
        assert(done + all =~= all);
    }
    let mut more = i < len;
    proof {
        if !more {
            assert(all =~= Seq::empty());
        }
    }
    while more
        invariant
            more ==> step > 0,
            len == b.keys@.len(),
            more == (i < len),
            keys_view(keys@) == before + done,
            all == done + sampled(b.keys@, i as int, step as int, start@, end@),
        decreases len - i + if more { 1int } else { 0 },
    {
        let key = b.keys[i].as_slice();
        let ghost rest = sampled(b.keys@, i + step, step as int, start@, end@);
        if bytes_lt(start.deref(), key) && bytes_lt(key, end.deref()) {
            push_key(keys, key);
            proof {
                assert(before + done.push(key@) =~= (before + done).push(key@));
                assert(done + (seq![key@] + rest) =~= done.push(key@) + rest);
                done = done.push(key@);
            }
        }
        if len - i > step {
            i = i + step;
        } else {
            proof {
                assert(rest =~= Seq::empty());
            }
            i = len;
            assert(sampled(b.keys@, i as int, step as int, start@, end@) =~= rest);
        }
        more = i < len;
    }
    assert(all =~= done);
}

impl ShardData {
    /// The keys at which the shard may be split, in order. `blocks` are those of
    /// committed data and locks of the tables of level 0.
    pub fn get_candidate_inner_keys(
        &self,
        blocks: &Vec<L0Blocks>,
        bucket_size: u64,
        opts: &TableBuilderOptions,
    ) -> (res: Vec<Vec<u8>>)
        requires
            self@.wf(),
            l0_sizes(self@.l0_tbls) <= u64::MAX,
            l0_sizes(self@.l0_tbls) > bucket_size ==> can_sample(blocks@, *opts),
        ensures
            keys_view(res@) == candidates(self@, blocks@, bucket_size, *opts),
    {
        let start = self.range.inner_start();
        let end = self.range.inner_end();
        let mut keys: Vec<Vec<u8>> = Vec::new();
        let ghost none: Seq<SsTable> = Seq::empty();
        let ghost first = tables_of_levels(self@.cfs[0]);
        assert(keys_view(keys@) =~= table_keys(none, start@));
        push_table_keys(&self.cfs[0], start, &mut keys, Ghost(none));
        assert(none + first =~= first);
        push_table_keys(&self.cfs[1], start, &mut keys, Ghost(first));
        let mut l0_size: u64 = 0;
        let mut i: usize = 0;
        let ghost l0s = self@.l0_tbls;
        assert(l0s.take(0) =~= Seq::empty());
        while i < self.l0_tbls.len()
            invariant
                i <= self.l0_tbls@.len(),
                l0s == self.l0_tbls@,
                l0_sizes(l0s) <= u64::MAX,
                l0_size == l0_sizes(l0s.take(i as int)),
            decreases self.l0_tbls@.len() - i,
        {
            proof {
                assert(l0s.take(i + 1).drop_last() =~= l0s.take(i as int));
                lemma_l0_sizes(l0s, i + 1);
            }
            l0_size = l0_size + self.l0_tbls[i].size;
            i = i + 1;
        }
        assert(l0s.take(i as int) =~= l0s);
        if l0_size > bucket_size {
            let step: usize = opts.max_table_size / opts.block_size;
            proof {
                if opts.block_size <= opts.max_table_size {
                    assert(step > 0) by (nonlinear_arith)
                        requires
                            step == opts.max_table_size / opts.block_size,
                            0 < opts.block_size <= opts.max_table_size,
                    ;
                }
            }
            let ghost tables = keys_view(keys@);
            let mut j: usize = 0;
            proof {
                assert(blocks@.take(0) =~= Seq::empty());
                assert(tables + Seq::<Seq<u8>>::empty() =~= tables);
            }
            while j < blocks.len()
                invariant
                    j <= blocks@.len(),
                    step > 0 || forall|k: int|
                        0 <= k < blocks@.len() ==> nothing_to_sample(
                            #[trigger] blocks@[k],
                            opts.max_table_size,
                        ),
                    keys_view(keys@) == tables + all_block_keys(
                        blocks@.take(j as int),
                        opts.max_table_size as int,
                        step as int,
                        start@,
                        end@,
                    ),
                decreases blocks@.len() - j,
            {
                let ghost now = keys_view(keys@);
                push_block_keys(&blocks[j], opts.max_table_size, step, start, end, &mut keys);
                proof {
                    assert(blocks@.take(j + 1).drop_last() =~= blocks@.take(j as int));
                    assert(blocks@.take(j + 1).last() == blocks@[j as int]);
                    assert(keys_view(keys@) =~= tables + all_block_keys(
                        blocks@.take(j + 1),
                        opts.max_table_size as int,
                        step as int,
                        start@,
                        end@,
                    ));
                }
                j = j + 1;
            }
            assert(blocks@.take(j as int) =~= blocks@);
        }
        sort_keys(keys)
    }
}

/// The key that a range is split at best, two thirds into the candidates; none where there is
/// no candidate.
pub open spec fn suggested(range: Range, candidates: Seq<Seq<u8>>) -> Option<Seq<u8>> {
    if candidates.len() == 0 {
        None
    } else {
        Some(range.prefix() + candidates[candidates.len() as int * 2 / 3])
    }
}

/// The key that a range is split at best, of the candidates that are given.
pub fn suggest_split_key(range: &ShardRange, candidate_keys: &Vec<Vec<u8>>) -> (res: Option<
    Vec<u8>,
>)
    requires
        range@.valid(),
    ensures
        match res {
            Some(k) => suggested(range@, keys_view(candidate_keys@)) == Some(k@),
            None => suggested(range@, keys_view(candidate_keys@)) is None,
        },
{
    let len: usize = candidate_keys.len();
    if len == 0 {
        return None;
    }
    let split_idx: usize = len / 3 * 2 + len % 3 * 2 / 3;
    let key = InnerKey::from_inner_buf(candidate_keys[split_idx].as_slice());
    assert(keys_view(candidate_keys@)[split_idx as int] == candidate_keys@[split_idx as int]@);
    Some(range.to_outer_key(key))
}

/// Where the first `n` steps lead.
pub open spec fn steps_sum(steps: Seq<usize>, n: nat) -> int
    decreases n,
{
    if n == 0 {
        0
    } else {
        steps_sum(steps, (n - 1) as nat) + steps[n - 1]
    }
}

/// There is a step, and all but the last lead to one of `len` keys.
pub open spec fn steps_within(steps: Seq<usize>, len: int) -> bool {
    &&& steps.len() > 0
    &&& forall|n: nat| 1 <= n < steps.len() ==> #[trigger] steps_sum(steps, n) < len
}

/// The keys that the steps lead to, of keys in a row that are the same only one.
pub open spec fn stepped(
    range: Range,
    keys: Seq<Seq<u8>>,
    steps: Seq<usize>,
    n: nat,
) -> Seq<Seq<u8>>
    decreases n,
{
    if n == 0 {
        Seq::empty()
    } else {
        let rest = stepped(range, keys, steps, (n - 1) as nat);
        let k = range.prefix() + keys[steps_sum(steps, n)];
        if rest.len() > 0 && rest.last() == k {
            rest
        } else {
            rest.push(k)
        }
    }
}

/// The keys that a range is split at, of the candidates that are given. `steps` says how many
/// candidates go into each part.
pub fn evenly_split_keys(
    range: &ShardRange,
    candidate_keys: &Vec<Vec<u8>>,
    steps: &Vec<usize>,
) -> (res: Vec<Vec<u8>>)
    requires
        range@.valid(),
        steps_within(steps@, candidate_keys@.len() as int),
    ensures
        keys_view(res@) == stepped(
            range@,
            keys_view(candidate_keys@),
            steps@,
            (steps@.len() - 1) as nat,
        ),
{
    let ghost candidates = keys_view(candidate_keys@);
    let total: usize = candidate_keys.len();
    let mut split_keys: Vec<Vec<u8>> = Vec::new();
    let mut key_idx: usize = 0;
    let mut n: usize = 0;
    assert(keys_view(split_keys@) =~= Seq::empty());
    while n < steps.len() - 1
        invariant
            range@.valid(),
            n <= steps@.len() - 1,
            candidates == keys_view(candidate_keys@),
            candidate_keys@.len() == total,
            steps_within(steps@, candidate_keys@.len() as int),
            key_idx == steps_sum(steps@, n as nat),
            keys_view(split_keys@) == stepped(range@, candidates, steps@, n as nat),
        decreases steps@.len() - n,
    {
        assert(steps_sum(steps@, (n + 1) as nat) < candidate_keys@.len());
        key_idx = key_idx + steps[n];
        let key = range.to_outer_key(
            InnerKey::from_inner_buf(candidate_keys[key_idx].as_slice()),
        );
        assert(candidates[key_idx as int] == candidate_keys@[key_idx as int]@);
        let ghost before = split_keys@;
        let len = split_keys.len();
        assert(len > 0 ==> keys_view(before).last() == before[len - 1]@);
        if len == 0 || !bytes_eq(split_keys[len - 1].as_slice(), key.as_slice()) {
            split_keys.push(key);
            assert(keys_view(split_keys@) =~= keys_view(before).push(key@));
        }
        n = n + 1;
    }
    split_keys
}

impl Shard {
    /// The candidates of the shard can be told.
    pub open spec fn can_choose_keys(
        self,
        blocks: Seq<L0Blocks>,
        bucket_size: u64,
        opts: TableBuilderOptions,
    ) -> bool {
        &&& self.range@.valid()
        &&& self.data@.wf()
        &&& l0_sizes(self.data@.l0_tbls) <= u64::MAX
        &&& l0_sizes(self.data@.l0_tbls) > bucket_size ==> can_sample(blocks, opts)
    }

    /// The key that the shard is split at best, two thirds into its candidates; none where it
    /// has no candidate.
    pub fn get_suggest_split_key(
        &self,
        blocks: &Vec<L0Blocks>,
        bucket_size: u64,
        opts: &TableBuilderOptions,
    ) -> (res: Option<Vec<u8>>)
        requires
            self.can_choose_keys(blocks@, bucket_size, *opts),
        ensures
            ({
                let keys = candidates(self.data@, blocks@, bucket_size, *opts);
                match res {
                    Some(k) => suggested(self.range@, keys) == Some(k@),
                    None => suggested(self.range@, keys) is None,
                }
            }),
    {
        let candidate_keys = self.data.get_candidate_inner_keys(blocks, bucket_size, opts);
        suggest_split_key(&self.range, &candidate_keys)
    }

    /// The keys that the shard is split at into `count` even parts; none where that is but one
    /// part, and none where there are fewer than two candidates. `distribute` tells for a
    /// number of candidates and a number of parts how many candidates go into each part.
    pub fn get_evenly_split_keys<F: Fn(usize, usize) -> Vec<usize>>(
        &self,
        count: usize,
        blocks: &Vec<L0Blocks>,
        bucket_size: u64,
        opts: &TableBuilderOptions,
        distribute: F,
    ) -> (res: Option<Vec<Vec<u8>>>)
        requires
            self.can_choose_keys(blocks@, bucket_size, *opts),
            forall|len: usize|
                2 <= len && count > 1 ==> #[trigger] call_requires(distribute, (len, count)),
            forall|len: usize, steps: Vec<usize>|
                2 <= len && count > 1 && #[trigger] call_ensures(distribute, (len, count), steps)
                    ==> steps_within(steps@, len as int),
        ensures
            ({
                let keys = candidates(self.data@, blocks@, bucket_size, *opts);
                match res {
                    Some(split_keys) => {
                        &&& count > 1
                        &&& keys.len() >= 2
                        &&& exists|steps: Vec<usize>|
                            {
                                &&& #[trigger] call_ensures(
                                    distribute,
                                    (keys.len() as usize, count),
                                    steps,
                                )
                                &&& keys_view(split_keys@) == stepped(
                                    self.range@,
                                    keys,
                                    steps@,
                                    (steps@.len() - 1) as nat,
                                )
                            }
                    },
                    None => count <= 1 || keys.len() < 2,
                }
            }),
    {
        if count <= 1 {
            return None;
        }
        let candidate_keys = self.data.get_candidate_inner_keys(blocks, bucket_size, opts);
        assert(keys_view(candidate_keys@).len() == candidate_keys@.len());
        if candidate_keys.len() < 2 {
            return None;
        }
        let steps = distribute(candidate_keys.len(), count);
        Some(evenly_split_keys(&self.range, &candidate_keys, &steps))
    }
}

} // verus!

//! Where shards may be split, and which files they name, told by their tables.
use vstd::prelude::*;

use crate::bound::BoundedDataSet;
use crate::buf::content;
use crate::del_prefixes::{keys_sorted, lemma_key_sort, lemma_sort_contains};
use crate::file_meta::FileMeta;
use crate::key::{lex_le, lex_lt};
use crate::keyspace::{inner_end_of, inner_of};
use crate::lists::lemma_joined;
use crate::range::Range;
use crate::shard::data::{
    col_ids, ids_of_blobs, ids_of_l0s, local_ids, mem_chunks, remote_ids, tables_of_cfs,
    tables_of_levels, txn_chunks, vec_ids, ColumnarFile, Data, Mem, Txn,
};
use crate::shard::levels::{
    blocks_below, blocks_up_to, levels_sync, Level, SsTable,
};
use crate::shard::load::lists_files;
use crate::shard::split_keys::{
    all_block_keys, block_keys, candidates, l0_sizes, sampled, stepped, steps_sum, suggested,
    table_keys, L0Blocks, TableBuilderOptions,
};
use crate::shard::state::is_all_files;
use crate::vectors::Vector;

verus! {

/// A table of the levels.
pub open spec fn is_table_of(levels: Seq<Level>, t: SsTable) -> bool {
    exists|l: int| 0 <= l < levels.len() && (#[trigger] levels[l]).tables.contains(t)
}

/// The tables of levels are those of each.
pub proof fn law_tables_of_levels(levels: Seq<Level>, t: SsTable)
    ensures
        tables_of_levels(levels).contains(t) <==> is_table_of(levels, t),
    decreases levels.len(),
{
    if levels.len() > 0 {
        let init = levels.drop_last();
        let n = levels.len() - 1;
        law_tables_of_levels(init, t);
        lemma_joined(tables_of_levels(init), levels.last().tables, t);
        assert(levels[n] == levels.last());
        if is_table_of(init, t) {
            let l = choose|l: int| 0 <= l < init.len() && (#[trigger] init[l]).tables.contains(t);
            assert(levels[l] == init[l]);
        }
        if is_table_of(levels, t) {
            let l = choose|l: int|
                0 <= l < levels.len() && (#[trigger] levels[l]).tables.contains(t);
            if l < n {
                assert(init[l] == levels[l]);
            }
        }
    }
}

/// The key is where a table of the list begins that begins behind `start`.
pub open spec fn begins_a_table(tables: Seq<SsTable>, start: Seq<u8>, k: Seq<u8>) -> bool {
    lex_lt(start, k) && exists|i: int|
        0 <= i < tables.len() && content((#[trigger] tables[i]).smallest) == k
}

proof fn lemma_table_keys(tables: Seq<SsTable>, start: Seq<u8>, k: Seq<u8>)
    ensures
        table_keys(tables, start).contains(k) <==> begins_a_table(tables, start, k),
    decreases tables.len(),
{
    if tables.len() > 0 {
        let init = tables.drop_last();
        let n = tables.len() - 1;
        let rest = table_keys(init, start);
        lemma_table_keys(init, start, k);
        let last = content(tables.last().smallest);
        assert(tables[n] == tables.last());
        if lex_lt(start, last) {
            assert(table_keys(tables, start) =~= rest + seq![last]);
            lemma_joined(rest, seq![last], k);
            assert(seq![last].contains(k) == (k == last)) by {
                assert(seq![last][0] == last);
            }
        }
        if begins_a_table(init, start, k) {
            let i = choose|i: int|
                0 <= i < init.len() && content((#[trigger] init[i]).smallest) == k;
            assert(content(tables[i].smallest) == k);
        }
        if begins_a_table(tables, start, k) {
            let i = choose|i: int|
                0 <= i < tables.len() && content((#[trigger] tables[i]).smallest) == k;
            if i < n {
                assert(content(init[i].smallest) == k);
            }
        }
    }
}

/// The key is that of a block of the list, some whole steps from the first, between `start` and
/// `end`.
pub open spec fn begins_a_block(
    keys: Seq<Vec<u8>>,
    step: int,
    start: Seq<u8>,
    end: Seq<u8>,
    k: Seq<u8>,
) -> bool {
    lex_lt(start, k) && lex_lt(k, end) && exists|i: int, j: int|
        0 < i < keys.len() && 0 < j && i == #[trigger] (j * step) && #[trigger] keys[i]@ == k
}

proof fn lemma_sampled(
    keys: Seq<Vec<u8>>,
    i: int,
    step: int,
    start: Seq<u8>,
    end: Seq<u8>,
    k: Seq<u8>,
    m: int,
)
    requires
        step > 0,
        m > 0,
        i == m * step,
    ensures
        sampled(keys, i, step, start, end).contains(k) ==> begins_a_block(
            keys,
            step,
            start,
            end,
            k,
        ),
        forall|j: int|
            m <= j && #[trigger] (j * step) < keys.len() && keys[j * step]@ == k && lex_lt(start, k)
                && lex_lt(k, end) ==> sampled(keys, i, step, start, end).contains(k),
    decreases
            (if i < keys.len() {
                keys.len() - i
            } else {
                0
            }),
{
    let all = sampled(keys, i, step, start, end);
    assert(i > 0) by (nonlinear_arith)
        requires
            i == m * step,
            m > 0,
            step > 0,
    ;
    if i < keys.len() {
        let rest = sampled(keys, i + step, step, start, end);
        assert(i + step == (m + 1) * step) by (nonlinear_arith)
            requires
                i == m * step,
        ;
        lemma_sampled(keys, i + step, step, start, end, k, m + 1);
        let x = keys[i]@;
        if lex_lt(start, x) && lex_lt(x, end) {
            lemma_joined(seq![x], rest, k);
            assert(seq![x].contains(k) == (k == x)) by {
                assert(seq![x][0] == x);
            }
            if k == x {
                assert(i == m * step);
                assert(keys[m * step]@ == k);
                assert(begins_a_block(keys, step, start, end, k));
            }
        }
        assert forall|j: int|
            m <= j && #[trigger] (j * step) < keys.len() && keys[j * step]@ == k && lex_lt(start, k)
                && lex_lt(k, end) implies all.contains(k) by {
            if j > m {
                assert(rest.contains(k));
            } else {
                assert(j == m);
            }
        }
    } else {
        assert forall|j: int| m <= j && #[trigger] (j * step) < keys.len() implies false by {
            assert(j * step >= m * step) by (nonlinear_arith)
                requires
                    m <= j,
                    step > 0,
            ;
        }
    }
}

/// A key of a block of one of the tables of level 0 that are full.
pub open spec fn begins_a_block_of(
    blocks: Seq<L0Blocks>,
    size: int,
    step: int,
    start: Seq<u8>,
    end: Seq<u8>,
    k: Seq<u8>,
) -> bool {
    exists|i: int|
        0 <= i < blocks.len() && (#[trigger] blocks[i]).size >= size && begins_a_block(
            blocks[i].keys@,
            step,
            start,
            end,
            k,
        )
}

proof fn lemma_block_keys(
    blocks: Seq<L0Blocks>,
    size: int,
    step: int,
    start: Seq<u8>,
    end: Seq<u8>,
    k: Seq<u8>,
)
    requires
        step > 0,
    ensures
        all_block_keys(blocks, size, step, start, end).contains(k) <==> begins_a_block_of(
            blocks,
            size,
            step,
            start,
            end,
            k,
        ),
    decreases blocks.len(),
{
    if blocks.len() > 0 {
        let init = blocks.drop_last();
        let n = blocks.len() - 1;
        lemma_block_keys(init, size, step, start, end, k);
        let b = blocks.last();
        assert(blocks[n] == b);
        lemma_joined(
            all_block_keys(init, size, step, start, end),
            block_keys(b, size, step, start, end),
            k,
        );
        assert(step == 1 * step) by (nonlinear_arith);
        lemma_sampled(b.keys@, step, step, start, end, k, 1);
        if b.size >= size && begins_a_block(b.keys@, step, start, end, k) {
            let (i, j) = choose|i: int, j: int|
                0 < i < b.keys@.len() && 0 < j && i == #[trigger] (j * step)
                    && #[trigger] b.keys@[i]@ == k;
            assert(b.keys@[j * step]@ == k);
        }
        if begins_a_block_of(init, size, step, start, end, k) {
            let i = choose|i: int|
                0 <= i < init.len() && (#[trigger] init[i]).size >= size && begins_a_block(
                    init[i].keys@,
                    step,
                    start,
                    end,
                    k,
                );
            assert(blocks[i] == init[i]);
        }
        if begins_a_block_of(blocks, size, step, start, end, k) {
            let i = choose|i: int|
                0 <= i < blocks.len() && (#[trigger] blocks[i]).size >= size && begins_a_block(
                    blocks[i].keys@,
                    step,
                    start,
                    end,
                    k,
                );
            if i < n {
                assert(init[i] == blocks[i]);
            }
        }
    }
}

/// A shard may be split where a table of committed data or of locks begins behind its first
/// key; and, where level 0 is larger than a bucket, at the keys of its blocks a full table
/// apart. Those are all the keys, and they are in order.
pub proof fn law_split_candidates(
    data: Data,
    blocks: Seq<L0Blocks>,
    bucket_size: u64,
    opts: TableBuilderOptions,
    k: Seq<u8>,
)
    requires
        0 < opts.block_size <= opts.max_table_size,
    ensures
        ({
            let start = inner_of(data.range.start);
            let end = inner_end_of(data.range.end);
            let step = opts.max_table_size as int / opts.block_size as int;
            let res = candidates(data, blocks, bucket_size, opts);
            &&& res.contains(k) <==> {
                ||| begins_a_table(tables_of_levels(data.cfs[0]), start, k)
                ||| begins_a_table(tables_of_levels(data.cfs[1]), start, k)
                ||| l0_sizes(data.l0_tbls) > bucket_size && begins_a_block_of(
                    blocks,
                    opts.max_table_size as int,
                    step,
                    start,
                    end,
                    k,
                )
            }
            &&& keys_sorted(res)
        }),
{
    let start = inner_of(data.range.start);
    let end = inner_end_of(data.range.end);
    let step = opts.max_table_size as int / opts.block_size as int;
    assert(step > 0) by (nonlinear_arith)
        requires
            step == opts.max_table_size as int / opts.block_size as int,
            0 < opts.block_size <= opts.max_table_size,
    ;
    let a = tables_of_levels(data.cfs[0]);
    let b = tables_of_levels(data.cfs[1]);
    let tables = table_keys(a + b, start);
    let more = all_block_keys(blocks, opts.max_table_size as int, step, start, end);
    lemma_table_keys(a + b, start, k);
    lemma_begins_joined(a, b, start, k);
    lemma_block_keys(blocks, opts.max_table_size as int, step, start, end, k);
    lemma_joined(tables, more, k);
    lemma_sort_contains(tables, k);
    lemma_sort_contains(tables + more, k);
    lemma_key_sort(tables);
    lemma_key_sort(tables + more);
}

proof fn lemma_begins_joined(a: Seq<SsTable>, b: Seq<SsTable>, start: Seq<u8>, k: Seq<u8>)
    ensures
        begins_a_table(a + b, start, k) == (begins_a_table(a, start, k) || begins_a_table(
            b,
            start,
            k,
        )),
{
    let all = a + b;
    if begins_a_table(all, start, k) {
        let i = choose|i: int| 0 <= i < all.len() && content((#[trigger] all[i]).smallest) == k;
        if i < a.len() {
            assert(content(a[i].smallest) == k);
        } else {
            assert(content(b[i - a.len()].smallest) == k);
        }
    }
    if begins_a_table(a, start, k) {
        let i = choose|i: int| 0 <= i < a.len() && content((#[trigger] a[i]).smallest) == k;
        assert(content(all[i].smallest) == k);
    }
    if begins_a_table(b, start, k) {
        let i = choose|i: int| 0 <= i < b.len() && content((#[trigger] b[i]).smallest) == k;
        assert(content(all[a.len() + i].smallest) == k);
    }
}

/// The key that a shard is split at best is one of the candidates, behind the prefix of its
/// keyspace: two thirds of the candidates are before it, rounded down. There is one if and only
/// if there is a candidate.
pub proof fn law_suggested_key_is_two_thirds_in(range: Range, keys: Seq<Seq<u8>>)
    ensures
        suggested(range, keys) is Some <==> keys.len() > 0,
        suggested(range, keys) matches Some(k) ==> exists|i: int|
            0 <= i < keys.len() && 3 * i <= 2 * keys.len() < 3 * (i + 1) && k == range.prefix()
                + #[trigger] keys[i],
{
    if keys.len() > 0 {
        let n = keys.len() as int;
        let i = n * 2 / 3;
        assert(0 <= i < n && 3 * i <= 2 * n < 3 * (i + 1));
        assert(suggested(range, keys) == Some(range.prefix() + keys[i]));
    }
}

/// The split keys are those that the steps lead to, behind the prefix of the keyspace; no two
/// in a row are the same.
pub proof fn law_steps_lead_to_split_keys(
    range: Range,
    keys: Seq<Seq<u8>>,
    steps: Seq<usize>,
    n: nat,
)
    ensures
        forall|m: nat|
            1 <= m <= n ==> stepped(range, keys, steps, n).contains(
                range.prefix() + keys[#[trigger] steps_sum(steps, m)],
            ),
        forall|i: int|
            0 <= i < stepped(range, keys, steps, n).len() ==> exists|m: nat|
                1 <= m <= n && #[trigger] stepped(range, keys, steps, n)[i] == range.prefix()
                    + keys[#[trigger] steps_sum(steps, m)],
        forall|i: int|
            0 <= i < stepped(range, keys, steps, n).len() - 1 ==> #[trigger] stepped(
                range,
                keys,
                steps,
                n,
            )[i] != stepped(range, keys, steps, n)[i + 1],
        n > 0 ==> stepped(range, keys, steps, n).len() > 0 && stepped(range, keys, steps, n).last()
            == range.prefix() + keys[steps_sum(steps, n)],
    decreases n,
{
    if n > 0 {
        let m1 = (n - 1) as nat;
        law_steps_lead_to_split_keys(range, keys, steps, m1);
        let rest = stepped(range, keys, steps, m1);
        let all = stepped(range, keys, steps, n);
        let k = range.prefix() + keys[steps_sum(steps, n)];
        let pushed = !(rest.len() > 0 && rest.last() == k);
        assert forall|m: nat| 1 <= m <= n implies all.contains(
            range.prefix() + keys[#[trigger] steps_sum(steps, m)],
        ) by {
            let x = range.prefix() + keys[steps_sum(steps, m)];
            if m < n {
                assert(rest.contains(x));
                let j = choose|j: int| 0 <= j < rest.len() && rest[j] == x;
                assert(all[j] == x);
            } else {
                assert(all[all.len() - 1] == k);
            }
        }
        assert forall|i: int| 0 <= i < all.len() implies exists|m: nat|
            1 <= m <= n && #[trigger] all[i] == range.prefix() + keys[#[trigger] steps_sum(
                steps,
                m,
            )] by {
            if i < rest.len() {
                let m = choose|m: nat|
                    1 <= m <= m1 && #[trigger] rest[i] == range.prefix() + keys[#[trigger] steps_sum(
                        steps,
                        m,
                    )];
                assert(all[i] == rest[i]);
                assert(steps_sum(steps, m) == steps_sum(steps, m));
            } else {
                assert(all[i] == k);
            }
        }
        assert forall|i: int| 0 <= i < all.len() - 1 implies #[trigger] all[i] != all[i + 1] by {
            if i + 1 < rest.len() {
                assert(rest[i] != rest[i + 1]);
            } else {
                assert(pushed);
                assert(all[i + 1] == k);
                assert(all[i] == rest.last());
            }
        }
    }
}

/// Of keys in order, as many are at most `k`, or below it, as come before the first that is
/// not.
pub proof fn law_blocks_are_counted(keys: Seq<Vec<u8>>, k: Seq<u8>)
    ensures
        blocks_up_to(keys, k) <= keys.len(),
        forall|i: int| 0 <= i < blocks_up_to(keys, k) ==> !lex_lt(k, (#[trigger] keys[i])@),
        blocks_up_to(keys, k) < keys.len() ==> lex_lt(k, keys[blocks_up_to(keys, k) as int]@),
        blocks_below(keys, k) <= keys.len(),
        forall|i: int| 0 <= i < blocks_below(keys, k) ==> lex_lt((#[trigger] keys[i])@, k),
        blocks_below(keys, k) < keys.len() ==> !lex_lt(keys[blocks_below(keys, k) as int]@, k),
    decreases keys.len(),
{
    if keys.len() > 0 {
        let rest = keys.drop_first();
        law_blocks_are_counted(rest, k);
        assert forall|i: int| 0 <= i < blocks_up_to(keys, k) implies !lex_lt(
            k,
            (#[trigger] keys[i])@,
        ) by {
            if i > 0 {
                assert(rest[i - 1] == keys[i]);
            }
        }
        assert forall|i: int| 0 <= i < blocks_below(keys, k) implies lex_lt(
            (#[trigger] keys[i])@,
            k,
        ) by {
            if i > 0 {
                assert(rest[i - 1] == keys[i]);
            }
        }
    }
}

/// A table of the list has the id and satisfies `p`.
pub open spec fn id_of_table(s: Seq<SsTable>, p: spec_fn(SsTable) -> bool, id: u64) -> bool {
    exists|i: int| 0 <= i < s.len() && (#[trigger] s[i]).id == id && p(s[i])
}

/// Of tables, those are read from local files that are on local disk or are not kept remote,
/// and those remotely that are not on local disk; where that is not asked for, all are local.
pub proof fn law_local_and_remote_tables(s: Seq<SsTable>, distinguish: bool, id: u64)
    ensures
        local_ids(s, distinguish).contains(id) <==> id_of_table(
            s,
            |t: SsTable| !distinguish || t.sync || !t.storage_class_ia,
            id,
        ),
        remote_ids(s, distinguish).contains(id) <==> id_of_table(
            s,
            |t: SsTable| distinguish && !t.sync,
            id,
        ),
    decreases s.len(),
{
    let p = |t: SsTable| !distinguish || t.sync || !t.storage_class_ia;
    let q = |t: SsTable| distinguish && !t.sync;
    if s.len() > 0 {
        let init = s.drop_last();
        let n = s.len() - 1;
        law_local_and_remote_tables(init, distinguish, id);
        let t = s.last();
        assert(s[n] == t);
        let a = local_ids(init, distinguish);
        let b = remote_ids(init, distinguish);
        assert(seq![t.id].contains(id) == (t.id == id)) by {
            assert(seq![t.id][0] == t.id);
        }
        lemma_joined(a, seq![t.id], id);
        lemma_joined(b, seq![t.id], id);
        assert(a.push(t.id) =~= a + seq![t.id]);
        assert(b.push(t.id) =~= b + seq![t.id]);
        lemma_id_of_table(s, p, id);
        lemma_id_of_table(s, q, id);
    }
}

proof fn lemma_id_of_table(s: Seq<SsTable>, p: spec_fn(SsTable) -> bool, id: u64)
    requires
        s.len() > 0,
    ensures
        id_of_table(s, p, id) == (id_of_table(s.drop_last(), p, id) || s.last().id == id && p(
            s.last(),
        )),
{
    let init = s.drop_last();
    let n = s.len() - 1;
    assert(s[n] == s.last());
    if id_of_table(init, p, id) {
        let i = choose|i: int| 0 <= i < init.len() && (#[trigger] init[i]).id == id && p(init[i]);
        assert(s[i] == init[i]);
    }
    if id_of_table(s, p, id) {
        let i = choose|i: int| 0 <= i < s.len() && (#[trigger] s[i]).id == id && p(s[i]);
        if i < n {
            assert(init[i] == s[i]);
        }
    }
}

/// The tables of all column families are those of each.
pub proof fn law_tables_of_column_families(cfs: Seq<Seq<Level>>, t: SsTable)
    ensures
        tables_of_cfs(cfs).contains(t) <==> exists|c: int|
            0 <= c < cfs.len() && is_table_of(#[trigger] cfs[c], t),
    decreases cfs.len(),
{
    if cfs.len() > 0 {
        let init = cfs.drop_last();
        let n = cfs.len() - 1;
        law_tables_of_column_families(init, t);
        law_tables_of_levels(cfs.last(), t);
        lemma_joined(tables_of_cfs(init), tables_of_levels(cfs.last()), t);
        assert(cfs[n] == cfs.last());
        if exists|c: int| 0 <= c < init.len() && is_table_of(#[trigger] init[c], t) {
            let c = choose|c: int| 0 <= c < init.len() && is_table_of(#[trigger] init[c], t);
            assert(cfs[c] == init[c]);
        }
        if exists|c: int| 0 <= c < cfs.len() && is_table_of(#[trigger] cfs[c], t) {
            let c = choose|c: int| 0 <= c < cfs.len() && is_table_of(#[trigger] cfs[c], t);
            if c < n {
                assert(init[c] == cfs[c]);
            }
        }
    }
}

/// The ids of columnar files, of the files of vector indexes and of the chunks of transactions
/// are those of each level, index, file and memory table.
pub proof fn law_ids_of_files(
    levels: Seq<Seq<ColumnarFile>>,
    vectors: Seq<Vector>,
    txns: Seq<Txn>,
    mems: Seq<Mem>,
    id: u64,
)
    ensures
        col_ids(levels).contains(id) <==> exists|l: int, i: int|
            0 <= l < levels.len() && 0 <= i < levels[l].len() && (#[trigger] levels[l][i]).id == id,
        vec_ids(vectors).contains(id) <==> exists|v: int, i: int|
            0 <= v < vectors.len() && 0 <= i < vectors[v].files.len() && (
            #[trigger] vectors[v].files[i]).id == id,
        txn_chunks(txns).contains(id) <==> exists|i: int|
            0 <= i < txns.len() && (#[trigger] txns[i]).chunk_ids.contains(id),
        mem_chunks(mems).contains(id) <==> exists|i: int|
            0 <= i < mems.len() && (#[trigger] mems[i]).txn_chunks.contains(id),
{
    lemma_col_ids(levels, id);
    lemma_vec_ids(vectors, id);
    lemma_txn_chunks(txns, id);
    lemma_mem_chunks(mems, id);
}

proof fn lemma_col_ids(levels: Seq<Seq<ColumnarFile>>, id: u64)
    ensures
        col_ids(levels).contains(id) <==> exists|l: int, i: int|
            0 <= l < levels.len() && 0 <= i < levels[l].len() && (#[trigger] levels[l][i]).id == id,
    decreases levels.len(),
{
    if levels.len() > 0 {
        let init = levels.drop_last();
        let n = levels.len() - 1;
        let last = levels.last();
        let ids = Seq::new(last.len(), |i: int| last[i].id);
        lemma_col_ids(init, id);
        lemma_joined(col_ids(init), ids, id);
        assert(levels[n] == last);
        if col_ids(init).contains(id) {
            let (l, i) = choose|l: int, i: int|
                0 <= l < init.len() && 0 <= i < init[l].len() && (#[trigger] init[l][i]).id == id;
            assert(levels[l][i] == init[l][i]);
        }
        if ids.contains(id) {
            let i = choose|i: int| 0 <= i < ids.len() && ids[i] == id;
            assert(levels[n][i].id == id);
        }
        if exists|l: int, i: int|
            0 <= l < levels.len() && 0 <= i < levels[l].len() && (#[trigger] levels[l][i]).id
                == id {
            let (l, i) = choose|l: int, i: int|
                0 <= l < levels.len() && 0 <= i < levels[l].len() && (
                #[trigger] levels[l][i]).id == id;
            if l < n {
                assert(init[l][i].id == id);
            } else {
                assert(ids[i] == id);
            }
        }
    }
}

proof fn lemma_vec_ids(s: Seq<Vector>, id: u64)
    ensures
        vec_ids(s).contains(id) <==> exists|v: int, i: int|
            0 <= v < s.len() && 0 <= i < s[v].files.len() && (#[trigger] s[v].files[i]).id == id,
    decreases s.len(),
{
    if s.len() > 0 {
        let init = s.drop_last();
        let n = s.len() - 1;
        let last = s.last();
        let ids = Seq::new(last.files.len(), |i: int| last.files[i].id);
        lemma_vec_ids(init, id);
        lemma_joined(vec_ids(init), ids, id);
        assert(s[n] == last);
        if vec_ids(init).contains(id) {
            let (v, i) = choose|v: int, i: int|
                0 <= v < init.len() && 0 <= i < init[v].files.len() && (
                #[trigger] init[v].files[i]).id == id;
            assert(s[v].files[i] == init[v].files[i]);
        }
        if ids.contains(id) {
            let i = choose|i: int| 0 <= i < ids.len() && ids[i] == id;
            assert(s[n].files[i].id == id);
        }
        if exists|v: int, i: int|
            0 <= v < s.len() && 0 <= i < s[v].files.len() && (#[trigger] s[v].files[i]).id == id {
            let (v, i) = choose|v: int, i: int|
                0 <= v < s.len() && 0 <= i < s[v].files.len() && (#[trigger] s[v].files[i]).id
                    == id;
            if v < n {
                assert(init[v].files[i].id == id);
            } else {
                assert(ids[i] == id);
            }
        }
    }
}

proof fn lemma_txn_chunks(s: Seq<Txn>, id: u64)
    ensures
        txn_chunks(s).contains(id) <==> exists|i: int|
            0 <= i < s.len() && (#[trigger] s[i]).chunk_ids.contains(id),
    decreases s.len(),
{
    if s.len() > 0 {
        let init = s.drop_last();
        let n = s.len() - 1;
        lemma_txn_chunks(init, id);
        lemma_joined(txn_chunks(init), s.last().chunk_ids, id);
        assert(s[n] == s.last());
        if txn_chunks(init).contains(id) {
            let i = choose|i: int|
                0 <= i < init.len() && (#[trigger] init[i]).chunk_ids.contains(id);
            assert(s[i] == init[i]);
        }
        if exists|i: int| 0 <= i < s.len() && (#[trigger] s[i]).chunk_ids.contains(id) {
            let i = choose|i: int| 0 <= i < s.len() && (#[trigger] s[i]).chunk_ids.contains(id);
            if i < n {
                assert(init[i] == s[i]);
            }
        }
    }
}

proof fn lemma_mem_chunks(s: Seq<Mem>, id: u64)
    ensures
        mem_chunks(s).contains(id) <==> exists|i: int|
            0 <= i < s.len() && (#[trigger] s[i]).txn_chunks.contains(id),
    decreases s.len(),
{
    if s.len() > 0 {
        let init = s.drop_last();
        let n = s.len() - 1;
        lemma_mem_chunks(init, id);
        lemma_joined(mem_chunks(init), s.last().txn_chunks, id);
        assert(s[n] == s.last());
        if mem_chunks(init).contains(id) {
            let i = choose|i: int|
                0 <= i < init.len() && (#[trigger] init[i]).txn_chunks.contains(id);
            assert(s[i] == init[i]);
        }
        if exists|i: int| 0 <= i < s.len() && (#[trigger] s[i]).txn_chunks.contains(id) {
            let i = choose|i: int| 0 <= i < s.len() && (#[trigger] s[i]).txn_chunks.contains(id);
            if i < n {
                assert(init[i] == s[i]);
            }
        }
    }
}

/// The list of all files names every table, blob table, chunk, columnar file, file of a vector
/// index and the schema file of the data, and nothing else.
pub proof fn law_all_files_are_listed(
    d: Data,
    ssts: Seq<u64>,
    chunks: Seq<u64>,
    files: Seq<u64>,
    id: u64,
)
    requires
        is_all_files(d, ssts, chunks, files),
    ensures
        files.contains(id) <==> {
            ||| exists|i: int| 0 <= i < d.l0_tbls.len() && (#[trigger] d.l0_tbls[i]).id == id
            ||| exists|i: int| 0 <= i < d.blob_tbls.len() && (#[trigger] d.blob_tbls[i]).id == id
            ||| exists|t: SsTable| #[trigger] tables_of_cfs(d.cfs).contains(t) && t.id == id
            ||| exists|i: int|
                0 <= i < d.lock_txn_files.len() && (
                #[trigger] d.lock_txn_files[i]).chunk_ids.contains(id)
            ||| exists|i: int|
                0 <= i < d.mem_tbls.len() && (#[trigger] d.mem_tbls[i]).txn_chunks.contains(id)
            ||| exists|l: int, i: int|
                0 <= l < d.col_levels.levels.len() && 0 <= i < d.col_levels.levels[l].len() && (
                #[trigger] d.col_levels.levels[l][i]).id == id
            ||| exists|v: int, i: int|
                0 <= v < d.vector_indexes.len() && 0 <= i < d.vector_indexes[v].files.len() && (
                #[trigger] d.vector_indexes[v].files[i]).id == id
            ||| d.schema_file is Some && d.schema_file->0.file_id == id
        },
{
    let a = ids_of_l0s(d.l0_tbls);
    let b = ids_of_blobs(d.blob_tbls);
    let all = tables_of_cfs(d.cfs);
    let c = local_ids(all, false);
    let s = match d.schema_file {
        Some(schema) => seq![schema.file_id],
        None => Seq::empty(),
    };
    let x = txn_chunks(d.lock_txn_files);
    let y = mem_chunks(d.mem_tbls);
    let cols = col_ids(d.col_levels.levels);
    let vecs = vec_ids(d.vector_indexes);
    lemma_same(ssts, a + b + c, id);
    lemma_same(chunks, x + y, id);
    lemma_joined(a + b, c, id);
    lemma_joined(a, b, id);
    lemma_joined(x, y, id);
    lemma_joined(ssts, chunks, id);
    lemma_joined(ssts + chunks, cols, id);
    lemma_joined(ssts + chunks + cols, vecs, id);
    lemma_joined(ssts + chunks + cols + vecs, s, id);
    law_ids_of_files(d.col_levels.levels, d.vector_indexes, d.lock_txn_files, d.mem_tbls, id);
    law_local_and_remote_tables(all, false, id);
    let p = |t: SsTable| !false || t.sync || !t.storage_class_ia;
    if c.contains(id) {
        let i = choose|i: int| 0 <= i < all.len() && (#[trigger] all[i]).id == id && p(all[i]);
        assert(all.contains(all[i]));
    }
    if exists|t: SsTable| #[trigger] all.contains(t) && t.id == id {
        let t = choose|t: SsTable| #[trigger] all.contains(t) && t.id == id;
        let i = choose|i: int| 0 <= i < all.len() && all[i] == t;
        assert(all[i].id == id && p(all[i]));
    }
    if a.contains(id) {
        let i = choose|i: int| 0 <= i < a.len() && a[i] == id;
        assert(d.l0_tbls[i].id == id);
    }
    if exists|i: int| 0 <= i < d.l0_tbls.len() && (#[trigger] d.l0_tbls[i]).id == id {
        let i = choose|i: int| 0 <= i < d.l0_tbls.len() && (#[trigger] d.l0_tbls[i]).id == id;
        assert(a[i] == id);
    }
    if b.contains(id) {
        let i = choose|i: int| 0 <= i < b.len() && b[i] == id;
        assert(d.blob_tbls[i].id == id);
    }
    if exists|i: int| 0 <= i < d.blob_tbls.len() && (#[trigger] d.blob_tbls[i]).id == id {
        let i = choose|i: int| 0 <= i < d.blob_tbls.len() && (#[trigger] d.blob_tbls[i]).id == id;
        assert(b[i] == id);
    }
    if d.schema_file is Some {
        assert(s[0] == d.schema_file->0.file_id);
        assert(s.contains(id) == (s[0] == id));
    }
}

proof fn lemma_same(a: Seq<u64>, b: Seq<u64>, x: u64)
    requires
        a.to_multiset() == b.to_multiset(),
    ensures
        a.contains(x) == b.contains(x),
{
    broadcast use vstd::seq_lib::group_to_multiset_ensures;

    assert(a.contains(x) == a.to_multiset().contains(x));
    assert(b.contains(x) == b.to_multiset().contains(x));
}

/// Those of the tables that are not loaded are to be loaded that may have keys of the shard,
/// each once.
pub proof fn law_unloaded_tables_of_the_shard_are_loaded(
    d: Data,
    files: Seq<(u64, FileMeta)>,
    id: u64,
)
    requires
        lists_files(files, d.to_load()),
    ensures
        (exists|i: int| 0 <= i < files.len() && (#[trigger] files[i]).0 == id)
            <==> d.unloaded_tbls.contains_key(id) && lex_lt(
            content(d.unloaded_tbls[id].smallest),
            inner_end_of(d.range.end),
        ) && lex_le(inner_of(d.range.start), content(d.unloaded_tbls[id].biggest)),
        forall|i: int|
            0 <= i < files.len() ==> d.unloaded_tbls.contains_key((#[trigger] files[i]).0)
                && files[i].1 == d.unloaded_tbls[files[i].0],
        forall|i: int, j: int|
            0 <= i < j < files.len() ==> (#[trigger] files[i]).0 != (#[trigger] files[j]).0,
{
    assert(d.to_load().contains_key(id) == (d.unloaded_tbls.contains_key(id) && lex_lt(
        content(d.unloaded_tbls[id].smallest),
        inner_end_of(d.range.end),
    ) && lex_le(inner_of(d.range.start), content(d.unloaded_tbls[id].biggest))));
}

/// A file reaches outside the shard if and only if one of level 0 has a key outside, the first
/// table of a lower level begins before the shard or its last ends behind it, or a columnar file
/// has a key outside.
pub proof fn law_files_outside_the_shard(d: Data)
    ensures
        d.file_over_bound() <==> {
            let lower = inner_of(d.range.start);
            let upper = inner_end_of(d.range.end);
            ||| exists|i: int|
                0 <= i < d.l0_tbls.len() && !(lex_le(
                    lower,
                    content((#[trigger] d.l0_tbls[i]).smallest),
                ) && lex_lt(content(d.l0_tbls[i].biggest), upper))
            ||| exists|c: int, l: int|
                0 <= c < d.cfs.len() && 0 <= l < d.cfs[c].len() && (
                #[trigger] d.cfs[c][l]).tables.len() > 0 && !(lex_le(
                    lower,
                    content(d.cfs[c][l].tables[0].smallest),
                ) && lex_lt(content(d.cfs[c][l].tables.last().biggest), upper))
            ||| exists|l: int, i: int|
                0 <= l < d.col_levels.levels.len() && 0 <= i < d.col_levels.levels[l].len() && !(
                lex_le(lower, content((#[trigger] d.col_levels.levels[l][i]).smallest)) && lex_lt(
                    content(d.col_levels.levels[l][i].biggest),
                    upper,
                ))
        },
{
    let b = d.range.inner_bound();
    let lower = inner_of(d.range.start);
    let upper = inner_end_of(d.range.end);
    let x = exists|i: int|
        0 <= i < d.l0_tbls.len() && !(lex_le(lower, content((#[trigger] d.l0_tbls[i]).smallest))
            && lex_lt(content(d.l0_tbls[i].biggest), upper));
    let y = exists|c: int, l: int|
        0 <= c < d.cfs.len() && 0 <= l < d.cfs[c].len() && (#[trigger] d.cfs[c][l]).tables.len() > 0
            && !(lex_le(lower, content(d.cfs[c][l].tables[0].smallest)) && lex_lt(
            content(d.cfs[c][l].tables.last().biggest),
            upper,
        ));
    let z = exists|l: int, i: int|
        0 <= l < d.col_levels.levels.len() && 0 <= i < d.col_levels.levels[l].len() && !(lex_le(
            lower,
            content((#[trigger] d.col_levels.levels[l][i]).smallest),
        ) && lex_lt(content(d.col_levels.levels[l][i].biggest), upper));
    if x {
        let i = choose|i: int|
            0 <= i < d.l0_tbls.len() && !(lex_le(lower, content((#[trigger] d.l0_tbls[i]).smallest))
                && lex_lt(content(d.l0_tbls[i].biggest), upper));
        assert(!b.covers(d.l0_tbls[i].bound()));
    }
    if y {
        let (c, l) = choose|c: int, l: int|
            0 <= c < d.cfs.len() && 0 <= l < d.cfs[c].len() && (
            #[trigger] d.cfs[c][l]).tables.len() > 0 && !(lex_le(
                lower,
                content(d.cfs[c][l].tables[0].smallest),
            ) && lex_lt(content(d.cfs[c][l].tables.last().biggest), upper));
        assert(Data::level_over_bound(d.cfs[c][l], b));
    }
    if z {
        let (l, i) = choose|l: int, i: int|
            0 <= l < d.col_levels.levels.len() && 0 <= i < d.col_levels.levels[l].len() && !(lex_le(
                lower,
                content((#[trigger] d.col_levels.levels[l][i]).smallest),
            ) && lex_lt(content(d.col_levels.levels[l][i].biggest), upper));
        assert(!b.covers(d.col_levels.levels[l][i].bound()));
    }
    if exists|i: int| 0 <= i < d.l0_tbls.len() && !b.covers((#[trigger] d.l0_tbls[i]).bound()) {
        let i = choose|i: int|
            0 <= i < d.l0_tbls.len() && !b.covers((#[trigger] d.l0_tbls[i]).bound());
        assert(x);
    }
    if exists|c: int, i: int|
        0 <= c < d.cfs.len() && 0 <= i < d.cfs[c].len() && Data::level_over_bound(
            #[trigger] d.cfs[c][i],
            b,
        ) {
        let (c, i) = choose|c: int, i: int|
            0 <= c < d.cfs.len() && 0 <= i < d.cfs[c].len() && Data::level_over_bound(
                #[trigger] d.cfs[c][i],
                b,
            );
        assert(d.cfs[c][i].tables.len() > 0);
        assert(y);
    }
    if exists|c: int, i: int|
        0 <= c < d.col_levels.levels.len() && 0 <= i < d.col_levels.levels[c].len() && !b.covers(
            (#[trigger] d.col_levels.levels[c][i]).bound(),
        ) {
        let (c, i) = choose|c: int, i: int|
            0 <= c < d.col_levels.levels.len() && 0 <= i < d.col_levels.levels[c].len()
                && !b.covers((#[trigger] d.col_levels.levels[c][i]).bound());
        assert(z);
    }
}

/// Levels are on local disk as the first table of the first level that has one; where none has,
/// they are.
pub proof fn law_first_table_tells_of_local_disk(levels: Seq<Level>)
    ensures
        (forall|l: int| 0 <= l < levels.len() ==> (#[trigger] levels[l]).tables.len() == 0)
            ==> levels_sync(levels),
        forall|l: int|
            0 <= l < levels.len() && (#[trigger] levels[l]).tables.len() > 0 && (forall|m: int|
                0 <= m < l ==> (#[trigger] levels[m]).tables.len() == 0) ==> levels_sync(levels)
                == levels[l].tables[0].sync,
    decreases levels.len(),
{
    if levels.len() > 0 {
        let rest = levels.drop_first();
        law_first_table_tells_of_local_disk(rest);
        assert forall|l: int| 0 <= l < rest.len() implies #[trigger] rest[l] == levels[l + 1] by {}
        assert forall|l: int|
            0 <= l < levels.len() && (#[trigger] levels[l]).tables.len() > 0 && (forall|m: int|
                0 <= m < l ==> (#[trigger] levels[m]).tables.len() == 0) implies levels_sync(levels)
            == levels[l].tables[0].sync by {
            if l > 0 {
                assert(levels[0].tables.len() == 0);
                assert(rest[l - 1] == levels[l]);
            }
        }
    }
}

} // verus!

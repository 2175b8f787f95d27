//! How large the blocks of ranges are, told block by block.
use vstd::prelude::*;

use crate::bound::Bound;
use crate::key::{lemma_le_transitive, lemma_lt_transitive, lemma_not_lt, lex_le, lex_lt};
use crate::shard::key_laws::law_blocks_are_counted;
use crate::shard::levels::{
    blocks_below, blocks_up_to, kv_sum, lemma_overlap_range, overlap_range, walk_range, BlockIndex,
    BlockWalk, SsTable,
};
use crate::shard::size_laws::{lemma_total_last, lemma_total_same, places, total};

verus! {

/// The lowest keys of the blocks do not decrease.
pub open spec fn keys_rise(keys: Seq<Vec<u8>>) -> bool {
    forall|i: int, j: int|
        0 <= i < j < keys.len() ==> lex_le((#[trigger] keys[i])@, (#[trigger] keys[j])@)
}

/// The block may have keys that are not below the bound: the next one begins behind where the
/// bound begins.
pub open spec fn reaches_up(keys: Seq<Vec<u8>>, j: int, b: Bound) -> bool {
    j + 1 == keys.len() || lex_lt(b.lower, keys[j + 1]@)
}

/// The block begins before the bound ends.
pub open spec fn reaches_down(keys: Seq<Vec<u8>>, j: int, b: Bound) -> bool {
    lex_lt(keys[j]@, b.upper)
}

/// The size of a block, on average.
pub open spec fn average(t: SsTable, idx: BlockIndex) -> int {
    (t.kv_size as usize) as int / (idx.keys@.len() as int)
}

/// The first block whose lowest key is above a key has only such behind it, and only others
/// before it; likewise for the first whose lowest key is the key or above it.
pub proof fn law_blocks_are_found(keys: Seq<Vec<u8>>, k: Seq<u8>, i: int)
    requires
        keys_rise(keys),
        0 <= i < keys.len(),
    ensures
        i < blocks_up_to(keys, k) <==> lex_le(keys[i]@, k),
        i < blocks_below(keys, k) <==> lex_lt(keys[i]@, k),
        blocks_up_to(keys, k) <= keys.len(),
        blocks_below(keys, k) <= keys.len(),
{
    law_blocks_are_counted(keys, k);
    lemma_not_lt(k, keys[i]@);
    let n = blocks_up_to(keys, k) as int;
    if n <= i {
        if n < i {
            assert(lex_le(keys[n]@, keys[i]@));
            lemma_not_lt(keys[i]@, keys[n]@);
            if lex_le(keys[i]@, k) {
                lemma_le_transitive(keys[n]@, keys[i]@, k);
                lemma_not_lt(k, keys[n]@);
            }
        }
    }
    let m = blocks_below(keys, k) as int;
    if m < i {
        assert(lex_le(keys[m]@, keys[i]@));
        if lex_lt(keys[i]@, k) && keys[m]@ != keys[i]@ {
            lemma_lt_transitive(keys[m]@, keys[i]@, k);
        }
    }
}

proof fn lemma_interval(len: nat, left: int, right: int, avg: int)
    requires
        0 <= left <= right,
    ensures
        total(
            places(len),
            |j: int|
                if left <= j < right {
                    avg
                } else {
                    0
                },
        ) == (if len <= left {
            0
        } else if len <= right {
            len - left
        } else {
            right - left
        }) * avg,
    decreases len,
{
    let f = |j: int|
        if left <= j < right {
            avg
        } else {
            0
        };
    let n = if len <= left {
        0
    } else if len <= right {
        len - left
    } else {
        right - left
    };
    if len == 0 {
        assert(places(0).len() == 0);
        assert(0 * avg == 0) by (nonlinear_arith);
    } else {
        let less = (len - 1) as nat;
        lemma_interval(less, left, right, avg);
        lemma_total_last(places(len), f);
        assert(places(len).drop_last() =~= places(less));
        assert(places(len).last() == less);
        assert((n - 1) * avg + avg == n * avg) by (nonlinear_arith);
    }
}

/// A range that is in one table adds the size of the blocks that may have keys of it: those that
/// begin before it ends, and behind which no other begins before it. Where the range before
/// ended in the first of them, that one is not added again.
pub proof fn law_blocks_of_a_range_in_one_table(
    tables: Seq<SsTable>,
    indexes: Seq<BlockIndex>,
    w: BlockWalk,
    b: Bound,
    l: int,
)
    requires
        indexes.len() == tables.len(),
        overlap_range(tables, b, l, l + 1),
        keys_rise(indexes[l].keys@),
        lex_lt(b.lower, b.upper),
        indexes[l].keys@.len() > 0,
    ensures
        ({
            let keys = indexes[l].keys@;
            let avg = average(tables[l], indexes[l]);
            let met = total(
                places(keys.len()),
                |j: int|
                    if reaches_up(keys, j, b) && reaches_down(keys, j, b) {
                        avg
                    } else {
                        0
                    },
            );
            let res = walk_range(tables, indexes, w, b);
            let again = w.id == tables[l].id && exists|j: int|
                0 <= j < keys.len() && j < w.right && #[trigger] reaches_up(keys, j, b);
            &&& res.id == tables[l].id
            &&& res.size == w.size + met - (if again {
                avg
            } else {
                0
            })
        }),
{
    let keys = indexes[l].keys@;
    let avg = average(tables[l], indexes[l]);
    lemma_overlap_range(tables, b, l, l + 1);
    law_blocks_are_counted(keys, b.lower);
    law_blocks_are_counted(keys, b.upper);
    let n = blocks_up_to(keys, b.lower) as int;
    let left = if n > 0 {
        n - 1
    } else {
        0
    };
    let right = blocks_below(keys, b.upper) as int;
    assert(left <= right) by {
        if n > 0 && n - 1 > right {
            law_blocks_are_found(keys, b.lower, n - 2);
            law_blocks_are_found(keys, b.lower, n - 1);
            law_blocks_are_found(keys, b.upper, right);
            assert(lex_le(keys[right]@, keys[n - 1]@));
            lemma_le_transitive(keys[right]@, keys[n - 1]@, b.lower);
            if lex_lt(b.lower, b.upper) {
                if keys[right]@ != b.lower {
                    lemma_lt_transitive(keys[right]@, b.lower, b.upper);
                }
            }
        }
    }
    let f = |j: int|
        if left <= j < right {
            avg
        } else {
            0
        };
    let g = |j: int|
        if reaches_up(keys, j, b) && reaches_down(keys, j, b) {
            avg
        } else {
            0
        };
    assert forall|j: int| 0 <= j < keys.len() implies (left <= j <==> #[trigger] reaches_up(
        keys,
        j,
        b,
    )) by {
        if j + 1 < keys.len() {
            law_blocks_are_found(keys, b.lower, j + 1);
            lemma_not_lt(b.lower, keys[j + 1]@);
            lemma_not_lt(keys[j + 1]@, b.lower);
        }
    }
    assert forall|m: int| 0 <= m < places(keys.len()).len() implies f(
        #[trigger] places(keys.len())[m],
    ) == g(places(keys.len())[m]) by {
        law_blocks_are_found(keys, b.upper, m);
        assert(left <= m <==> reaches_up(keys, m, b));
    }
    lemma_total_same(places(keys.len()), f, g);
    lemma_interval(keys.len(), left, right, avg);
    if left < w.right {
        assert(reaches_up(keys, left, b));
    }
}

/// A range that is in several tables adds the blocks of the first that may have keys of it, all
/// that the tables between the first and the last have, and the blocks of the last that begin
/// before it ends.
pub proof fn law_blocks_of_a_range_in_several_tables(
    tables: Seq<SsTable>,
    indexes: Seq<BlockIndex>,
    w: BlockWalk,
    b: Bound,
    l: int,
    r: int,
)
    requires
        indexes.len() == tables.len(),
        overlap_range(tables, b, l, r),
        l + 1 < r,
        keys_rise(indexes[l].keys@),
        keys_rise(indexes[r - 1].keys@),
        indexes[l].keys@.len() > 0,
        w.id != tables[l].id,
    ensures
        ({
            let first = indexes[l].keys@;
            let last = indexes[r - 1].keys@;
            let res = walk_range(tables, indexes, w, b);
            &&& res.id == tables[r - 1].id
            &&& res.size == w.size + total(
                places(first.len()),
                |j: int|
                    if reaches_up(first, j, b) {
                        average(tables[l], indexes[l])
                    } else {
                        0
                    },
            ) + total(
                tables.subrange(l + 1, r - 1),
                |t: SsTable| (t.kv_size as usize) as int,
            ) + total(
                places(last.len()),
                |j: int|
                    if reaches_down(last, j, b) {
                        average(tables[r - 1], indexes[r - 1])
                    } else {
                        0
                    },
            )
        }),
{
    let first = indexes[l].keys@;
    let last = indexes[r - 1].keys@;
    let avg = average(tables[l], indexes[l]);
    let avg_last = average(tables[r - 1], indexes[r - 1]);
    lemma_overlap_range(tables, b, l, r);
    law_blocks_are_counted(first, b.lower);
    law_blocks_are_counted(last, b.upper);
    let n = blocks_up_to(first, b.lower) as int;
    let left = if n > 0 {
        n - 1
    } else {
        0
    };
    let right = blocks_below(last, b.upper) as int;
    let f = |j: int|
        if left <= j < first.len() {
            avg
        } else {
            0
        };
    let g = |j: int|
        if reaches_up(first, j, b) {
            avg
        } else {
            0
        };
    assert forall|m: int| 0 <= m < places(first.len()).len() implies f(
        #[trigger] places(first.len())[m],
    ) == g(places(first.len())[m]) by {
        if m + 1 < first.len() {
            law_blocks_are_found(first, b.lower, m + 1);
            lemma_not_lt(b.lower, first[m + 1]@);
            lemma_not_lt(first[m + 1]@, b.lower);
        }
    }
    lemma_total_same(places(first.len()), f, g);
    lemma_interval(first.len(), left, first.len() as int, avg);
    let p = |j: int|
        if 0 <= j < right {
            avg_last
        } else {
            0
        };
    let q = |j: int|
        if reaches_down(last, j, b) {
            avg_last
        } else {
            0
        };
    assert forall|m: int| 0 <= m < places(last.len()).len() implies p(
        #[trigger] places(last.len())[m],
    ) == q(places(last.len())[m]) by {
        law_blocks_are_found(last, b.upper, m);
    }
    lemma_total_same(places(last.len()), p, q);
    lemma_interval(last.len(), 0, right, avg_last);
    lemma_kv_sum(tables, l + 1, r - 1);
}

proof fn lemma_kv_sum(tables: Seq<SsTable>, l: int, r: int)
    requires
        0 <= l <= r <= tables.len(),
    ensures
        kv_sum(tables, l, r) == total(
            tables.subrange(l, r),
            |t: SsTable| (t.kv_size as usize) as int,
        ),
    decreases r - l,
{
    let f = |t: SsTable| (t.kv_size as usize) as int;
    let part = tables.subrange(l, r);
    if l < r {
        lemma_kv_sum(tables, l, r - 1);
        lemma_total_last(part, f);
        assert(part.drop_last() =~= tables.subrange(l, r - 1));
        assert(part.last() == tables[r - 1]);
    }
}

} // verus!

//! How keys, inner keys and ranges go together.
use vstd::prelude::*;

use crate::key::{lemma_lt_asymmetric, lemma_not_lt, lemma_prefix_le, lex_le, lex_lt};
use crate::keyspace::{
    be_number, inner_end_of, inner_of, is_keyspace_key, keyspace_id_of,
    law_inner_key_restores_outer_key,
    law_inner_keys_keep_order, prefix_len_of_id, same_keyspace, whole_keyspace,
    GLOBAL_SHARD_END_KEY,
};
use crate::range::Range;

verus! {

/// A key comes before the end of a range if and only if its inner key comes before the inner
/// end, where both are of one keyspace and the range does not end with it. The inner end of a
/// range that ends with a keyspace is behind all inner keys below that of every shard.
pub proof fn law_inner_end_of_a_range(k: Seq<u8>, end: Seq<u8>)
    ensures
        same_keyspace(k, end) && (!is_keyspace_key(end) || end.len() > 4) ==> (lex_lt(
            inner_of(k),
            inner_end_of(end),
        ) <==> lex_lt(k, end)),
        is_keyspace_key(end) && end.len() == 4 ==> (lex_lt(inner_of(k), inner_end_of(end))
            <==> lex_lt(inner_of(k), GLOBAL_SHARD_END_KEY@)),
{
    if same_keyspace(k, end) {
        law_inner_keys_keep_order(k, end);
    }
}

/// The inner bound of a range holds the inner keys of the keys of the range, where the key and
/// the ends are of one keyspace and the range does not end with it.
pub proof fn law_inner_bound_holds_inner_keys(start: Seq<u8>, end: Seq<u8>, k: Seq<u8>)
    requires
        same_keyspace(start, k),
        same_keyspace(k, end),
        !is_keyspace_key(end) || end.len() > 4,
    ensures
        ({
            let r = Range::between(start, end);
            r.inner_bound().has(inner_of(k)) <==> lex_le(start, k) && lex_lt(k, end)
        }),
{
    law_inner_end_of_a_range(k, end);
    law_inner_keys_keep_order(start, k);
    if is_keyspace_key(k) && inner_of(start) == inner_of(k) {
        law_inner_key_restores_outer_key(start);
        law_inner_key_restores_outer_key(k);
    }
}

/// The keys of a range without keyspace have nothing before their inner keys; those of a
/// keyspace whose id is not zero have four bytes.
pub proof fn law_keys_begin_with_their_keyspace(start: Seq<u8>, end: Seq<u8>)
    ensures
        !is_keyspace_key(start) ==> Range::between(start, end).prefix().len() == 0,
        keyspace_id_of(start) == Some(0u32) ==> Range::between(start, end).prefix().len() == 0,
        keyspace_id_of(start) matches Some(id) ==> id > 0 ==> Range::between(start, end).prefix()
            == start.take(4) && prefix_len_of_id(id) == 4,
        prefix_len_of_id(0) == 0,
{
}

proof fn lemma_numbers_keep_order(a: Seq<u8>, b: Seq<u8>)
    requires
        a.len() >= 4,
        b.len() >= 4,
        be_number(a) < be_number(b),
    ensures
        lex_lt(a, b),
{
    reveal_with_fuel(lex_lt, 5);
    let (a1, b1) = (a.drop_first(), b.drop_first());
    let (a2, b2) = (a1.drop_first(), b1.drop_first());
    let (a3, b3) = (a2.drop_first(), b2.drop_first());
    assert(a1[0] == a[1] && b1[0] == b[1]);
    assert(a2[0] == a[2] && b2[0] == b[2]);
    assert(a3[0] == a[3] && b3[0] == b[3]);
}

/// A range that is a whole keyspace holds the keys that begin as its first key does, and no
/// other key of four bytes or more.
pub proof fn law_whole_keyspace_holds_its_keys(start: Seq<u8>, end: Seq<u8>, k: Seq<u8>)
    requires
        whole_keyspace(start, end),
        k.len() >= 4,
    ensures
        lex_le(start, k) && lex_lt(k, end) <==> start.is_prefix_of(k),
{
    let n = be_number(k);
    if n < be_number(start) {
        lemma_numbers_keep_order(k, start);
        lemma_not_lt(k, start);
        if start.is_prefix_of(k) {
            assert(k.take(4) =~= start);
        }
    } else if n > be_number(start) {
        if n > be_number(end) {
            lemma_numbers_keep_order(end, k);
            lemma_not_lt(k, end);
            lemma_lt_asymmetric(end, k);
        } else {
            assert(end[0] == k[0] && end[1] == k[1] && end[2] == k[2] && end[3] == k[3]);
            assert(end =~= k.take(4));
            lemma_prefix_le(end, k);
            lemma_not_lt(k, end);
        }
    } else {
        assert(start[0] == k[0] && start[1] == k[1] && start[2] == k[2] && start[3] == k[3]);
        assert(start =~= k.take(4));
        lemma_prefix_le(start, k);
        lemma_numbers_keep_order(k, end);
    }
}

} // verus!

//! Keys of a keyspace.
//!
//! The keys of a keyspace begin with the byte `x` and three bytes that hold the
//! keyspace id, the highest first. Such a key without these four bytes is an
//! inner key; any other key is its own inner key.
use vstd::prelude::*;
use vstd::slice::slice_subrange;

use crate::key::bytes_eq;

verus! {

/// Length of what all keys of one keyspace begin with.
pub const KEYSPACE_PREFIX_LEN: usize = 4;

/// First byte of the keys of a keyspace, the letter `x`.
pub const TXN_KEY_PREFIX: u8 = 120;

/// Where the inner keys of every shard end.
pub const GLOBAL_SHARD_END_KEY: [u8; 8] = [255, 255, 255, 255, 255, 255, 255, 255];

/// The key belongs to a keyspace.
pub open spec fn is_keyspace_key(k: Seq<u8>) -> bool {
    k.len() >= KEYSPACE_PREFIX_LEN && k[0] == TXN_KEY_PREFIX
}

/// What all keys of the keyspace of `k` begin with.
pub open spec fn keyspace_prefix_of(k: Seq<u8>) -> Option<Seq<u8>> {
    if is_keyspace_key(k) {
        Some(k.take(KEYSPACE_PREFIX_LEN as int))
    } else {
        None
    }
}

/// Both keys belong to one keyspace, or neither belongs to any.
pub open spec fn same_keyspace(a: Seq<u8>, b: Seq<u8>) -> bool {
    keyspace_prefix_of(a) == keyspace_prefix_of(b)
}

/// The keyspace id that the key carries.
pub open spec fn keyspace_id_of(k: Seq<u8>) -> Option<u32> {
    if is_keyspace_key(k) {
        Some((k[1] * 65536 + k[2] * 256 + k[3]) as u32)
    } else {
        None
    }
}

/// The number that four bytes write, the highest first.
pub open spec fn be_number(k: Seq<u8>) -> int {
    k[0] * 16777216 + k[1] * 65536 + k[2] * 256 + k[3]
}

/// The range is all of one keyspace: it begins with the prefix of the keyspace
/// and ends with the prefix after it.
pub open spec fn whole_keyspace(start: Seq<u8>, end: Seq<u8>) -> bool {
    &&& start.len() == KEYSPACE_PREFIX_LEN
    &&& end.len() == KEYSPACE_PREFIX_LEN
    &&& start[0] == TXN_KEY_PREFIX
    &&& be_number(end) == be_number(start) + 1
}

/// The inner key of a key.
pub open spec fn inner_of(k: Seq<u8>) -> Seq<u8> {
    if is_keyspace_key(k) {
        k.skip(KEYSPACE_PREFIX_LEN as int)
    } else {
        k
    }
}

/// The inner key of a key that ends a range: the end of a keyspace is the end of
/// all inner keys.
pub open spec fn inner_end_of(k: Seq<u8>) -> Seq<u8> {
    if is_keyspace_key(k) && k.len() == KEYSPACE_PREFIX_LEN {
        GLOBAL_SHARD_END_KEY@
    } else {
        inner_of(k)
    }
}

/// How many leading bytes an inner key drops from the keys of keyspace `id`.
pub open spec fn prefix_len_of_id(id: u32) -> nat {
    if id > 0 {
        KEYSPACE_PREFIX_LEN as nat
    } else {
        0
    }
}

/// Whether the key belongs to a keyspace.
pub fn in_keyspace(key: &[u8]) -> (res: bool)
    ensures
        res == is_keyspace_key(key@),
{
    key.len() >= KEYSPACE_PREFIX_LEN && key[0] == TXN_KEY_PREFIX
}

/// What all keys of the keyspace of `key` begin with.
pub fn get_keyspace_prefix(key: &[u8]) -> (res: Option<&[u8]>)
    ensures
        match res {
            Some(p) => keyspace_prefix_of(key@) == Some(p@),
            None => keyspace_prefix_of(key@) is None,
        },
{
    if in_keyspace(key) {
        let p = slice_subrange(key, 0, KEYSPACE_PREFIX_LEN);
        assert(p@ =~= key@.take(KEYSPACE_PREFIX_LEN as int));
        Some(p)
    } else {
        None
    }
}

/// The keyspace id that the key carries.
pub fn get_u32_keyspace_id_by_key(key: &[u8]) -> (res: Option<u32>)
    ensures
        res == keyspace_id_of(key@),
{
    if in_keyspace(key) {
        Some(key[1] as u32 * 65536 + key[2] as u32 * 256 + key[3] as u32)
    } else {
        None
    }
}

/// Whether both keys belong to one keyspace, or neither belongs to any.
pub fn is_belongs_to_same_keyspace(a: &[u8], b: &[u8]) -> (res: bool)
    ensures
        res == same_keyspace(a@, b@),
{
    match (get_keyspace_prefix(a), get_keyspace_prefix(b)) {
        (Some(p), Some(q)) => bytes_eq(p, q),
        (None, None) => true,
        _ => false,
    }
}

fn be_u32(key: &[u8]) -> (res: u32)
    requires
        key@.len() == 4,
    ensures
        res == be_number(key@),
{
    key[0] as u32 * 16777216 + key[1] as u32 * 65536 + key[2] as u32 * 256 + key[3] as u32
}

/// Whether the range is all of one keyspace.
pub fn is_whole_keyspace_range(start: &[u8], end: &[u8]) -> (res: bool)
    ensures
        res == whole_keyspace(start@, end@),
{
    start.len() == KEYSPACE_PREFIX_LEN && end.len() == KEYSPACE_PREFIX_LEN && start[0]
        == TXN_KEY_PREFIX && be_u32(end) == be_u32(start) + 1
}

/// How many leading bytes an inner key drops from the keys of a keyspace.
pub fn keyspace_id_to_keyspace_prefix_len(keyspace_id: u32) -> (res: usize)
    ensures
        res == prefix_len_of_id(keyspace_id),
{
    if keyspace_id > 0 {
        KEYSPACE_PREFIX_LEN
    } else {
        0
    }
}

/// The keyspace prefix and the inner key together are the key again.
pub proof fn law_inner_key_restores_outer_key(k: Seq<u8>)
    requires
        is_keyspace_key(k),
    ensures
        keyspace_prefix_of(k)->0 + inner_of(k) == k,
{
    assert(keyspace_prefix_of(k)->0 + inner_of(k) =~= k);
}

/// Inner keys of one keyspace are in the order of the keys.
pub proof fn law_inner_keys_keep_order(a: Seq<u8>, b: Seq<u8>)
    requires
        same_keyspace(a, b),
    ensures
        crate::key::lex_lt(inner_of(a), inner_of(b)) == crate::key::lex_lt(a, b),
{
    if is_keyspace_key(a) {
        law_inner_key_restores_outer_key(a);
        law_inner_key_restores_outer_key(b);
        crate::key::lemma_lt_common_prefix(
            keyspace_prefix_of(a)->0,
            inner_of(a),
            inner_of(b),
        );
    }
}

} // verus!

//! Key ranges of shards and how they are split.
use bytes::Bytes;
use vstd::prelude::*;
use vstd::slice::{slice_subrange, slice_to_vec};

use crate::bound::{Bound, BoundedDataSet, DataBound, InnerKey};
use crate::buf::content;
use crate::del_prefixes::keys_view;
use crate::key::{bytes_eq, bytes_lt, lemma_le_transitive, lemma_not_lt, lex_le, lex_lt};
use crate::keyspace::{
    get_u32_keyspace_id_by_key, inner_end_of, inner_of, is_keyspace_key, keyspace_id_of,
    keyspace_id_to_keyspace_prefix_len, keyspace_prefix_of, prefix_len_of_id, same_keyspace,
};
use crate::pb;

verus! {

/// From the first key of a shard to the key that ends it.
#[verifier::ext_equal]
pub struct Range {
    /// First key.
    pub start: Seq<u8>,
    /// Key that ends the shard.
    pub end: Seq<u8>,
    /// Keyspace of the shard, zero where it has none.
    pub keyspace_id: u32,
}

impl Range {
    /// The range between two keys, of the keyspace of the first.
    pub open spec fn between(start: Seq<u8>, end: Seq<u8>) -> Range {
        Range {
            start,
            end,
            keyspace_id: match keyspace_id_of(start) {
                Some(id) => id,
                None => 0,
            },
        }
    }

    /// The bound of the inner keys.
    pub open spec fn inner_bound(self) -> Bound {
        Bound { lower: inner_of(self.start), upper: inner_end_of(self.end), inclusive: false }
    }

    /// `k` lies in the range.
    pub open spec fn has(self, k: Seq<u8>) -> bool {
        lex_le(self.start, k) && lex_lt(k, self.end)
    }

    /// What the keys begin with, where the keyspace id says that they are those
    /// of a keyspace.
    pub open spec fn prefix(self) -> Seq<u8> {
        self.start.take(prefix_len_of_id(self.keyspace_id) as int)
    }

    /// The first key has room for the prefix of the keyspace.
    pub open spec fn valid(self) -> bool {
        self.start.len() >= prefix_len_of_id(self.keyspace_id)
    }
}

/// From the first key of a shard to the key that ends it.
#[derive(Debug)]
pub struct ShardRange {
    /// First key.
    pub outer_start: Bytes,
    /// Key that ends the shard.
    pub outer_end: Bytes,
    /// Keyspace of the shard, zero where it has none.
    pub keyspace_id: u32,
}

impl View for ShardRange {
    type V = Range;

    open spec fn view(&self) -> Range {
        Range {
            start: content(self.outer_start),
            end: content(self.outer_end),
            keyspace_id: self.keyspace_id,
        }
    }
}

impl Clone for ShardRange {
    fn clone(&self) -> (res: Self)
        ensures
            res == *self,
    {
        ShardRange {
            outer_start: self.outer_start.clone(),
            outer_end: self.outer_end.clone(),
            keyspace_id: self.keyspace_id,
        }
    }
}

impl Default for ShardRange {
    fn default() -> (res: Self)
        ensures
            res@ == (Range { start: Seq::empty(), end: Seq::empty(), keyspace_id: 0 }),
    {
        ShardRange { outer_start: Bytes::new(), outer_end: Bytes::new(), keyspace_id: 0 }
    }
}

impl BoundedDataSet for ShardRange {
    open spec fn bound(&self) -> Bound {
        self@.inner_bound()
    }

    fn data_bound(&self) -> (res: DataBound<'_>) {
        DataBound::new(self.inner_start(), self.inner_end(), false)
    }
}

impl ShardRange {
    /// The range between two keys.
    pub fn new(outer_start: &[u8], outer_end: &[u8]) -> (res: Self)
        ensures
            res@ == Range::between(outer_start@, outer_end@),
    {
        let keyspace_id: u32 = match get_u32_keyspace_id_by_key(outer_start) {
            Some(id) => id,
            None => 0,
        };
        ShardRange {
            outer_start: Bytes::copy_from_slice(outer_start),
            outer_end: Bytes::copy_from_slice(outer_end),
            keyspace_id,
        }
    }

    /// The range of a snapshot.
    pub fn from_snap(snap: &pb::Snapshot) -> (res: Self)
        ensures
            res@ == Range::between(content(snap.outer_start), content(snap.outer_end)),
    {
        Self::new(&snap.outer_start, &snap.outer_end)
    }

    /// First inner key.
    pub fn inner_start(&self) -> (res: InnerKey<'_>)
        ensures
            res@ == inner_of(self@.start),
    {
        InnerKey::from_outer_key(&self.outer_start)
    }

    /// Inner key that ends the shard.
    pub fn inner_end(&self) -> (res: InnerKey<'_>)
        ensures
            res@ == inner_end_of(self@.end),
    {
        InnerKey::from_outer_end_key(&self.outer_end)
    }

    /// What the keys begin with.
    pub fn keyspace_prefix(&self) -> (res: &[u8])
        requires
            self@.valid(),
        ensures
            res@ == self@.prefix(),
    {
        let start: &[u8] = &self.outer_start;
        let res = slice_subrange(start, 0, self.keyspace_prefix_len());
        assert(res@ =~= self@.prefix());
        res
    }

    /// How many leading bytes belong to the keyspace.
    pub fn keyspace_prefix_len(&self) -> (res: usize)
        ensures
            res == prefix_len_of_id(self.keyspace_id),
    {
        keyspace_id_to_keyspace_prefix_len(self.keyspace_id)
    }

    /// The key of an inner key.
    pub fn to_outer_key(&self, inner_key: InnerKey<'_>) -> (res: Vec<u8>)
        requires
            self@.valid(),
        ensures
            res@ == self@.prefix() + inner_key@,
    {
        let mut res = slice_to_vec(self.keyspace_prefix());
        res.extend_from_slice(inner_key.deref());
        assert(res@ =~= self@.prefix() + inner_key@);
        res
    }

    /// Whether the key lies in the range.
    pub fn key_is_in_range(&self, key: &[u8]) -> (res: bool)
        ensures
            res == self@.has(key@),
    {
        crate::key::bytes_le(&self.outer_start, key) && bytes_lt(key, &self.outer_end)
    }

    /// Whether both ranges are the same.
    pub fn equal(&self, other: &Self) -> (res: bool)
        ensures
            res == (self@ == other@),
    {
        bytes_eq(&self.outer_start, &other.outer_start) && bytes_eq(
            &self.outer_end,
            &other.outer_end,
        ) && self.keyspace_id == other.keyspace_id
    }
}

/// The key of an inner key of a key of the shard is that key, where the shard has
/// a keyspace whose id is not zero.
pub proof fn law_outer_key_restored(start: Seq<u8>, end: Seq<u8>, k: Seq<u8>)
    requires
        is_keyspace_key(start),
        keyspace_id_of(start) != Some(0u32),
        same_keyspace(start, k),
    ensures
        Range::between(start, end).valid(),
        Range::between(start, end).prefix() + inner_of(k) == k,
{
    let r = Range::between(start, end);
    assert(keyspace_prefix_of(start)->0 == keyspace_prefix_of(k)->0);
    assert(r.prefix() =~= keyspace_prefix_of(k)->0);
    crate::keyspace::law_inner_key_restores_outer_key(k);
}

/// Where part `i` of a split range begins.
pub open spec fn split_start(start: Seq<u8>, keys: Seq<Seq<u8>>, i: int) -> Seq<u8> {
    if i != 0 {
        keys[i - 1]
    } else {
        start
    }
}

/// Where part `i` of a split range ends.
pub open spec fn split_end(end: Seq<u8>, keys: Seq<Seq<u8>>, i: int) -> Seq<u8> {
    if i == keys.len() {
        end
    } else {
        keys[i]
    }
}

/// The first and the last key of part `i` of a range that is split at the keys.
pub fn get_splitting_start_end<'a: 'b, 'b>(
    start: &'a [u8],
    end: &'a [u8],
    split_keys: &'b Vec<Vec<u8>>,
    i: usize,
) -> (res: (&'b [u8], &'b [u8]))
    requires
        i <= split_keys@.len(),
    ensures
        res.0@ == split_start(start@, keys_view(split_keys@), i as int),
        res.1@ == split_end(end@, keys_view(split_keys@), i as int),
{
    let start_key: &'b [u8] = if i != 0 {
        split_keys[i - 1].as_slice()
    } else {
        start
    };
    let end_key: &'b [u8] = if i == split_keys.len() {
        end
    } else {
        split_keys[i].as_slice()
    };
    (start_key, end_key)
}

/// Which part of a range that is split at the keys holds the key.
pub fn get_split_shard_index(split_keys: &Vec<Vec<u8>>, key: &[u8]) -> (res: usize)
    ensures
        res <= split_keys@.len(),
        forall|i: int| 0 <= i < res ==> lex_le(#[trigger] keys_view(split_keys@)[i], key@),
        res < split_keys@.len() ==> lex_lt(key@, keys_view(split_keys@)[res as int]),
{
    let ghost keys = keys_view(split_keys@);
    let mut i: usize = 0;
    while i < split_keys.len()
        invariant
            i <= split_keys@.len(),
            keys == keys_view(split_keys@),
            forall|j: int| 0 <= j < i ==> lex_le(#[trigger] keys[j], key@),
        decreases split_keys@.len() - i,
    {
        if bytes_lt(key, split_keys[i].as_slice()) {
            return i;
        }
        proof {
            lemma_not_lt(key@, keys[i as int]);
        }
        i = i + 1;
    }
    split_keys.len()
}

/// The parts of a split range follow one another without a gap.
pub proof fn law_split_parts_are_adjacent(
    start: Seq<u8>,
    end: Seq<u8>,
    keys: Seq<Seq<u8>>,
    i: int,
)
    requires
        0 <= i < keys.len(),
    ensures
        split_end(end, keys, i) == split_start(start, keys, i + 1),
        split_start(start, keys, 0) == start,
        split_end(end, keys, keys.len() as int) == end,
{
}

/// Part `i` of a split range.
pub open spec fn split_part(r: Range, keys: Seq<Seq<u8>>, i: int) -> Range {
    Range::between(split_start(r.start, keys, i), split_end(r.end, keys, i))
}

/// The split keys do not decrease.
pub open spec fn keys_sorted(keys: Seq<Seq<u8>>) -> bool {
    forall|i: int, j: int|
        0 <= i < j < keys.len() ==> lex_le(#[trigger] keys[i], #[trigger] keys[j])
}

/// The split keys lie inside the range.
pub open spec fn keys_inside(r: Range, keys: Seq<Seq<u8>>) -> bool {
    forall|i: int|
        0 <= i < keys.len() ==> lex_le(r.start, #[trigger] keys[i]) && lex_le(keys[i], r.end)
}

/// Each key of a range that is split at sorted keys lies in the part that the split index
/// names, and in no other.
pub proof fn law_split_index_finds_the_part(
    r: Range,
    keys: Seq<Seq<u8>>,
    k: Seq<u8>,
    n: int,
    i: int,
)
    requires
        keys_sorted(keys),
        r.has(k),
        0 <= n <= keys.len(),
        forall|j: int| 0 <= j < n ==> lex_le(#[trigger] keys[j], k),
        n < keys.len() ==> lex_lt(k, keys[n]),
        0 <= i <= keys.len(),
    ensures
        split_part(r, keys, i).has(k) <==> i == n,
{
    if i < n {
        assert(lex_le(keys[i], k));
        lemma_not_lt(k, keys[i]);
    } else if i > n {
        if i > n + 1 {
            assert(lex_le(keys[n], keys[i - 1]));
            lemma_not_lt(k, keys[n]);
            if lex_le(keys[i - 1], k) {
                lemma_le_transitive(keys[n], keys[i - 1], k);
            }
        }
        lemma_not_lt(k, keys[i - 1]);
    } else {
        if n > 0 {
            assert(lex_le(keys[n - 1], k));
        }
    }
}

/// A part of a range that is split at keys inside it holds keys of the range alone.
pub proof fn law_split_parts_are_inside(r: Range, keys: Seq<Seq<u8>>, i: int, k: Seq<u8>)
    requires
        keys_inside(r, keys),
        0 <= i <= keys.len(),
        split_part(r, keys, i).has(k),
    ensures
        r.has(k),
{
    if i > 0 {
        lemma_le_transitive(r.start, keys[i - 1], k);
    }
    if i < keys.len() {
        lemma_not_lt(k, keys[i]);
        lemma_not_lt(k, r.end);
        if lex_le(r.end, k) {
            lemma_le_transitive(keys[i], r.end, k);
        }
    }
}

} // verus!

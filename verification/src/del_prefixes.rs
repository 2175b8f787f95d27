//! Prefixes whose keys are to be deleted.
use bytes::Bytes;
use vstd::prelude::*;
use vstd::relations::{sorted_by, total_ordering};
use vstd::seq_lib::lemma_sorted_unique;
use vstd::slice::{slice_subrange, slice_to_vec};

use crate::bound::{Bound, DataBound, InnerKey};
use crate::buf::content;
use crate::codec::{
    get_u16_le, le_bytes, le_value, lemma_le_roundtrip, lemma_pow256_values, put_u16_le,
};
use crate::key::{
    all_max, bytes_eq, bytes_le, bytes_lt, convert_to_prefix_next, lemma_le_transitive,
    lemma_lt_asymmetric, lemma_lt_common_prefix, lemma_lt_total, lemma_not_lt, lemma_prefix_le,
    lemma_prefix_next_bounds, lemma_prefix_next_exact, lemma_prefix_next_greater, lex_le, lex_lt,
    prefix_next, starts_with,
};
use crate::keyspace::{
    inner_end_of, inner_of, keyspace_id_to_keyspace_prefix_len, prefix_len_of_id,
    GLOBAL_SHARD_END_KEY,
};

verus! {

/// The keys that the vectors hold.
pub open spec fn keys_view(v: Seq<Vec<u8>>) -> Seq<Seq<u8>> {
    Seq::new(v.len(), |i: int| v[i]@)
}

/// What follows each of the prefixes.
pub open spec fn nexts_of(prefixes: Seq<Seq<u8>>) -> Seq<Seq<u8>> {
    Seq::new(prefixes.len(), |i: int| prefix_next(prefixes[i]))
}

/// One of the prefixes begins `k`.
pub open spec fn covered(prefixes: Seq<Seq<u8>>, k: Seq<u8>) -> bool {
    exists|i: int| 0 <= i < prefixes.len() && (#[trigger] prefixes[i]).is_prefix_of(k)
}

/// The keys do not decrease.
pub open spec fn keys_sorted(s: Seq<Seq<u8>>) -> bool {
    forall|i: int, j: int| 0 <= i < j < s.len() ==> lex_le(#[trigger] s[i], #[trigger] s[j])
}

/// No prefix comes twice and none begins another.
pub open spec fn antichain(s: Seq<Seq<u8>>) -> bool {
    &&& s.no_duplicates()
    &&& forall|p: Seq<u8>, q: Seq<u8>|
        s.contains(p) && s.contains(q) && p != q ==> !#[trigger] p.is_prefix_of(q)
}

/// The order of keys as a relation.
pub open spec fn key_order() -> spec_fn(Seq<u8>, Seq<u8>) -> bool {
    |a: Seq<u8>, b: Seq<u8>| lex_le(a, b)
}

/// The keys in their order.
pub open spec fn key_sort(s: Seq<Seq<u8>>) -> Seq<Seq<u8>> {
    s.sort_by(key_order())
}

proof fn lemma_key_order_total()
    ensures
        total_ordering(key_order()),
{
    let r = key_order();
    assert forall|x: Seq<u8>, y: Seq<u8>| #[trigger] r(x, y) && #[trigger] r(y, x) implies x
        == y by {
        if x != y {
            lemma_lt_asymmetric(x, y);
        }
    }
    assert forall|x: Seq<u8>, y: Seq<u8>, z: Seq<u8>| #[trigger] r(x, y) && #[trigger] r(
        y,
        z,
    ) implies r(x, z) by {
        lemma_le_transitive(x, y, z);
    }
    assert forall|x: Seq<u8>, y: Seq<u8>| #[trigger] r(x, y) || #[trigger] r(y, x) by {
        lemma_lt_total(x, y);
    }
}

/// Sorted keys are in order, and as many as before.
pub proof fn lemma_key_sort(s: Seq<Seq<u8>>)
    ensures
        keys_sorted(key_sort(s)),
        key_sort(s).to_multiset() == s.to_multiset(),
{
    lemma_key_order_total();
    s.lemma_sort_by_ensures(key_order());
    let t = key_sort(s);
    assert forall|i: int, j: int| 0 <= i < j < t.len() implies lex_le(
        #[trigger] t[i],
        #[trigger] t[j],
    ) by {
        assert(key_order()(t[i], t[j]));
    }
}

/// The prefixes together with `p`: unchanged where one of them begins it, else
/// without those that it begins.
pub open spec fn merge_one(prefixes: Seq<Seq<u8>>, p: Seq<u8>) -> Seq<Seq<u8>> {
    if covered(prefixes, p) {
        prefixes
    } else {
        key_sort(kept(prefixes, p).push(p))
    }
}

/// The prefixes together with all of `more`, one after the other.
pub open spec fn merge_all(prefixes: Seq<Seq<u8>>, more: Seq<Seq<u8>>) -> Seq<Seq<u8>>
    decreases more.len(),
{
    if more.len() == 0 {
        prefixes
    } else {
        merge_one(merge_all(prefixes, more.drop_last()), more.last())
    }
}

/// A set of prefixes and, for each, the key that follows its keys.
#[verifier::ext_equal]
pub struct Deletion {
    /// The prefixes.
    pub prefixes: Seq<Seq<u8>>,
    /// For each prefix, where its keys end.
    pub nexts: Seq<Seq<u8>>,
    /// When the deletion may begin.
    pub schedule_at: u64,
    /// How many leading bytes the inner keys drop.
    pub keyspace_prefix_len: usize,
}

impl Deletion {
    /// The ends are those that follow the prefixes.
    pub open spec fn fresh(self) -> bool {
        self.nexts == nexts_of(self.prefixes)
    }

    /// There is one end for each prefix.
    pub open spec fn matched(self) -> bool {
        self.nexts.len() == self.prefixes.len()
    }

    /// Some prefix deletes all of the keyspace whose prefix is given.
    pub open spec fn deletes_keyspace(self, keyspace_prefix: Seq<u8>) -> bool {
        exists|i: int|
            0 <= i < self.prefixes.len() && (self.keyspace_prefix_len >= (
            #[trigger] self.prefixes[i]).len() || self.prefixes[i].is_prefix_of(keyspace_prefix))
    }

    /// The same settings with other prefixes.
    pub open spec fn with_prefixes(self, prefixes: Seq<Seq<u8>>) -> Deletion {
        Deletion { prefixes, nexts: nexts_of(prefixes), ..self }
    }
}

/// Prefixes whose keys are to be deleted from a shard.
pub struct DeletePrefixes {
    /// The prefixes, with the prefix of their keyspace.
    pub prefixes: Vec<Vec<u8>>,
    // [prefixes[i], prefixes_nexts[i]) is the range to be destroyed.
    prefixes_nexts: Vec<Vec<u8>>,
    /// When the deletion may begin.
    pub schedule_at: u64,
    /// How many leading bytes the inner keys drop.
    pub keyspace_prefix_len: usize,
}

impl View for DeletePrefixes {
    type V = Deletion;

    closed spec fn view(&self) -> Deletion {
        Deletion {
            prefixes: keys_view(self.prefixes@),
            nexts: keys_view(self.prefixes_nexts@),
            schedule_at: self.schedule_at,
            keyspace_prefix_len: self.keyspace_prefix_len,
        }
    }
}

/// Copies the keys.
pub fn copy_keys(keys: &Vec<Vec<u8>>) -> (res: Vec<Vec<u8>>)
    ensures
        keys_view(res@) == keys_view(keys@),
{
    let mut res: Vec<Vec<u8>> = Vec::new();
    let mut i: usize = 0;
    while i < keys.len()
        invariant
            i <= keys@.len(),
            res@.len() == i,
            forall|j: int| 0 <= j < i ==> res@[j]@ == keys@[j]@,
        decreases keys@.len() - i,
    {
        res.push(slice_to_vec(keys[i].as_slice()));
        i = i + 1;
    }
    assert(keys_view(res@) =~= keys_view(keys@));
    res
}

/// The same keys, sorted.
pub fn sort_keys(keys: Vec<Vec<u8>>) -> (res: Vec<Vec<u8>>)
    ensures
        keys_view(res@) == key_sort(keys_view(keys@)),
{
    let mut res: Vec<Vec<u8>> = Vec::new();
    let ghost all = keys_view(keys@);
    assert(keys_view(res@) =~= all.take(0));
    let mut i: usize = 0;
    while i < keys.len()
        invariant
            i <= keys@.len(),
            all == keys_view(keys@),
            keys_sorted(keys_view(res@)),
            keys_view(res@).to_multiset() == all.take(i as int).to_multiset(),
        decreases keys@.len() - i,
    {
        let key = slice_to_vec(keys[i].as_slice());
        let ghost before = keys_view(res@);
        let mut pos: usize = res.len();
        while pos > 0 && bytes_lt(key.as_slice(), res[pos - 1].as_slice())
            invariant
                pos <= res@.len(),
                before == keys_view(res@),
                forall|j: int| pos <= j < before.len() ==> lex_lt(key@, #[trigger] before[j]),
            decreases pos,
        {
            pos = pos - 1;
        }
        proof {
            assert(before.insert(pos as int, key@) =~= keys_view(res@.insert(pos as int, key)));
            vstd::seq_lib::to_multiset_insert(before, pos as int, key@);
            assert(all.take(i + 1) =~= all.take(i as int).push(key@));
            vstd::seq_lib::to_multiset_build(all.take(i as int), key@);
            let after = before.insert(pos as int, key@);
            if pos > 0 {
                lemma_not_lt(key@, before[pos - 1]);
            }
            assert forall|a: int, b: int| 0 <= a < b < after.len() implies lex_le(
                #[trigger] after[a],
                #[trigger] after[b],
            ) by {
                if b < pos {
                    assert(lex_le(before[a], before[b]));
                } else if b == pos {
                    if a < pos - 1 {
                        assert(lex_le(before[a], before[pos - 1]));
                        lemma_le_transitive(before[a], before[pos - 1], key@);
                    }
                } else if a < pos {
                    assert(lex_le(before[a], before[b - 1]));
                } else if a == pos {
                } else {
                    assert(lex_le(before[a - 1], before[b - 1]));
                }
            }
        }
        res.insert(pos, key);
        i = i + 1;
    }
    assert(all.take(i as int) =~= all);
    proof {
        lemma_key_order_total();
        lemma_key_sort(all);
        assert(sorted_by(keys_view(res@), key_order()));
        assert(sorted_by(key_sort(all), key_order()));
        lemma_sorted_unique(keys_view(res@), key_sort(all), key_order());
    }
    res
}

/// The prefixes that do not begin with `prefix`.
pub open spec fn kept(prefixes: Seq<Seq<u8>>, prefix: Seq<u8>) -> Seq<Seq<u8>> {
    prefixes.filter(|p: Seq<u8>| !prefix.is_prefix_of(p))
}

/// What merging two lists of prefixes gives: of two that come together, one that
/// begins with the other is dropped, else the lower comes first.
pub open spec fn merged(a: Seq<Seq<u8>>, b: Seq<Seq<u8>>) -> Seq<Seq<u8>>
    decreases a.len() + b.len(),
{
    if a.len() == 0 {
        b
    } else if b.len() == 0 {
        a
    } else if b[0].is_prefix_of(a[0]) {
        merged(a.drop_first(), b)
    } else if a[0].is_prefix_of(b[0]) {
        merged(a, b.drop_first())
    } else if lex_lt(a[0], b[0]) {
        seq![a[0]] + merged(a.drop_first(), b)
    } else {
        seq![b[0]] + merged(a, b.drop_first())
    }
}

/// The bytes of a list of prefixes: for each, its length on two bytes and itself.
pub open spec fn encoded(prefixes: Seq<Seq<u8>>) -> Seq<u8>
    decreases prefixes.len(),
{
    if prefixes.len() == 0 {
        Seq::empty()
    } else {
        encoded(prefixes.drop_last()) + le_bytes(prefixes.last().len() % 0x1_0000, 2)
            + prefixes.last()
    }
}

/// The prefixes that the bytes hold, if they are well formed.
pub open spec fn decoded(data: Seq<u8>) -> Option<Seq<Seq<u8>>>
    decreases data.len(),
{
    if data.len() == 0 {
        Some(Seq::empty())
    } else if data.len() < 2 || data.len() < 2 + le_value(data.take(2)) {
        None
    } else {
        let end = 2 + le_value(data.take(2));
        match decoded(data.skip(end as int)) {
            Some(rest) => Some(seq![data.subrange(2, end as int)] + rest),
            None => None,
        }
    }
}

/// The prefixes that matter to a shard from `start` to `end`: those inside it and
/// those that begin `start`.
pub open spec fn split_prefixes(
    prefixes: Seq<Seq<u8>>,
    start: Seq<u8>,
    end: Seq<u8>,
) -> Seq<Seq<u8>> {
    prefixes.filter(
        |p: Seq<u8>| (lex_le(start, p) && lex_lt(p, end)) || p.is_prefix_of(start),
    )
}

/// What the inner prefix `p` covers, where `len` leading bytes belong to the
/// keyspace.
pub open spec fn covers_inner(len: usize, p: Seq<u8>, k: Seq<u8>) -> bool {
    len >= p.len() || inner_of(p).is_prefix_of(k)
}

/// The bound of the inner keys that a prefix deletes.
pub open spec fn delete_bound(len: usize, p: Seq<u8>, next: Seq<u8>) -> Bound {
    if len >= p.len() {
        Bound { lower: Seq::empty(), upper: GLOBAL_SHARD_END_KEY@, inclusive: false }
    } else {
        Bound { lower: inner_of(p), upper: inner_end_of(next), inclusive: false }
    }
}

/// The rest of a range that the prefixes from `i` on leave, from `start` on.
pub open spec fn complement(
    d: Deletion,
    i: nat,
    start: Seq<u8>,
    outer_start: Seq<u8>,
    outer_end: Seq<u8>,
) -> Seq<(Seq<u8>, Seq<u8>)>
    decreases d.prefixes.len() - i,
{
    if i >= d.prefixes.len() || (!lex_le(d.nexts[i as int], outer_start) && lex_le(
        outer_end,
        d.prefixes[i as int],
    )) {
        if lex_lt(start, outer_end) {
            seq![(start, outer_end)]
        } else {
            Seq::empty()
        }
    } else if lex_le(d.nexts[i as int], outer_start) {
        complement(d, i + 1, start, outer_start, outer_end)
    } else {
        (if lex_lt(start, d.prefixes[i as int]) {
            seq![(start, d.prefixes[i as int])]
        } else {
            Seq::empty()
        }) + complement(d, i + 1, d.nexts[i as int], outer_start, outer_end)
    }
}

/// The pairs of keys that the vectors hold.
pub open spec fn ranges_view(v: Seq<(Vec<u8>, Vec<u8>)>) -> Seq<(Seq<u8>, Seq<u8>)> {
    Seq::new(v.len(), |i: int| (v[i].0@, v[i].1@))
}

/// The key with its first bytes replaced.
pub open spec fn rewritten(prefix: Seq<u8>, k: Seq<u8>) -> Seq<u8> {
    prefix + k.skip(prefix.len() as int)
}

impl DeletePrefixes {
    fn gen_prefixes_nexts(prefixes: &Vec<Vec<u8>>) -> (res: Vec<Vec<u8>>)
        ensures
            keys_view(res@) == nexts_of(keys_view(prefixes@)),
    {
        let mut res: Vec<Vec<u8>> = Vec::new();
        let mut i: usize = 0;
        while i < prefixes.len()
            invariant
                i <= prefixes@.len(),
                res@.len() == i,
                forall|j: int| 0 <= j < i ==> res@[j]@ == prefix_next(prefixes@[j]@),
            decreases prefixes@.len() - i,
        {
            let mut next = slice_to_vec(prefixes[i].as_slice());
            convert_to_prefix_next(&mut next);
            res.push(next);
            i = i + 1;
        }
        assert(keys_view(res@) =~= nexts_of(keys_view(prefixes@)));
        res
    }

    fn from_prefixes(prefixes: Vec<Vec<u8>>, schedule_at: u64, keyspace_prefix_len: usize) -> (res:
        Self)
        ensures
            res@ == (Deletion {
                prefixes: keys_view(prefixes@),
                nexts: nexts_of(keys_view(prefixes@)),
                schedule_at,
                keyspace_prefix_len,
            }),
    {
        let prefixes_nexts = Self::gen_prefixes_nexts(&prefixes);
        DeletePrefixes { prefixes, prefixes_nexts, schedule_at, keyspace_prefix_len }
    }

    /// No prefix yet.
    pub fn new_with_keyspace_id(keyspace_id: u32) -> (res: Self)
        ensures
            res@.prefixes == Seq::<Seq<u8>>::empty(),
            res@.fresh(),
            res@.schedule_at == 0,
            res@.keyspace_prefix_len == prefix_len_of_id(keyspace_id),
    {
        let prefixes: Vec<Vec<u8>> = Vec::new();
        assert(keys_view(prefixes@) =~= Seq::<Seq<u8>>::empty());
        Self::from_prefixes(prefixes, 0, keyspace_id_to_keyspace_prefix_len(keyspace_id))
    }

    /// A copy.
    pub fn copy(&self) -> (res: Self)
        ensures
            res@ == self@,
    {
        DeletePrefixes {
            prefixes: copy_keys(&self.prefixes),
            prefixes_nexts: copy_keys(&self.prefixes_nexts),
            schedule_at: self.schedule_at,
            keyspace_prefix_len: self.keyspace_prefix_len,
        }
    }

    /// Puts the deletion off.
    pub fn schedule(&mut self, schedule_at: u64)
        ensures
            final(self)@ == (Deletion { schedule_at, ..old(self)@ }),
    {
        self.schedule_at = schedule_at;
    }

    /// Whether there is no prefix.
    pub fn is_empty(&self) -> (res: bool)
        ensures
            res == (self@.prefixes.len() == 0),
    {
        self.prefixes.len() == 0
    }

    /// Whether the deletion may begin at time `now`.
    pub fn after_scheduled_time(&self, now: u64) -> (res: bool)
        ensures
            res == (now > self@.schedule_at),
    {
        now > self.schedule_at
    }

    /// The prefixes together with one more. Where one of them begins it, nothing
    /// changes; those that begin with it are dropped.
    #[must_use]
    pub fn merge_prefix(&self, prefix: &[u8]) -> (res: Self)
        requires
            prefix@.len() >= self@.keyspace_prefix_len,
        ensures
            covered(self@.prefixes, prefix@) ==> res@ == self@,
            !covered(self@.prefixes, prefix@) ==> res@ == (Deletion {
                schedule_at: 0,
                ..self@
            }).with_prefixes(merge_one(self@.prefixes, prefix@)),
    {
        let ghost all = keys_view(self.prefixes@);
        let mut new_prefixes: Vec<Vec<u8>> = Vec::new();
        let mut i: usize = 0;
        assert(all.take(0) =~= Seq::empty());
        assert(keys_view(new_prefixes@) =~= kept(all.take(0), prefix@));
        while i < self.prefixes.len()
            invariant
                i <= self.prefixes@.len(),
                all == keys_view(self.prefixes@),
                keys_view(new_prefixes@) == kept(all.take(i as int), prefix@),
                forall|j: int| 0 <= j < i ==> !(#[trigger] all[j]).is_prefix_of(prefix@),
            decreases self.prefixes@.len() - i,
        {
            let old_prefix = self.prefixes[i].as_slice();
            assert(all[i as int] == old_prefix@);
            if starts_with(prefix, old_prefix) {
                assert(covered(self@.prefixes, prefix@));
                return DeletePrefixes {
                    prefixes: copy_keys(&self.prefixes),
                    prefixes_nexts: copy_keys(&self.prefixes_nexts),
                    schedule_at: self.schedule_at,
                    keyspace_prefix_len: self.keyspace_prefix_len,
                };
            }
            let ghost before = all.take(i as int);
            proof {
                let pred = |p: Seq<u8>| !prefix@.is_prefix_of(p);
                assert(all.take(i + 1) =~= before.push(old_prefix@));
                reveal(Seq::filter);
                assert(before.push(old_prefix@).drop_last() =~= before);
            }
            if !starts_with(old_prefix, prefix) {
                let ghost kept_before = keys_view(new_prefixes@);
                new_prefixes.push(slice_to_vec(old_prefix));
                assert(keys_view(new_prefixes@) =~= kept_before.push(old_prefix@));
            }
            i = i + 1;
        }
        assert(all.take(i as int) =~= all);
        let ghost kept_all = keys_view(new_prefixes@);
        new_prefixes.push(slice_to_vec(prefix));
        assert(keys_view(new_prefixes@) =~= kept_all.push(prefix@));
        let sorted = sort_keys(new_prefixes);
        assert(!covered(self@.prefixes, prefix@));
        Self::from_prefixes(sorted, 0, self.keyspace_prefix_len)
    }

    /// Adds one more prefix.
    pub fn merge_prefix_in_place(&mut self, prefix: &[u8])
        requires
            prefix@.len() >= old(self)@.keyspace_prefix_len,
        ensures
            covered(old(self)@.prefixes, prefix@) ==> final(self)@ == old(self)@,
            !covered(old(self)@.prefixes, prefix@) ==> final(self)@ == (Deletion {
                schedule_at: 0,
                ..old(self)@
            }).with_prefixes(merge_one(old(self)@.prefixes, prefix@)),
    {
        let merged = self.merge_prefix(prefix);
        *self = merged;
    }

    /// The prefixes merged with others that are sorted.
    ///
    /// A prefix of `sorted_prefixes` that another of them begins is not dropped.
    #[must_use]
    pub fn merge_prefixes(&self, sorted_prefixes: &Vec<Vec<u8>>) -> (res: Self)
        ensures
            res@ == self@.with_prefixes(merged(self@.prefixes, keys_view(sorted_prefixes@))),
    {
        let ghost a = keys_view(self.prefixes@);
        let ghost b = keys_view(sorted_prefixes@);
        let mut new_prefixes: Vec<Vec<u8>> = Vec::new();
        let mut i: usize = 0;
        let mut j: usize = 0;
        assert(a.skip(0) =~= a);
        assert(b.skip(0) =~= b);
        assert(keys_view(new_prefixes@) + merged(a, b) =~= merged(a, b));
        while i < self.prefixes.len() && j < sorted_prefixes.len()
            invariant
                a == keys_view(self.prefixes@),
                b == keys_view(sorted_prefixes@),
                i <= a.len(),
                j <= b.len(),
                keys_view(new_prefixes@) + merged(a.skip(i as int), b.skip(j as int)) == merged(
                    a,
                    b,
                ),
            decreases (a.len() - i) + (b.len() - j),
        {
            let first = self.prefixes[i].as_slice();
            let second = sorted_prefixes[j].as_slice();
            let ghost sa = a.skip(i as int);
            let ghost sb = b.skip(j as int);
            let ghost done = keys_view(new_prefixes@);
            assert(sa[0] == first@);
            assert(sb[0] == second@);
            assert(sa.drop_first() =~= a.skip(i + 1));
            assert(sb.drop_first() =~= b.skip(j + 1));
            if starts_with(first, second) {
                i = i + 1;
            } else if starts_with(second, first) {
                j = j + 1;
            } else if bytes_lt(first, second) {
                new_prefixes.push(slice_to_vec(first));
                assert(keys_view(new_prefixes@) =~= done.push(first@));
                assert(done + (seq![first@] + merged(sa.drop_first(), sb)) =~= done.push(first@)
                    + merged(sa.drop_first(), sb));
                i = i + 1;
            } else {
                new_prefixes.push(slice_to_vec(second));
                assert(keys_view(new_prefixes@) =~= done.push(second@));
                assert(done + (seq![second@] + merged(sa, sb.drop_first())) =~= done.push(second@)
                    + merged(sa, sb.drop_first()));
                j = j + 1;
            }
        }
        let ghost rest = if i < a.len() {
            a.skip(i as int)
        } else {
            b.skip(j as int)
        };
        assert(merged(a.skip(i as int), b.skip(j as int)) =~= rest);
        while i < self.prefixes.len()
            invariant
                a == keys_view(self.prefixes@),
                i <= a.len(),
                j <= b.len(),
                i < a.len() ==> j == b.len(),
                j == b.len() ==> keys_view(new_prefixes@) + a.skip(i as int) == merged(a, b),
                j < b.len() ==> keys_view(new_prefixes@) + b.skip(j as int) == merged(a, b),
            decreases a.len() - i,
        {
            let ghost done = keys_view(new_prefixes@);
            new_prefixes.push(slice_to_vec(self.prefixes[i].as_slice()));
            assert(keys_view(new_prefixes@) =~= done.push(a[i as int]));
            assert(done.push(a[i as int]) + a.skip(i + 1) =~= done + a.skip(i as int));
            i = i + 1;
        }
        assert(a.skip(i as int) =~= Seq::empty());
        while j < sorted_prefixes.len()
            invariant
                b == keys_view(sorted_prefixes@),
                j <= b.len(),
                keys_view(new_prefixes@) + b.skip(j as int) == merged(a, b),
            decreases b.len() - j,
        {
            let ghost done = keys_view(new_prefixes@);
            new_prefixes.push(slice_to_vec(sorted_prefixes[j].as_slice()));
            assert(keys_view(new_prefixes@) =~= done.push(b[j as int]));
            assert(done.push(b[j as int]) + b.skip(j + 1) =~= done + b.skip(j as int));
            j = j + 1;
        }
        assert(keys_view(new_prefixes@) =~= keys_view(new_prefixes@) + b.skip(j as int));
        Self::from_prefixes(new_prefixes, self.schedule_at, self.keyspace_prefix_len)
    }

    /// Merges the prefixes of another set into this one.
    pub fn merge(&mut self, other: &Self)
        ensures
            final(self)@ == old(self)@.with_prefixes(
                merged(old(self)@.prefixes, other@.prefixes),
            ),
    {
        let merged = self.merge_prefixes(&other.prefixes);
        *self = merged;
    }

    fn has_prefix(&self, prefix: &[u8]) -> (res: bool)
        ensures
            res == self@.prefixes.contains(prefix@),
    {
        let ghost all = self@.prefixes;
        let mut i: usize = 0;
        while i < self.prefixes.len()
            invariant
                i <= all.len(),
                all == keys_view(self.prefixes@),
                forall|j: int| 0 <= j < i ==> all[j] != prefix@,
            decreases all.len() - i,
        {
            if bytes_eq(self.prefixes[i].as_slice(), prefix) {
                assert(all[i as int] == prefix@);
                return true;
            }
            i = i + 1;
        }
        false
    }

    /// The prefixes without those of the other set.
    pub fn split(&self, other: &DeletePrefixes) -> (res: Self)
        ensures
            res@ == self@.with_prefixes(
                self@.prefixes.filter(|p: Seq<u8>| !other@.prefixes.contains(p)),
            ),
    {
        let ghost all = self@.prefixes;
        let ghost pred = |p: Seq<u8>| !other@.prefixes.contains(p);
        let mut new_prefixes: Vec<Vec<u8>> = Vec::new();
        let mut i: usize = 0;
        proof {
            reveal(Seq::filter);
        }
        assert(keys_view(new_prefixes@) =~= all.take(0).filter(pred));
        while i < self.prefixes.len()
            invariant
                i <= all.len(),
                all == keys_view(self.prefixes@),
                pred == (|p: Seq<u8>| !other@.prefixes.contains(p)),
                keys_view(new_prefixes@) == all.take(i as int).filter(pred),
            decreases all.len() - i,
        {
            let p = self.prefixes[i].as_slice();
            let ghost done = keys_view(new_prefixes@);
            proof {
                reveal(Seq::filter);
                assert(all.take(i + 1).drop_last() =~= all.take(i as int));
                assert(all.take(i + 1).last() == p@);
            }
            if !other.has_prefix(p) {
                new_prefixes.push(slice_to_vec(p));
                assert(keys_view(new_prefixes@) =~= done.push(p@));
            }
            i = i + 1;
        }
        assert(all.take(i as int) =~= all);
        Self::from_prefixes(new_prefixes, self.schedule_at, self.keyspace_prefix_len)
    }

    /// The bytes of the prefixes.
    ///
    /// Of the length of a prefix, the two lowest bytes are written.
    pub fn marshal(&self) -> (res: Vec<u8>)
        ensures
            res@ == encoded(self@.prefixes),
    {
        let ghost all = self@.prefixes;
        let mut buf: Vec<u8> = Vec::new();
        let mut i: usize = 0;
        assert(all.take(0) =~= Seq::empty());
        while i < self.prefixes.len()
            invariant
                i <= all.len(),
                all == keys_view(self.prefixes@),
                buf@ == encoded(all.take(i as int)),
            decreases all.len() - i,
        {
            let p = self.prefixes[i].as_slice();
            let ghost done = buf@;
            let len: u16 = (p.len() % 0x1_0000) as u16;
            put_u16_le(&mut buf, len);
            buf.extend_from_slice(p);
            assert(buf@ =~= done + le_bytes(len as nat, 2) + p@);
            assert(all.take(i + 1).drop_last() =~= all.take(i as int));
            assert(all.take(i + 1).last() == p@);
            i = i + 1;
        }
        assert(all.take(i as int) =~= all);
        buf
    }

    /// Whether the bytes are those of a list of prefixes.
    pub fn is_well_formed(data: &[u8]) -> (res: bool)
        ensures
            res == (decoded(data@) is Some),
    {
        let mut pos: usize = 0;
        assert(data@.skip(0) =~= data@);
        while pos < data.len()
            invariant
                pos <= data@.len(),
                (decoded(data@) is Some) == (decoded(data@.skip(pos as int)) is Some),
            decreases data@.len() - pos,
        {
            let rest = slice_subrange(data, pos, data.len());
            assert(rest@ =~= data@.skip(pos as int));
            if rest.len() < 2 {
                return false;
            }
            let len: usize = get_u16_le(rest) as usize;
            if rest.len() - 2 < len {
                return false;
            }
            assert(rest@.skip(2 + len) =~= data@.skip(pos + 2 + len));
            pos = pos + 2 + len;
        }
        true
    }

    /// The prefixes that the bytes hold.
    pub fn unmarshal(data: &[u8], keyspace_id: u32) -> (res: Self)
        requires
            decoded(data@) is Some,
        ensures
            Some(res@.prefixes) == decoded(data@),
            res@.fresh(),
            res@.schedule_at == 0,
            res@.keyspace_prefix_len == prefix_len_of_id(keyspace_id),
    {
        let mut prefixes: Vec<Vec<u8>> = Vec::new();
        let mut pos: usize = 0;
        assert(data@.skip(0) =~= data@);
        assert(keys_view(prefixes@) + decoded(data@)->0 =~= decoded(data@)->0);
        while pos < data.len()
            invariant
                pos <= data@.len(),
                decoded(data@) is Some,
                decoded(data@.skip(pos as int)) is Some,
                keys_view(prefixes@) + decoded(data@.skip(pos as int))->0 == decoded(data@)->0,
            decreases data@.len() - pos,
        {
            let rest = slice_subrange(data, pos, data.len());
            assert(rest@ =~= data@.skip(pos as int));
            let len: usize = get_u16_le(rest) as usize;
            let ghost done = keys_view(prefixes@);
            let prefix = slice_to_vec(slice_subrange(rest, 2, 2 + len));
            let ghost key = prefix@;
            prefixes.push(prefix);
            proof {
                let tail = decoded(rest@.skip(2 + len))->0;
                assert(keys_view(prefixes@) =~= done.push(key));
                assert(rest@.skip(2 + len) =~= data@.skip(pos + 2 + len));
                assert(done.push(key) + tail =~= done + (seq![key] + tail));
            }
            pos = pos + 2 + len;
        }
        assert(data@.skip(pos as int).len() == 0);
        assert(keys_view(prefixes@) =~= decoded(data@)->0);
        Self::from_prefixes(prefixes, 0, keyspace_id_to_keyspace_prefix_len(keyspace_id))
    }

    /// The prefixes that matter to the part of the shard from `start` to `end`.
    pub fn build_split(&self, start: &[u8], end: &[u8]) -> (res: Self)
        ensures
            res@ == self@.with_prefixes(split_prefixes(self@.prefixes, start@, end@)),
    {
        let ghost all = self@.prefixes;
        let ghost pred = |p: Seq<u8>|
            (lex_le(start@, p) && lex_lt(p, end@)) || p.is_prefix_of(start@);
        let mut new_prefixes: Vec<Vec<u8>> = Vec::new();
        let mut i: usize = 0;
        proof {
            reveal(Seq::filter);
        }
        assert(keys_view(new_prefixes@) =~= all.take(0).filter(pred));
        while i < self.prefixes.len()
            invariant
                i <= all.len(),
                all == keys_view(self.prefixes@),
                pred == (|p: Seq<u8>|
                    (lex_le(start@, p) && lex_lt(p, end@)) || p.is_prefix_of(start@)),
                keys_view(new_prefixes@) == all.take(i as int).filter(pred),
            decreases all.len() - i,
        {
            let p = self.prefixes[i].as_slice();
            let ghost done = keys_view(new_prefixes@);
            proof {
                reveal(Seq::filter);
                assert(all.take(i + 1).drop_last() =~= all.take(i as int));
                assert(all.take(i + 1).last() == p@);
            }
            if (bytes_le(start, p) && bytes_lt(p, end)) || starts_with(start, p) {
                new_prefixes.push(slice_to_vec(p));
                assert(keys_view(new_prefixes@) =~= done.push(p@));
            }
            i = i + 1;
        }
        assert(all.take(i as int) =~= all);
        Self::from_prefixes(new_prefixes, self.schedule_at, self.keyspace_prefix_len)
    }

    /// Whether some prefix deletes all of the keyspace whose prefix is given.
    pub fn cover_full_keyspace(&self, keyspace_prefix: &[u8]) -> (res: bool)
        ensures
            res == self@.deletes_keyspace(keyspace_prefix@),
    {
        let ghost all = self@.prefixes;
        let mut i: usize = 0;
        while i < self.prefixes.len()
            invariant
                i <= all.len(),
                all == keys_view(self.prefixes@),
                forall|j: int|
                    0 <= j < i ==> !(self@.keyspace_prefix_len >= (#[trigger] all[j]).len()
                        || all[j].is_prefix_of(keyspace_prefix@)),
            decreases all.len() - i,
        {
            let p = self.prefixes[i].as_slice();
            assert(all[i as int] == p@);
            if self.keyspace_prefix_len >= p.len() || starts_with(keyspace_prefix, p) {
                assert(self@.prefixes[i as int] == p@);
                return true;
            }
            i = i + 1;
        }
        false
    }

    /// Whether some prefix deletes all keys that begin with the inner prefix.
    pub fn cover_prefix(&self, inner_prefix: InnerKey<'_>) -> (res: bool)
        ensures
            res == exists|i: int|
                0 <= i < self@.prefixes.len() && covers_inner(
                    self@.keyspace_prefix_len,
                    #[trigger] self@.prefixes[i],
                    inner_prefix@,
                ),
    {
        let ghost all = self@.prefixes;
        let mut i: usize = 0;
        while i < self.prefixes.len()
            invariant
                i <= all.len(),
                all == keys_view(self.prefixes@),
                forall|j: int|
                    0 <= j < i ==> !covers_inner(
                        self@.keyspace_prefix_len,
                        #[trigger] all[j],
                        inner_prefix@,
                    ),
            decreases all.len() - i,
        {
            let p = self.prefixes[i].as_slice();
            assert(all[i as int] == p@);
            if self.keyspace_prefix_len >= p.len() || starts_with(
                inner_prefix.deref(),
                InnerKey::from_outer_key(p).deref(),
            ) {
                assert(self@.prefixes[i as int] == p@);
                return true;
            }
            i = i + 1;
        }
        false
    }

    /// Whether some prefix deletes both ends of the range, and so all between.
    pub fn cover_range(&self, inner_start: InnerKey<'_>, inner_end: InnerKey<'_>) -> (res: bool)
        ensures
            res == exists|i: int|
                0 <= i < self@.prefixes.len() && covers_inner(
                    self@.keyspace_prefix_len,
                    #[trigger] self@.prefixes[i],
                    inner_start@,
                ) && covers_inner(
                    self@.keyspace_prefix_len,
                    self@.prefixes[i],
                    inner_end@,
                ),
    {
        let ghost all = self@.prefixes;
        let mut i: usize = 0;
        while i < self.prefixes.len()
            invariant
                i <= all.len(),
                all == keys_view(self.prefixes@),
                forall|j: int|
                    0 <= j < i ==> !(covers_inner(
                        self@.keyspace_prefix_len,
                        #[trigger] all[j],
                        inner_start@,
                    ) && covers_inner(self@.keyspace_prefix_len, all[j], inner_end@)),
            decreases all.len() - i,
        {
            let p = self.prefixes[i].as_slice();
            assert(all[i as int] == p@);
            if self.keyspace_prefix_len >= p.len() {
                assert(self@.prefixes[i as int] == p@);
                return true;
            }
            let inner_p = InnerKey::from_outer_key(p);
            if starts_with(inner_start.deref(), inner_p.deref()) && starts_with(
                inner_end.deref(),
                inner_p.deref(),
            ) {
                assert(self@.prefixes[i as int] == p@);
                return true;
            }
            i = i + 1;
        }
        false
    }

    /// The bounds of the inner keys that the prefixes delete.
    pub fn inner_delete_bounds(&self) -> (res: Vec<DataBound<'_>>)
        requires
            self@.matched(),
        ensures
            res@.len() == self@.prefixes.len(),
            forall|i: int|
                0 <= i < res@.len() ==> (#[trigger] res@[i])@ == delete_bound(
                    self@.keyspace_prefix_len,
                    self@.prefixes[i],
                    self@.nexts[i],
                ),
    {
        let mut res: Vec<DataBound<'_>> = Vec::new();
        let mut i: usize = 0;
        while i < self.prefixes.len()
            invariant
                i <= self.prefixes@.len(),
                self@.matched(),
                res@.len() == i,
                forall|j: int|
                    0 <= j < i ==> (#[trigger] res@[j])@ == delete_bound(
                        self@.keyspace_prefix_len,
                        self@.prefixes[j],
                        self@.nexts[j],
                    ),
            decreases self.prefixes@.len() - i,
        {
            let p = self.prefixes[i].as_slice();
            assert(self@.prefixes[i as int] == p@);
            assert(self.prefixes_nexts@.len() == self@.nexts.len());
            let next = self.prefixes_nexts[i].as_slice();
            assert(self@.nexts[i as int] == next@);
            let bound = if self.keyspace_prefix_len >= p.len() {
                let b = DataBound::new(
                    InnerKey::from_inner_buf(&[]),
                    InnerKey::from_inner_buf(&GLOBAL_SHARD_END_KEY),
                    false,
                );
                assert(b@.lower =~= Seq::<u8>::empty());
                b
            } else {
                DataBound::new(
                    InnerKey::from_outer_key(p),
                    InnerKey::from_outer_end_key(next),
                    false,
                )
            };
            res.push(bound);
            i = i + 1;
        }
        res
    }

    /// The ranges between `outer_start` and `outer_end` that no prefix deletes.
    pub fn get_complementary_ranges(&self, outer_start: &[u8], outer_end: &[u8]) -> (res: Vec<
        (Vec<u8>, Vec<u8>),
    >)
        requires
            self@.matched(),
        ensures
            ranges_view(res@) == complement(self@, 0, outer_start@, outer_start@, outer_end@),
    {
        let mut ranges: Vec<(Vec<u8>, Vec<u8>)> = Vec::new();
        let mut start = slice_to_vec(outer_start);
        let ghost whole = complement(self@, 0, outer_start@, outer_start@, outer_end@);
        let mut i: usize = 0;
        assert(ranges_view(ranges@) + whole =~= whole);
        while i < self.prefixes.len()
            invariant_except_break
                i <= self.prefixes@.len(),
                self@.matched(),
                ranges_view(ranges@) + complement(
                    self@,
                    i as nat,
                    start@,
                    outer_start@,
                    outer_end@,
                ) == whole,
            ensures
                ranges_view(ranges@) + (if lex_lt(start@, outer_end@) {
                    seq![(start@, outer_end@)]
                } else {
                    Seq::empty()
                }) == whole,
            decreases self.prefixes@.len() - i,
        {
            let prefix = self.prefixes[i].as_slice();
            assert(self@.prefixes[i as int] == prefix@);
            assert(self.prefixes_nexts@.len() == self@.nexts.len());
            let prefix_next = self.prefixes_nexts[i].as_slice();
            assert(self@.nexts[i as int] == prefix_next@);
            if bytes_le(prefix_next, outer_start) {
                i = i + 1;
                continue;
            }
            if bytes_le(outer_end, prefix) {
                break;
            }
            let ghost done = ranges_view(ranges@);
            let ghost rest = complement(
                self@,
                i as nat + 1,
                prefix_next@,
                outer_start@,
                outer_end@,
            );
            if bytes_lt(start.as_slice(), prefix) {
                let ghost pair = (start@, prefix@);
                ranges.push((slice_to_vec(start.as_slice()), slice_to_vec(prefix)));
                assert(ranges_view(ranges@) =~= done.push(pair));
                assert(done.push(pair) + rest =~= done + (seq![pair] + rest));
            } else {
                assert(Seq::<(Seq<u8>, Seq<u8>)>::empty() + rest =~= rest);
            }
            start = slice_to_vec(prefix_next);
            i = i + 1;
        }
        if bytes_lt(start.as_slice(), outer_end) {
            let ghost done = ranges_view(ranges@);
            let ghost pair = (start@, outer_end@);
            ranges.push((start, slice_to_vec(outer_end)));
            assert(ranges_view(ranges@) =~= done + seq![pair]);
        } else {
            assert(ranges_view(ranges@) =~= ranges_view(ranges@) + Seq::empty());
        }
        ranges
    }

    /// Gives the prefixes, and where their keys end, another keyspace prefix.
    ///
    /// Nothing changes where there is no prefix or the first has it already.
    pub fn rewrite_range_prefix(&mut self, prefix: &[u8])
        requires
            prefix@.len() == old(self)@.keyspace_prefix_len,
            old(self)@.prefixes.len() > 0 && !prefix@.is_prefix_of(old(self)@.prefixes[0]) ==> {
                &&& forall|i: int|
                    0 <= i < old(self)@.prefixes.len() ==> (#[trigger] old(
                        self,
                    )@.prefixes[i]).len() >= prefix@.len()
                &&& forall|i: int|
                    0 <= i < old(self)@.nexts.len() ==> (#[trigger] old(self)@.nexts[i]).len()
                        >= prefix@.len()
            },
        ensures
            final(self)@ == if old(self)@.prefixes.len() == 0 || prefix@.is_prefix_of(
                old(self)@.prefixes[0],
            ) {
                old(self)@
            } else {
                Deletion {
                    prefixes: old(self)@.prefixes.map_values(|k: Seq<u8>| rewritten(prefix@, k)),
                    nexts: old(self)@.nexts.map_values(|k: Seq<u8>| rewritten(prefix@, k)),
                    ..old(self)@
                }
            },
    {
        if self.prefixes.len() == 0 {
            return;
        }
        assert(self@.prefixes[0] == self.prefixes@[0]@);
        if starts_with(self.prefixes[0].as_slice(), prefix) {
            return;
        }
        assert forall|i: int| 0 <= i < self.prefixes@.len() implies (
        #[trigger] self.prefixes@[i])@.len() >= prefix@.len() by {
            assert(self@.prefixes[i] == self.prefixes@[i]@);
        }
        assert forall|i: int| 0 <= i < self.prefixes_nexts@.len() implies (
        #[trigger] self.prefixes_nexts@[i])@.len() >= prefix@.len() by {
            assert(self@.nexts[i] == self.prefixes_nexts@[i]@);
        }
        let prefixes = rewrite_keys(prefix, &self.prefixes);
        let nexts = rewrite_keys(prefix, &self.prefixes_nexts);
        self.prefixes = prefixes;
        self.prefixes_nexts = nexts;
    }
}

fn rewrite_keys(prefix: &[u8], keys: &Vec<Vec<u8>>) -> (res: Vec<Vec<u8>>)
    requires
        forall|i: int| 0 <= i < keys@.len() ==> (#[trigger] keys@[i])@.len() >= prefix@.len(),
    ensures
        keys_view(res@) == keys_view(keys@).map_values(|k: Seq<u8>| rewritten(prefix@, k)),
{
    let mut res: Vec<Vec<u8>> = Vec::new();
    let mut i: usize = 0;
    while i < keys.len()
        invariant
            i <= keys@.len(),
            res@.len() == i,
            forall|j: int| 0 <= j < keys@.len() ==> (#[trigger] keys@[j])@.len() >= prefix@.len(),
            forall|j: int| 0 <= j < i ==> (#[trigger] res@[j])@ == rewritten(prefix@, keys@[j]@),
        decreases keys@.len() - i,
    {
        let mut key = slice_to_vec(prefix);
        let k = keys[i].as_slice();
        key.extend_from_slice(slice_subrange(k, prefix.len(), k.len()));
        assert(key@ =~= rewritten(prefix@, k@));
        res.push(key);
        i = i + 1;
    }
    assert(keys_view(res@) =~= keys_view(keys@).map_values(|k: Seq<u8>| rewritten(prefix@, k)));
    res
}

/// The prefixes that an optional property holds.
pub open spec fn property_prefixes(value: Option<Bytes>) -> Seq<Seq<u8>> {
    match value {
        Some(b) => decoded(content(b))->0,
        None => Seq::empty(),
    }
}

/// The property is absent or well formed.
pub open spec fn property_decodes(value: Option<Bytes>) -> bool {
    value matches Some(b) ==> decoded(content(b)) is Some
}

/// Every prefix has the prefix of its keyspace.
pub open spec fn prefixes_at_least(prefixes: Seq<Seq<u8>>, len: nat) -> bool {
    forall|i: int| 0 <= i < prefixes.len() ==> (#[trigger] prefixes[i]).len() >= len
}

/// The prefixes of both properties in one, if there is any property.
pub fn merge_del_prefixes_if_needed(
    first: Option<Bytes>,
    second: Option<Bytes>,
    keyspace_id: u32,
) -> (res: Option<Vec<u8>>)
    requires
        property_decodes(first),
        property_decodes(second),
        prefixes_at_least(property_prefixes(second), prefix_len_of_id(keyspace_id)),
    ensures
        match res {
            Some(buf) => (first is Some || second is Some) && buf@ == encoded(
                merge_all(property_prefixes(first), property_prefixes(second)),
            ),
            None => first is None && second is None,
        },
{
    if first.is_none() && second.is_none() {
        return None;
    }
    let mut first_prefixes = match &first {
        Some(b) => DeletePrefixes::unmarshal(b, keyspace_id),
        None => DeletePrefixes::new_with_keyspace_id(keyspace_id),
    };
    let second_prefixes = match &second {
        Some(b) => DeletePrefixes::unmarshal(b, keyspace_id),
        None => DeletePrefixes::new_with_keyspace_id(keyspace_id),
    };
    let ghost base = property_prefixes(first);
    let ghost more = property_prefixes(second);
    let mut i: usize = 0;
    assert(more.take(0) =~= Seq::empty());
    while i < second_prefixes.prefixes.len()
        invariant
            i <= more.len(),
            more == keys_view(second_prefixes.prefixes@),
            prefixes_at_least(more, prefix_len_of_id(keyspace_id)),
            first_prefixes@.keyspace_prefix_len == prefix_len_of_id(keyspace_id),
            first_prefixes@.prefixes == merge_all(base, more.take(i as int)),
        decreases more.len() - i,
    {
        let p = second_prefixes.prefixes[i].as_slice();
        assert(more[i as int] == p@);
        assert(more.take(i + 1).drop_last() =~= more.take(i as int));
        assert(more.take(i + 1).last() == p@);
        first_prefixes = first_prefixes.merge_prefix(p);
        i = i + 1;
    }
    assert(more.take(i as int) =~= more);
    Some(first_prefixes.marshal())
}

proof fn lemma_covered_contains(s: Seq<Seq<u8>>, p: Seq<u8>, k: Seq<u8>)
    requires
        s.contains(p),
        p.is_prefix_of(k),
    ensures
        covered(s, k),
{
    let i = choose|i: int| 0 <= i < s.len() && s[i] == p;
    assert(s[i].is_prefix_of(k));
}

proof fn lemma_prefix_transitive(a: Seq<u8>, b: Seq<u8>, c: Seq<u8>)
    requires
        a.is_prefix_of(b),
        b.is_prefix_of(c),
    ensures
        a.is_prefix_of(c),
{
    assert(a =~= c.subrange(0, a.len() as int)) by {
        assert forall|i: int| 0 <= i < a.len() implies a[i] == c[i] by {
            assert(a[i] == b.subrange(0, a.len() as int)[i]);
            assert(b[i] == c.subrange(0, b.len() as int)[i]);
        }
    }
}

/// Sorted keys are the same keys.
pub proof fn lemma_sort_contains(s: Seq<Seq<u8>>, x: Seq<u8>)
    ensures
        key_sort(s).contains(x) == s.contains(x),
{
    lemma_key_sort(s);
    vstd::seq_lib::to_multiset_contains(s, x);
    vstd::seq_lib::to_multiset_contains(key_sort(s), x);
}

proof fn lemma_kept_contains(s: Seq<Seq<u8>>, p: Seq<u8>, x: Seq<u8>)
    ensures
        kept(s, p).contains(x) <==> s.contains(x) && !p.is_prefix_of(x),
{
    let pred = |q: Seq<u8>| !p.is_prefix_of(q);
    if s.filter(pred).contains(x) {
        s.lemma_filter_contains_rev(pred, x);
    }
    if s.contains(x) && pred(x) {
        broadcast use vstd::seq_lib::group_filter_ensures;

        let i = choose|i: int| 0 <= i < s.len() && s[i] == x;
        assert(s.filter(pred).contains(s[i]));
    }
}

/// After a prefix is merged, the keys that are deleted are those of before and
/// those that begin with the prefix.
pub proof fn law_merge_prefix_deletes_both(prefixes: Seq<Seq<u8>>, p: Seq<u8>, k: Seq<u8>)
    ensures
        covered(merge_one(prefixes, p), k) <==> covered(prefixes, k) || p.is_prefix_of(k),
{
    let res = merge_one(prefixes, p);
    if covered(prefixes, p) {
        if p.is_prefix_of(k) {
            let i = choose|i: int| 0 <= i < prefixes.len() && (#[trigger] prefixes[i]).is_prefix_of(p);
            lemma_prefix_transitive(prefixes[i], p, k);
        }
    } else {
        let all = kept(prefixes, p).push(p);
        if covered(res, k) {
            let i = choose|i: int| 0 <= i < res.len() && (#[trigger] res[i]).is_prefix_of(k);
            lemma_sort_contains(all, res[i]);
            assert(res.contains(res[i]));
            if res[i] != p {
                let j = choose|j: int| 0 <= j < all.len() && all[j] == res[i];
                assert(kept(prefixes, p)[j] == res[i]);
                lemma_kept_contains(prefixes, p, res[i]);
                lemma_covered_contains(prefixes, res[i], k);
            }
        }
        if p.is_prefix_of(k) {
            assert(all.last() == p);
            lemma_sort_contains(all, p);
            lemma_covered_contains(res, p, k);
        } else if covered(prefixes, k) {
            let i = choose|i: int| 0 <= i < prefixes.len() && (#[trigger] prefixes[i]).is_prefix_of(k);
            let q = prefixes[i];
            if p.is_prefix_of(q) {
                lemma_prefix_transitive(p, q, k);
            }
            lemma_kept_contains(prefixes, p, q);
            let j = choose|j: int| 0 <= j < kept(prefixes, p).len() && kept(prefixes, p)[j] == q;
            assert(all[j] == q);
            lemma_sort_contains(all, q);
            lemma_covered_contains(res, q, k);
        }
    }
}

/// Prefixes that are sorted and of which none begins another stay so when one
/// more is merged.
pub proof fn law_merge_prefix_keeps_order(prefixes: Seq<Seq<u8>>, p: Seq<u8>)
    requires
        keys_sorted(prefixes),
        antichain(prefixes),
    ensures
        keys_sorted(merge_one(prefixes, p)),
        antichain(merge_one(prefixes, p)),
{
    if !covered(prefixes, p) {
        let some = kept(prefixes, p);
        let all = some.push(p);
        let res = key_sort(all);
        lemma_key_sort(all);
        assert forall|a: Seq<u8>, b: Seq<u8>| res.contains(a) && res.contains(b) && a
            != b implies !#[trigger] a.is_prefix_of(b) by {
            lemma_sort_contains(all, a);
            lemma_sort_contains(all, b);
            lemma_kept_contains(prefixes, p, a);
            lemma_kept_contains(prefixes, p, b);
            assert(all.contains(a) ==> a == p || some.contains(a)) by {
                if all.contains(a) && a != p {
                    let j = choose|j: int| 0 <= j < all.len() && all[j] == a;
                    assert(some[j] == a);
                }
            }
            assert(all.contains(b) ==> b == p || some.contains(b)) by {
                if all.contains(b) && b != p {
                    let j = choose|j: int| 0 <= j < all.len() && all[j] == b;
                    assert(some[j] == b);
                }
            }
            if b == p && a.is_prefix_of(b) {
                lemma_covered_contains(prefixes, a, p);
            }
        }
        let pred = |q: Seq<u8>| !p.is_prefix_of(q);
        assert(some.no_duplicates()) by {
            lemma_filter_no_duplicates(prefixes, pred);
        }
        assert(all.no_duplicates()) by {
            lemma_kept_contains(prefixes, p, p);
            assert(p =~= p.subrange(0, p.len() as int));
            assert(!some.contains(p));
            assert forall|i: int, j: int| 0 <= i < all.len() && 0 <= j < all.len() && i
                != j implies all[i] != all[j] by {
                if i == some.len() {
                    assert(some.contains(some[j]));
                } else if j == some.len() {
                    assert(some.contains(some[i]));
                }
            }
        }
        all.lemma_multiset_has_no_duplicates();
        res.lemma_multiset_has_no_duplicates_conv();
    }
}

proof fn lemma_filter_no_duplicates(s: Seq<Seq<u8>>, pred: spec_fn(Seq<u8>) -> bool)
    requires
        s.no_duplicates(),
    ensures
        s.filter(pred).no_duplicates(),
    decreases s.len(),
{
    reveal(Seq::filter);
    if s.len() > 0 {
        let head = s.drop_last();
        lemma_filter_no_duplicates(head, pred);
        if pred(s.last()) {
            let f = head.filter(pred);
            assert(!f.contains(s.last())) by {
                if f.contains(s.last()) {
                    head.lemma_filter_contains_rev(pred, s.last());
                    let i = choose|i: int| 0 <= i < head.len() && head[i] == s.last();
                    assert(s[i] == s[s.len() - 1]);
                }
            }
            let g = f.push(s.last());
            assert forall|i: int, j: int| 0 <= i < g.len() && 0 <= j < g.len() && i
                != j implies g[i] != g[j] by {
                if i == f.len() {
                    assert(f.contains(f[j]));
                } else if j == f.len() {
                    assert(f.contains(f[i]));
                }
            }
        }
    }
}

/// Merging two lists of prefixes deletes what either of them deletes.
pub proof fn law_merged_deletes_both(a: Seq<Seq<u8>>, b: Seq<Seq<u8>>, k: Seq<u8>)
    ensures
        covered(merged(a, b), k) <==> covered(a, k) || covered(b, k),
    decreases a.len() + b.len(),
{
    if a.len() > 0 && b.len() > 0 {
        let at = a.drop_first();
        let bt = b.drop_first();
        lemma_covered_first(a, k);
        lemma_covered_first(b, k);
        if b[0].is_prefix_of(a[0]) {
            law_merged_deletes_both(at, b, k);
            if a[0].is_prefix_of(k) {
                lemma_prefix_transitive(b[0], a[0], k);
            }
        } else if a[0].is_prefix_of(b[0]) {
            law_merged_deletes_both(a, bt, k);
            if b[0].is_prefix_of(k) {
                lemma_prefix_transitive(a[0], b[0], k);
            }
        } else if lex_lt(a[0], b[0]) {
            law_merged_deletes_both(at, b, k);
            lemma_covered_first(merged(a, b), k);
            assert(merged(a, b).drop_first() =~= merged(at, b));
        } else {
            law_merged_deletes_both(a, bt, k);
            lemma_covered_first(merged(a, b), k);
            assert(merged(a, b).drop_first() =~= merged(a, bt));
        }
    }
}

proof fn lemma_covered_first(s: Seq<Seq<u8>>, k: Seq<u8>)
    requires
        s.len() > 0,
    ensures
        covered(s, k) <==> s[0].is_prefix_of(k) || covered(s.drop_first(), k),
{
    if covered(s, k) && !s[0].is_prefix_of(k) {
        let i = choose|i: int| 0 <= i < s.len() && (#[trigger] s[i]).is_prefix_of(k);
        assert(s.drop_first()[i - 1].is_prefix_of(k));
    }
    if covered(s.drop_first(), k) {
        let i = choose|i: int|
            0 <= i < s.drop_first().len() && (#[trigger] s.drop_first()[i]).is_prefix_of(k);
        assert(s[i + 1].is_prefix_of(k));
    }
}

/// What was marshalled is unmarshalled, for prefixes whose length fits the two
/// bytes that it gets.
pub proof fn law_marshal_roundtrip(prefixes: Seq<Seq<u8>>)
    requires
        forall|i: int| 0 <= i < prefixes.len() ==> (#[trigger] prefixes[i]).len() < 0x1_0000,
    ensures
        decoded(encoded(prefixes)) == Some(prefixes),
{
    assert(encoded(prefixes) + Seq::<u8>::empty() =~= encoded(prefixes));
    lemma_decode_appended(prefixes, Seq::empty());
    assert(prefixes + Seq::<Seq<u8>>::empty() =~= prefixes);
}

proof fn lemma_decode_appended(prefixes: Seq<Seq<u8>>, rest: Seq<u8>)
    requires
        forall|i: int| 0 <= i < prefixes.len() ==> (#[trigger] prefixes[i]).len() < 0x1_0000,
        decoded(rest) is Some,
    ensures
        decoded(encoded(prefixes) + rest) == Some(prefixes + decoded(rest)->0),
    decreases prefixes.len(),
{
    if prefixes.len() == 0 {
        assert(encoded(prefixes) + rest =~= rest);
        assert(prefixes + decoded(rest)->0 =~= decoded(rest)->0);
    } else {
        let head = prefixes.drop_last();
        let p = prefixes.last();
        assert(prefixes[prefixes.len() - 1] == p);
        let len = le_bytes(p.len(), 2);
        lemma_pow256_values();
        lemma_le_roundtrip(p.len(), 2);
        let tail = len + p + rest;
        assert(tail.take(2) =~= len);
        assert(tail.skip(2 + p.len() as int) =~= rest);
        assert(tail.subrange(2, 2 + p.len() as int) =~= p);
        assert(decoded(tail) == Some(seq![p] + decoded(rest)->0));
        assert forall|i: int| 0 <= i < head.len() implies (#[trigger] head[i]).len() < 0x1_0000 by {
            assert(head[i] == prefixes[i]);
        }
        lemma_decode_appended(head, tail);
        assert(encoded(prefixes) + rest =~= encoded(head) + tail);
        assert(head + (seq![p] + decoded(rest)->0) =~= prefixes + decoded(rest)->0);
    }
}

proof fn lemma_between_begins(p: Seq<u8>, s: Seq<u8>, k: Seq<u8>)
    requires
        p.is_prefix_of(k),
        lex_le(p, s),
        lex_le(s, k),
    ensures
        p.is_prefix_of(s),
    decreases p.len(),
{
    if p.len() > 0 {
        assert(p[0] == k.subrange(0, p.len() as int)[0]);
        if s == p {
            assert(p =~= s.subrange(0, p.len() as int));
        } else if s == k {
        } else {
            assert(s[0] == p[0]);
            let pt = p.drop_first();
            let st = s.drop_first();
            let kt = k.drop_first();
            assert(pt =~= kt.subrange(0, pt.len() as int)) by {
                assert forall|i: int| 0 <= i < pt.len() implies pt[i] == kt[i] by {
                    assert(p[i + 1] == k.subrange(0, p.len() as int)[i + 1]);
                }
            }
            lemma_between_begins(pt, st, kt);
            assert(p =~= s.subrange(0, p.len() as int)) by {
                assert forall|i: int| 0 <= i < p.len() implies p[i] == s[i] by {
                    if i > 0 {
                        assert(pt[i - 1] == st.subrange(0, pt.len() as int)[i - 1]);
                    }
                }
            }
        }
    }
}

/// The prefixes that a part of the shard gets delete of its keys what all of the
/// prefixes delete.
pub proof fn law_build_split_deletes_the_same(
    prefixes: Seq<Seq<u8>>,
    start: Seq<u8>,
    end: Seq<u8>,
    k: Seq<u8>,
)
    requires
        lex_le(start, k),
        lex_lt(k, end),
    ensures
        covered(split_prefixes(prefixes, start, end), k) <==> covered(prefixes, k),
{
    let pred = |p: Seq<u8>| (lex_le(start, p) && lex_lt(p, end)) || p.is_prefix_of(start);
    let part = split_prefixes(prefixes, start, end);
    if covered(part, k) {
        let i = choose|i: int| 0 <= i < part.len() && (#[trigger] part[i]).is_prefix_of(k);
        prefixes.lemma_filter_contains_rev(pred, part[i]);
        lemma_covered_contains(prefixes, part[i], k);
    }
    if covered(prefixes, k) {
        let i = choose|i: int| 0 <= i < prefixes.len() && (#[trigger] prefixes[i]).is_prefix_of(k);
        let p = prefixes[i];
        lemma_prefix_le(p, k);
        lemma_le_transitive(p, k, end);
        lemma_not_lt(p, start);
        if lex_lt(p, start) {
            lemma_between_begins(p, start, k);
        }
        assert(pred(p));
        broadcast use vstd::seq_lib::group_filter_ensures;

        assert(part.contains(p));
        lemma_covered_contains(part, p, k);
    }
}

/// One of the ranges holds `k`.
pub open spec fn in_ranges(ranges: Seq<(Seq<u8>, Seq<u8>)>, k: Seq<u8>) -> bool {
    exists|i: int|
        0 <= i < ranges.len() && lex_le((#[trigger] ranges[i]).0, k) && lex_lt(k, ranges[i].1)
}

/// A prefix from `i` on, with its end, holds `k`.
pub open spec fn deleted_from(d: Deletion, i: int, k: Seq<u8>) -> bool {
    exists|j: int|
        i <= j < d.prefixes.len() && lex_le(#[trigger] d.prefixes[j], k) && lex_lt(k, d.nexts[j])
}

proof fn lemma_complement(
    d: Deletion,
    i: nat,
    start: Seq<u8>,
    outer_start: Seq<u8>,
    outer_end: Seq<u8>,
    k: Seq<u8>,
)
    requires
        d.matched(),
        keys_sorted(d.prefixes),
        keys_sorted(d.nexts),
        i <= d.prefixes.len(),
        lex_le(outer_start, start),
        forall|j: int|
            i <= j < d.nexts.len() && !lex_le(d.nexts[j], outer_start) ==> lex_le(
                start,
                #[trigger] d.nexts[j],
            ),
        lex_le(outer_start, k),
        lex_lt(k, outer_end),
    ensures
        in_ranges(complement(d, i, start, outer_start, outer_end), k) <==> lex_le(start, k)
            && !deleted_from(d, i as int, k),
    decreases d.prefixes.len() - i,
{
    let c = complement(d, i, start, outer_start, outer_end);
    if i >= d.prefixes.len() {
        if lex_lt(start, outer_end) {
            assert(c[0] == (start, outer_end));
        } else if lex_le(start, k) {
            lemma_le_transitive(start, k, outer_end);
        }
    } else {
        let p = d.prefixes[i as int];
        let next = d.nexts[i as int];
        if lex_le(next, outer_start) {
            lemma_complement(d, i + 1, start, outer_start, outer_end, k);
            lemma_le_transitive(next, outer_start, k);
            lemma_not_lt(k, next);
            assert(deleted_from(d, i as int, k) == deleted_from(d, i as int + 1, k));
        } else if lex_le(outer_end, p) {
            assert(!deleted_from(d, i as int, k)) by {
                assert forall|j: int| i <= j < d.prefixes.len() implies !lex_le(
                    #[trigger] d.prefixes[j],
                    k,
                ) by {
                    if j > i {
                        lemma_le_transitive(outer_end, p, d.prefixes[j]);
                    }
                    lemma_le_transitive(k, outer_end, d.prefixes[j]);
                    lemma_not_lt(k, d.prefixes[j]);
                }
            }
            if lex_lt(start, outer_end) {
                assert(c[0] == (start, outer_end));
            } else if lex_le(start, k) {
                lemma_le_transitive(start, k, outer_end);
            }
        } else {
            let rest = complement(d, i + 1, next, outer_start, outer_end);
            lemma_not_lt(next, outer_start);
            assert forall|j: int| i + 1 <= j < d.nexts.len() && !lex_le(
                d.nexts[j],
                outer_start,
            ) implies lex_le(next, #[trigger] d.nexts[j]) by {
            }
            lemma_complement(d, i + 1, next, outer_start, outer_end, k);
            lemma_not_lt(k, next);
            lemma_not_lt(k, p);
            assert(lex_le(start, next));
            let first: Seq<(Seq<u8>, Seq<u8>)> = if lex_lt(start, p) {
                seq![(start, p)]
            } else {
                Seq::empty()
            };
            assert(c == first + rest);
            assert(in_ranges(c, k) <==> in_ranges(first, k) || in_ranges(rest, k)) by {
                if in_ranges(first, k) {
                    assert(c[0] == first[0]);
                }
                if in_ranges(rest, k) {
                    let j = choose|j: int|
                        0 <= j < rest.len() && lex_le((#[trigger] rest[j]).0, k) && lex_lt(
                            k,
                            rest[j].1,
                        );
                    assert(c[first.len() + j] == rest[j]);
                }
                if in_ranges(c, k) {
                    let j = choose|j: int|
                        0 <= j < c.len() && lex_le((#[trigger] c[j]).0, k) && lex_lt(k, c[j].1);
                    if j < first.len() {
                        assert(c[j] == first[j]);
                    } else {
                        assert(c[j] == rest[j - first.len()]);
                    }
                }
            }
            assert(in_ranges(first, k) <==> lex_le(start, k) && lex_lt(k, p)) by {
                if lex_le(start, k) && lex_lt(k, p) {
                    lemma_le_transitive(start, k, p);
                    assert(first[0] == (start, p));
                }
            }
            if lex_lt(k, p) {
                assert(!deleted_from(d, i as int, k)) by {
                    assert forall|j: int| i <= j < d.prefixes.len() implies !lex_le(
                        #[trigger] d.prefixes[j],
                        k,
                    ) by {
                        if j > i {
                            lemma_le_transitive(k, p, d.prefixes[j]);
                        }
                        lemma_not_lt(k, d.prefixes[j]);
                    }
                }
                assert(lex_le(next, k) ==> !lex_lt(k, p) || lex_lt(next, p)) by {
                    if lex_le(next, k) {
                        lemma_le_transitive(next, k, p);
                    }
                }
                if lex_le(next, k) {
                    lemma_le_transitive(start, next, k);
                }
            } else if lex_lt(k, next) {
                assert(lex_le(d.prefixes[i as int], k));
                assert(deleted_from(d, i as int, k));
            } else {
                lemma_le_transitive(start, next, k);
                assert(deleted_from(d, i as int, k) == deleted_from(d, i as int + 1, k));
            }
        }
    }
}

/// The complementary ranges hold exactly the keys of the outer range that no
/// prefix deletes, where no prefix is made of bytes 255 alone.
pub proof fn law_complement_is_what_is_left(
    d: Deletion,
    outer_start: Seq<u8>,
    outer_end: Seq<u8>,
    k: Seq<u8>,
)
    requires
        d.fresh(),
        keys_sorted(d.prefixes),
        antichain(d.prefixes),
        forall|i: int| 0 <= i < d.prefixes.len() ==> !all_max(#[trigger] d.prefixes[i]),
        lex_le(outer_start, k),
        lex_lt(k, outer_end),
    ensures
        in_ranges(complement(d, 0, outer_start, outer_start, outer_end), k) <==> !deleted_from(
            d,
            0,
            k,
        ),
{
    assert forall|i: int, j: int| 0 <= i < j < d.nexts.len() implies lex_le(
        #[trigger] d.nexts[i],
        #[trigger] d.nexts[j],
    ) by {
        let p = d.prefixes[i];
        let q = d.prefixes[j];
        assert(d.prefixes.contains(p) && d.prefixes.contains(q));
        assert(p != q);
        assert(lex_lt(p, q));
        lemma_prefix_next_monotone(p, q);
    }
    assert forall|j: int| 0 <= j < d.nexts.len() && !lex_le(d.nexts[j], outer_start) implies lex_le(
        outer_start,
        #[trigger] d.nexts[j],
    ) by {
        lemma_lt_total(d.nexts[j], outer_start);
    }
    lemma_complement(d, 0, outer_start, outer_start, outer_end, k);
}

proof fn lemma_prefix_next_monotone(p: Seq<u8>, q: Seq<u8>)
    requires
        lex_lt(p, q),
        !p.is_prefix_of(q),
        !all_max(q),
    ensures
        lex_le(prefix_next(p), prefix_next(q)),
{
    lemma_prefix_next_greater(q);
    if lex_le(prefix_next(p), q) {
        lemma_le_transitive(prefix_next(p), q, prefix_next(q));
    } else {
        lemma_not_lt(q, prefix_next(p));
        lemma_inside_begins_next(p, q);
        lemma_prefix_next_bounds(q, prefix_next(p));
    }
}

proof fn lemma_inside_begins_next(p: Seq<u8>, q: Seq<u8>)
    requires
        lex_lt(p, q),
        lex_lt(q, prefix_next(p)),
        !p.is_prefix_of(q),
    ensures
        q.is_prefix_of(prefix_next(p)),
    decreases p.len(),
{
    if all_max(p) {
        lemma_after_all_max(p, q);
    } else if p.last() != 255 {
        lemma_prefix_next_exact(p, q);
    } else {
        let head = p.drop_last();
        let i = choose|i: int| 0 <= i < p.len() && p[i] != 255;
        assert(head[i] != 255);
        let n = prefix_next(head);
        assert(prefix_next(p) == n.push(0));
        assert(head.is_prefix_of(p));
        lemma_prefix_le(head, p);
        lemma_le_transitive(head, p, q);
        if head.is_prefix_of(q) {
            let rest = q.skip(head.len() as int);
            assert(q =~= head + rest);
            assert(p =~= head + seq![255u8]);
            lemma_lt_common_prefix(head, seq![255u8], rest);
            assert(rest[0] == 255);
            assert(p =~= q.subrange(0, p.len() as int));
            assert(false);
        }
        lemma_not_lt(q, n);
        if lex_lt(q, n) {
            lemma_inside_begins_next(head, q);
            assert(n.is_prefix_of(n.push(0)));
            lemma_prefix_transitive(q, n, n.push(0));
        } else {
            assert(n.is_prefix_of(n.push(0)));
            lemma_between_begins(n, q, n.push(0));
            if q.len() > n.len() {
                let rest = q.skip(n.len() as int);
                assert(q =~= n + rest);
                assert(n.push(0) =~= n + seq![0u8]);
                lemma_lt_common_prefix(n, rest, seq![0u8]);
                assert(!lex_lt(rest.drop_first(), seq![0u8].drop_first()));
                assert(false);
            }
            assert(n =~= q.subrange(0, n.len() as int));
            assert(q =~= n.push(0).subrange(0, q.len() as int));
        }
    }
}

proof fn lemma_after_all_max(p: Seq<u8>, q: Seq<u8>)
    requires
        all_max(p),
        lex_lt(p, q),
    ensures
        p.is_prefix_of(q),
    decreases p.len(),
{
    if p.len() > 0 {
        assert(p[0] == 255);
        assert(q[0] == 255);
        assert(all_max(p.drop_first()));
        lemma_after_all_max(p.drop_first(), q.drop_first());
        assert(p =~= q.subrange(0, p.len() as int)) by {
            assert forall|i: int| 0 <= i < p.len() implies p[i] == q[i] by {
                if i > 0 {
                    assert(p.drop_first()[i - 1] == q.drop_first().subrange(
                        0,
                        p.drop_first().len() as int,
                    )[i - 1]);
                }
            }
        }
    } else {
        assert(p =~= q.subrange(0, 0));
    }
}

proof fn lemma_prefix_next_of_tail(head: Seq<u8>, tail: Seq<u8>)
    requires
        !all_max(tail),
    ensures
        prefix_next(head + tail) == head + prefix_next(tail),
    decreases tail.len(),
{
    let k = head + tail;
    let i = choose|i: int| 0 <= i < tail.len() && tail[i] != 255;
    assert(k[head.len() + i] != 255);
    assert(k.last() == tail.last());
    if tail.last() != 255 {
        assert(prefix_next(k) =~= head + prefix_next(tail));
    } else {
        let rest = tail.drop_last();
        assert(rest[i] != 255);
        assert(k.drop_last() =~= head + rest);
        lemma_prefix_next_of_tail(head, rest);
        assert(prefix_next(k) =~= head + prefix_next(tail));
    }
}

/// Rewriting the keyspace prefix keeps the ends right where what follows the
/// keyspace prefix is not made of bytes 255 alone.
pub proof fn law_rewrite_keeps_ends(prefixes: Seq<Seq<u8>>, prefix: Seq<u8>)
    requires
        forall|i: int|
            0 <= i < prefixes.len() ==> (#[trigger] prefixes[i]).len() >= prefix.len()
                && !all_max(prefixes[i].skip(prefix.len() as int)),
    ensures
        nexts_of(prefixes).map_values(|k: Seq<u8>| rewritten(prefix, k)) == nexts_of(
            prefixes.map_values(|k: Seq<u8>| rewritten(prefix, k)),
        ),
{
    let f = |k: Seq<u8>| rewritten(prefix, k);
    assert forall|i: int| 0 <= i < prefixes.len() implies rewritten(
        prefix,
        prefix_next(prefixes[i]),
    ) == prefix_next(rewritten(prefix, #[trigger] prefixes[i])) by {
        let p = prefixes[i];
        let head = p.take(prefix.len() as int);
        let tail = p.skip(prefix.len() as int);
        assert(p =~= head + tail);
        lemma_prefix_next_of_tail(head, tail);
        lemma_prefix_next_of_tail(prefix, tail);
        assert(rewritten(prefix, prefix_next(p)) =~= prefix + prefix_next(tail));
    }
    assert(nexts_of(prefixes).map_values(f) =~= nexts_of(prefixes.map_values(f)));
}

/// Every length fits the two bytes that it gets.
pub open spec fn all_short(prefixes: Seq<Seq<u8>>) -> bool {
    forall|i: int| 0 <= i < prefixes.len() ==> (#[trigger] prefixes[i]).len() < 0x1_0000
}

/// What is unmarshalled can be marshalled.
pub proof fn lemma_decoded_short(data: Seq<u8>)
    requires
        decoded(data) is Some,
    ensures
        all_short(decoded(data)->0),
    decreases data.len(),
{
    if data.len() > 0 {
        let end = 2 + le_value(data.take(2));
        lemma_decoded_short(data.skip(end as int));
        lemma_le_value_two(data.take(2));
        let rest = decoded(data.skip(end as int))->0;
        let all = seq![data.subrange(2, end as int)] + rest;
        assert forall|i: int| 0 <= i < all.len() implies (#[trigger] all[i]).len() < 0x1_0000 by {
            if i > 0 {
                assert(all[i] == rest[i - 1]);
            }
        }
    }
}

proof fn lemma_le_value_two(s: Seq<u8>)
    requires
        s.len() == 2,
    ensures
        le_value(s) < 0x1_0000,
{
    reveal_with_fuel(le_value, 3);
}

/// Prefixes that can be marshalled still can once they are merged.
pub proof fn lemma_merge_all_short(a: Seq<Seq<u8>>, b: Seq<Seq<u8>>)
    requires
        all_short(a),
        all_short(b),
    ensures
        all_short(merge_all(a, b)),
    decreases b.len(),
{
    if b.len() > 0 {
        lemma_merge_all_short(a, b.drop_last());
        let s = merge_all(a, b.drop_last());
        let p = b.last();
        assert(p.len() < 0x1_0000) by {
            assert(b[b.len() - 1] == p);
        }
        lemma_merge_one_short(s, p);
    }
}

/// Prefixes that can be marshalled still can with one more.
pub proof fn lemma_merge_one_short(s: Seq<Seq<u8>>, p: Seq<u8>)
    requires
        all_short(s),
        p.len() < 0x1_0000,
    ensures
        all_short(merge_one(s, p)),
{
    if !covered(s, p) {
        let k = kept(s, p).push(p);
        let r = key_sort(k);
        assert forall|i: int| 0 <= i < r.len() implies (#[trigger] r[i]).len() < 0x1_0000 by {
            assert(r.contains(r[i]));
            lemma_sort_contains(k, r[i]);
            let j = choose|j: int| 0 <= j < k.len() && k[j] == r[i];
            if j < kept(s, p).len() {
                assert(kept(s, p).contains(k[j]));
                lemma_kept_contains(s, p, k[j]);
                let l = choose|l: int| 0 <= l < s.len() && s[l] == k[j];
                assert(s[l].len() < 0x1_0000);
            }
        }
    }
}

/// A part of prefixes that can be marshalled can be, too.
pub proof fn lemma_split_short(prefixes: Seq<Seq<u8>>, start: Seq<u8>, end: Seq<u8>)
    requires
        all_short(prefixes),
    ensures
        all_short(split_prefixes(prefixes, start, end)),
{
    let pred = |p: Seq<u8>| (lex_le(start, p) && lex_lt(p, end)) || p.is_prefix_of(start);
    let r = split_prefixes(prefixes, start, end);
    assert forall|i: int| 0 <= i < r.len() implies (#[trigger] r[i]).len() < 0x1_0000 by {
        assert(r.contains(r[i]));
        prefixes.lemma_filter_contains_rev(pred, r[i]);
        let l = choose|l: int| 0 <= l < prefixes.len() && prefixes[l] == r[i];
        assert(prefixes[l].len() < 0x1_0000);
    }
}

} // verus!

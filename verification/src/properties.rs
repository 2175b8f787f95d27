//! Properties of a shard: byte strings by key.
use bytes::Bytes;
use vstd::prelude::*;

use crate::buf::content;
use crate::key::bytes_eq;
use crate::pb;
use crate::text::str_eq;

verus! {

// Properties that are kept with the shard and written with its flushes.

/// Raft term of the last write.
pub const TERM_KEY: &'static str = "term";

/// Id of the last ingestion.
pub const INGEST_ID_KEY: &'static str = "_ingest_id";

/// Whether keys outside the shard are to be removed.
pub const TRIM_OVER_BOUND: &'static str = "_trim_over_bound";

/// Value that says that keys outside the shard are to be removed.
pub const TRIM_OVER_BOUND_ENABLE: [u8; 1] = [1];

/// Value that says that no keys outside the shard are to be removed.
pub const TRIM_OVER_BOUND_DISABLE: [u8; 0] = [];

/// Whether all levels are to be compacted.
pub const MANUAL_MAJOR_COMPACTION: &'static str = "_manual_major_compaction";

/// Value that asks for a compaction of all levels.
pub const MANUAL_MAJOR_COMPACTION_ENABLE: [u8; 1] = [1];

/// Value that asks for a compaction of all columnar levels.
pub const MANUAL_MAJOR_COMPACTION_ENABLE_COLUMNAR: [u8; 1] = [2];

/// Value that asks for no compaction.
pub const MANUAL_MAJOR_COMPACTION_DISABLE: [u8; 0] = [];

/// Transaction files that the shard refers to.
pub const TXN_FILE_REF: &'static str = "_txn_file_ref";

// Properties that are kept with the metadata and left out of flushes.

/// Prefixes whose keys are to be deleted.
pub const DEL_PREFIXES_KEY: &'static str = "_del_prefixes";

/// Encrypted key of the files.
pub const ENCRYPTION_KEY: &'static str = "_encryption";

/// Where the files are to be kept.
pub const STORAGE_CLASS_KEY: &'static str = "_storage_class";

/// The keys of the properties that a merge changes differ.
pub proof fn lemma_keys_differ()
    ensures
        DEL_PREFIXES_KEY@ != ENCRYPTION_KEY@,
        DEL_PREFIXES_KEY@ != STORAGE_CLASS_KEY@,
        ENCRYPTION_KEY@ != STORAGE_CLASS_KEY@,
{
    reveal_strlit("_del_prefixes");
    reveal_strlit("_encryption");
    reveal_strlit("_storage_class");
    assert(DEL_PREFIXES_KEY@.len() == 13);
    assert(ENCRYPTION_KEY@.len() == 11);
    assert(STORAGE_CLASS_KEY@.len() == 14);
}

/// The keys of the properties that are recovered with a parent are none of those
/// that ask for something else.
pub proof fn lemma_recovered_keys_differ()
    ensures
        TXN_FILE_REF@ != DEL_PREFIXES_KEY@,
        TXN_FILE_REF@ != TRIM_OVER_BOUND@,
        TXN_FILE_REF@ != MANUAL_MAJOR_COMPACTION@,
        TXN_FILE_REF@ != STORAGE_CLASS_KEY@,
        DEL_PREFIXES_KEY@ != MANUAL_MAJOR_COMPACTION@,
{
    reveal_strlit("_txn_file_ref");
    reveal_strlit("_del_prefixes");
    reveal_strlit("_trim_over_bound");
    reveal_strlit("_manual_major_compaction");
    reveal_strlit("_storage_class");
    assert(TXN_FILE_REF@[1] == 't');
    assert(TXN_FILE_REF@[2] == 'x');
    assert(DEL_PREFIXES_KEY@[1] == 'd');
    assert(TRIM_OVER_BOUND@[2] == 'r');
    assert(MANUAL_MAJOR_COMPACTION@[1] == 'm');
    assert(STORAGE_CLASS_KEY@[1] == 's');
}

/// The keys of the properties that ask for something differ.
pub proof fn lemma_asking_keys_differ()
    ensures
        STORAGE_CLASS_KEY@ != TRIM_OVER_BOUND@,
        STORAGE_CLASS_KEY@ != MANUAL_MAJOR_COMPACTION@,
        DEL_PREFIXES_KEY@ != TRIM_OVER_BOUND@,
{
    reveal_strlit("_storage_class");
    reveal_strlit("_trim_over_bound");
    reveal_strlit("_manual_major_compaction");
    reveal_strlit("_del_prefixes");
    assert(STORAGE_CLASS_KEY@[1] == 's');
    assert(TRIM_OVER_BOUND@[1] == 't');
    assert(MANUAL_MAJOR_COMPACTION@[1] == 'm');
    assert(DEL_PREFIXES_KEY@[1] == 'd');
}

/// The property is written with the first flush.
pub open spec fn in_initial_flush(key: Seq<char>) -> bool {
    ||| key == INGEST_ID_KEY@
    ||| key == TRIM_OVER_BOUND@
    ||| key == MANUAL_MAJOR_COMPACTION@
    ||| key == TXN_FILE_REF@
}

/// Whether the property is written with the first flush.
///
/// The term is not: it has to stay consistent with the data sequence.
pub fn is_property_need_initial_flush(key: &str) -> (res: bool)
    ensures
        res == in_initial_flush(key@),
{
    str_eq(key, INGEST_ID_KEY) || str_eq(key, TRIM_OVER_BOUND) || str_eq(
        key,
        MANUAL_MAJOR_COMPACTION,
    ) || str_eq(key, TXN_FILE_REF)
}

/// Whether the property is written with a flush.
pub fn is_property_need_flush(key: &str) -> (res: bool)
    ensures
        res == (key@ == TERM_KEY@ || in_initial_flush(key@)),
{
    str_eq(key, TERM_KEY) || is_property_need_initial_flush(key)
}

/// Whether the property has to be persisted before the data sequence advances.
pub fn is_property_must_persist(key: &str) -> (res: bool)
    ensures
        res == (key@ == TXN_FILE_REF@),
{
    str_eq(key, TXN_FILE_REF)
}

/// What has to be persisted first is written with every flush.
pub proof fn law_must_persist_is_flushed(key: Seq<char>)
    requires
        key == TXN_FILE_REF@,
    ensures
        in_initial_flush(key),
{
}

/// A map of properties with those of a message set, the first `n` of them.
pub open spec fn set_first(
    m: Map<Seq<char>, Seq<u8>>,
    keys: Seq<String>,
    values: Seq<Bytes>,
    n: nat,
) -> Map<Seq<char>, Seq<u8>>
    decreases n,
{
    if n == 0 {
        m
    } else {
        set_first(m, keys, values, (n - 1) as nat).insert(keys[n - 1]@, content(values[n - 1]))
    }
}

/// A map of properties with those of a message set.
pub open spec fn set_all(m: Map<Seq<char>, Seq<u8>>, props: pb::Properties) -> Map<Seq<char>, Seq<u8>> {
    set_first(m, props.keys@, props.values@, props.keys@.len())
}

/// Every key of the message has a value.
pub open spec fn props_valid(props: pb::Properties) -> bool {
    props.keys@.len() <= props.values@.len()
}

/// The properties that an optional message sets.
pub open spec fn set_opt(
    m: Map<Seq<char>, Seq<u8>>,
    props: Option<pb::Properties>,
) -> Map<Seq<char>, Seq<u8>> {
    match props {
        Some(p) => set_all(m, p),
        None => m,
    }
}

/// An optional message has a value for every key.
pub open spec fn opt_props_valid(props: Option<pb::Properties>) -> bool {
    props matches Some(p) ==> props_valid(p)
}

/// `m` and, where it has nothing, `other`.
pub open spec fn complemented(
    m: Map<Seq<char>, Seq<u8>>,
    other: Map<Seq<char>, Seq<u8>>,
) -> Map<Seq<char>, Seq<u8>> {
    other.union_prefer_right(m)
}

/// The value of the first occurrence of the key.
pub open spec fn first_value(key: Seq<char>, props: pb::Properties) -> Option<Bytes> {
    if exists|i: int| 0 <= i < props.keys@.len() && (#[trigger] props.keys@[i])@ == key {
        Some(props.values@[first_index(key, props.keys@)])
    } else {
        None
    }
}

/// The value of the first occurrence of the key in an optional message.
pub open spec fn opt_value(key: Seq<char>, props: Option<pb::Properties>) -> Option<Bytes> {
    match props {
        Some(p) => first_value(key, p),
        None => None,
    }
}

/// Where the key occurs first.
pub open spec fn first_index(key: Seq<char>, keys: Seq<String>) -> int {
    choose|i: int|
        0 <= i < keys.len() && (#[trigger] keys[i])@ == key && forall|j: int|
            0 <= j < i ==> (#[trigger] keys[j])@ != key
}

/// `res` is the value of the key, if it has one.
pub open spec fn value_of(m: Map<Seq<char>, Seq<u8>>, key: Seq<char>, res: Option<Bytes>) -> bool {
    match res {
        Some(b) => m.contains_key(key) && m[key] == content(b),
        None => !m.contains_key(key),
    }
}

/// Properties of a shard.
pub struct Properties {
    m: Vec<(String, Bytes)>,
}

/// The pairs as a map.
pub closed spec fn pairs_map(m: Seq<(String, Bytes)>) -> Map<Seq<char>, Seq<u8>>
    decreases m.len(),
{
    if m.len() == 0 {
        Map::empty()
    } else {
        pairs_map(m.drop_last()).insert(m.last().0@, content(m.last().1))
    }
}

spec fn distinct(m: Seq<(String, Bytes)>) -> bool {
    forall|i: int, j: int|
        0 <= i < j < m.len() ==> (#[trigger] m[i]).0@ != (#[trigger] m[j]).0@
}

proof fn lemma_pairs(m: Seq<(String, Bytes)>)
    requires
        distinct(m),
    ensures
        forall|i: int|
            0 <= i < m.len() ==> pairs_map(m).contains_key((#[trigger] m[i]).0@) && pairs_map(
                m,
            )[m[i].0@] == content(m[i].1),
        forall|k: Seq<char>| #[trigger]
            pairs_map(m).contains_key(k) ==> exists|i: int|
                0 <= i < m.len() && (#[trigger] m[i]).0@ == k,
    decreases m.len(),
{
    if m.len() > 0 {
        let head = m.drop_last();
        assert(distinct(head)) by {
            assert forall|i: int, j: int| 0 <= i < j < head.len() implies (#[trigger] head[i]).0@
                != (#[trigger] head[j]).0@ by {
                assert(head[i] == m[i] && head[j] == m[j]);
            }
        }
        lemma_pairs(head);
        assert forall|i: int| 0 <= i < m.len() implies pairs_map(m).contains_key(
            (#[trigger] m[i]).0@,
        ) && pairs_map(m)[m[i].0@] == content(m[i].1) by {
            if i < m.len() - 1 {
                assert(head[i] == m[i]);
                assert(m[i].0@ != m[m.len() - 1].0@);
            }
        }
        assert forall|k: Seq<char>| #[trigger] pairs_map(m).contains_key(k) implies exists|i: int|
            0 <= i < m.len() && (#[trigger] m[i]).0@ == k by {
            if k == m.last().0@ {
                assert(m[m.len() - 1].0@ == k);
            } else {
                assert(pairs_map(head).contains_key(k));
                let i = choose|i: int| 0 <= i < head.len() && (#[trigger] head[i]).0@ == k;
                assert(m[i].0@ == k);
            }
        }
    }
}

impl View for Properties {
    type V = Map<Seq<char>, Seq<u8>>;

    closed spec fn view(&self) -> Map<Seq<char>, Seq<u8>> {
        pairs_map(self.m@)
    }
}

impl Clone for Properties {
    fn clone(&self) -> (res: Self)
        ensures
            res@ == self@,
    {
        proof {
            use_type_invariant(self);
        }
        let mut m: Vec<(String, Bytes)> = Vec::new();
        let mut i: usize = 0;
        while i < self.m.len()
            invariant
                i <= self.m@.len(),
                m@ == self.m@.take(i as int),
            decreases self.m@.len() - i,
        {
            m.push((self.m[i].0.clone(), self.m[i].1.clone()));
            assert(m@ =~= self.m@.take(i + 1));
            i = i + 1;
        }
        assert(m@ =~= self.m@);
        Properties { m }
    }
}

impl Default for Properties {
    fn default() -> (res: Self)
        ensures
            res@ == Map::<Seq<char>, Seq<u8>>::empty(),
    {
        Self::new()
    }
}

impl Properties {
    #[verifier::type_invariant]
    spec fn wf(self) -> bool {
        distinct(self.m@)
    }

    /// No property.
    pub fn new() -> (res: Self)
        ensures
            res@ == Map::<Seq<char>, Seq<u8>>::empty(),
    {
        Properties { m: Vec::new() }
    }

    fn position(&self, key: &str) -> (res: Option<usize>)
        ensures
            match res {
                Some(i) => i < self.m@.len() && self.m@[i as int].0@ == key@,
                None => forall|i: int| 0 <= i < self.m@.len() ==> (#[trigger] self.m@[i]).0@ != key@,
            },
    {
        let mut i: usize = 0;
        while i < self.m.len()
            invariant
                i <= self.m@.len(),
                forall|j: int| 0 <= j < i ==> (#[trigger] self.m@[j]).0@ != key@,
            decreases self.m@.len() - i,
        {
            if str_eq(self.m[i].0.as_str(), key) {
                return Some(i);
            }
            i = i + 1;
        }
        None
    }

    /// Sets a property.
    pub fn set(&mut self, key: &str, val: &[u8])
        ensures
            final(self)@ == old(self)@.insert(key@, val@),
    {
        self.set_bytes(key, Bytes::copy_from_slice(val));
    }

    /// Sets a property.
    pub fn set_bytes(&mut self, key: &str, val: Bytes)
        ensures
            final(self)@ == old(self)@.insert(key@, content(val)),
    {
        proof {
            use_type_invariant(&*self);
            lemma_pairs(self.m@);
        }
        let mut m: Vec<(String, Bytes)> = Vec::new();
        std::mem::swap(&mut m, &mut self.m);
        let ghost before = m@;
        let mut i: usize = 0;
        while i < m.len() && !str_eq(m[i].0.as_str(), key)
            invariant
                i <= m@.len(),
                m@ == before,
                forall|j: int| 0 <= j < i ==> (#[trigger] m@[j]).0@ != key@,
            decreases m@.len() - i,
        {
            i = i + 1;
        }
        if i < m.len() {
            m[i] = (key.to_owned(), val);
            proof {
                let after = m@;
                assert(distinct(after)) by {
                    assert forall|a: int, b: int| 0 <= a < b < after.len() implies (
                    #[trigger] after[a]).0@ != (#[trigger] after[b]).0@ by {
                        assert(before[a].0@ == after[a].0@);
                        assert(before[b].0@ == after[b].0@);
                    }
                }
                lemma_pairs(after);
                assert(pairs_map(after) =~= pairs_map(before).insert(key@, content(val))) by {
                    assert forall|k: Seq<char>| pairs_map(after).contains_key(k) implies pairs_map(
                        before,
                    ).insert(key@, content(val)).contains_key(k) by {
                        let a = choose|a: int| 0 <= a < after.len() && (#[trigger] after[a]).0@ == k;
                        assert(before[a].0@ == after[a].0@);
                    }
                    assert forall|k: Seq<char>| #[trigger]
                        pairs_map(before).insert(key@, content(val)).contains_key(k) implies pairs_map(
                        after,
                    ).contains_key(k) && pairs_map(after)[k] == pairs_map(before).insert(
                        key@,
                        content(val),
                    )[k] by {
                        if k == key@ {
                            assert(after[i as int].0@ == key@);
                        } else {
                            let a = choose|a: int|
                                0 <= a < before.len() && (#[trigger] before[a]).0@ == k;
                            assert(after[a] == before[a]);
                        }
                    }
                }
            }
        } else {
            m.push((key.to_owned(), val));
            proof {
                assert(m@.drop_last() =~= before);
            }
        }
        self.m = m;
    }

    /// The value of a property.
    pub fn get(&self, key: &str) -> (res: Option<Bytes>)
        ensures
            value_of(self@, key@, res),
    {
        proof {
            use_type_invariant(self);
            lemma_pairs(self.m@);
        }
        match self.position(key) {
            Some(i) => Some(self.m[i].1.clone()),
            None => None,
        }
    }

    /// The properties among the given keys.
    pub fn multi_get(&self, keys: &Vec<&str>) -> (res: Vec<(String, Bytes)>)
        ensures
            forall|i: int|
                0 <= i < res@.len() ==> self@.contains_key((#[trigger] res@[i]).0@)
                    && self@[res@[i].0@] == content(res@[i].1) && exists|j: int|
                    0 <= j < keys@.len() && (#[trigger] keys@[j])@ == res@[i].0@,
            forall|j: int|
                0 <= j < keys@.len() && self@.contains_key((#[trigger] keys@[j])@) ==> exists|i: int|
                    0 <= i < res@.len() && (#[trigger] res@[i]).0@ == keys@[j]@,
            forall|i: int, j: int|
                0 <= i < j < res@.len() ==> (#[trigger] res@[i]).0@ != (#[trigger] res@[j]).0@,
    {
        proof {
            use_type_invariant(self);
            lemma_pairs(self.m@);
        }
        let mut res: Vec<(String, Bytes)> = Vec::new();
        let ghost mut from: Seq<int> = Seq::empty();
        let mut i: usize = 0;
        while i < self.m.len()
            invariant
                i <= self.m@.len(),
                distinct(self.m@),
                from.len() == res@.len(),
                forall|a: int|
                    0 <= a < from.len() ==> 0 <= #[trigger] from[a] < i && res@[a]
                        == self.m@[from[a]] && exists|j: int|
                        0 <= j < keys@.len() && (#[trigger] keys@[j])@ == res@[a].0@,
                forall|a: int, b: int| 0 <= a < b < from.len() ==> from[a] < from[b],
                forall|b: int, j: int|
                    0 <= b < i && 0 <= j < keys@.len() && (#[trigger] self.m@[b]).0@ == (
                    #[trigger] keys@[j])@ ==> exists|a: int|
                        0 <= a < from.len() && #[trigger] from[a] == b,
            decreases self.m@.len() - i,
        {
            let mut wanted = false;
            let mut j: usize = 0;
            while j < keys.len()
                invariant
                    j <= keys@.len(),
                    i < self.m@.len(),
                    wanted == exists|b: int|
                        0 <= b < j && (#[trigger] keys@[b])@ == self.m@[i as int].0@,
                decreases keys@.len() - j,
            {
                if str_eq(keys[j], self.m[i].0.as_str()) {
                    assert(keys@[j as int]@ == self.m@[i as int].0@);
                    wanted = true;
                }
                j = j + 1;
            }
            if wanted {
                let ghost before = from;
                res.push((self.m[i].0.clone(), self.m[i].1.clone()));
                proof {
                    from = from.push(i as int);
                    assert(forall|a: int| 0 <= a < before.len() ==> from[a] == before[a]);
                    assert(from[before.len() as int] == i);
                    let b = choose|b: int|
                        0 <= b < keys@.len() && (#[trigger] keys@[b])@ == self.m@[i as int].0@;
                    assert(keys@[b]@ == res@[before.len() as int].0@);
                }
            }
            i = i + 1;
        }
        proof {
            assert forall|a: int| 0 <= a < res@.len() implies self@.contains_key(
                (#[trigger] res@[a]).0@,
            ) && self@[res@[a].0@] == content(res@[a].1) && exists|j: int|
                0 <= j < keys@.len() && (#[trigger] keys@[j])@ == res@[a].0@ by {
                assert(res@[a] == self.m@[from[a]]);
            }
            assert forall|j: int| 0 <= j < keys@.len() && self@.contains_key(
                (#[trigger] keys@[j])@,
            ) implies exists|a: int| 0 <= a < res@.len() && (#[trigger] res@[a]).0@ == keys@[j]@ by {
                let b = choose|b: int|
                    0 <= b < self.m@.len() && (#[trigger] self.m@[b]).0@ == keys@[j]@;
                let a = choose|a: int| 0 <= a < from.len() && #[trigger] from[a] == b;
                assert(res@[a].0@ == keys@[j]@);
            }
            assert forall|a: int, b: int| 0 <= a < b < res@.len() implies (#[trigger] res@[a]).0@
                != (#[trigger] res@[b]).0@ by {
                assert(res@[a] == self.m@[from[a]]);
                assert(res@[b] == self.m@[from[b]]);
            }
        }
        res
    }

    /// Removes a property and gives the value that it had.
    pub fn remove(&mut self, key: &str) -> (res: Option<Bytes>)
        ensures
            final(self)@ == old(self)@.remove(key@),
            value_of(old(self)@, key@, res),
    {
        proof {
            use_type_invariant(&*self);
            lemma_pairs(self.m@);
        }
        match self.position(key) {
            Some(i) => {
                let mut m: Vec<(String, Bytes)> = Vec::new();
                std::mem::swap(&mut m, &mut self.m);
                let ghost before = m@;
                let pair = m.remove(i);
                proof {
                    let after = m@;
                    assert(forall|a: int|
                        0 <= a < after.len() ==> #[trigger] after[a] == before[if a < i {
                            a
                        } else {
                            a + 1
                        }]);
                    assert(distinct(after));
                    lemma_pairs(after);
                    assert(pairs_map(after) =~= pairs_map(before).remove(key@)) by {
                        assert forall|k: Seq<char>| pairs_map(after).contains_key(
                            k,
                        ) implies pairs_map(before).remove(key@).contains_key(k) by {
                            let a = choose|a: int|
                                0 <= a < after.len() && (#[trigger] after[a]).0@ == k;
                            let b = if a < i {
                                a
                            } else {
                                a + 1
                            };
                            assert(before[b].0@ == k);
                            assert(b < i ==> before[b].0@ != before[i as int].0@);
                            assert(i < b ==> before[i as int].0@ != before[b].0@);
                        }
                        assert forall|k: Seq<char>| #[trigger]
                            pairs_map(before).remove(key@).contains_key(k) implies pairs_map(
                            after,
                        ).contains_key(k) && pairs_map(after)[k] == pairs_map(before).remove(
                            key@,
                        )[k] by {
                            let b = choose|b: int|
                                0 <= b < before.len() && (#[trigger] before[b]).0@ == k;
                            let a = if b < i {
                                b
                            } else {
                                b - 1
                            };
                            assert(after[a] == before[b]);
                        }
                    }
                }
                self.m = m;
                Some(pair.1)
            },
            None => {
                assert(self@.remove(key@) =~= self@);
                None
            },
        }
    }

    /// The properties as a message.
    pub fn to_pb(&self, shard_id: u64) -> (res: pb::Properties)
        ensures
            res.shard_id == shard_id,
            res.keys@.len() == res.values@.len(),
            forall|i: int, j: int|
                0 <= i < j < res.keys@.len() ==> (#[trigger] res.keys@[i])@ != (
                #[trigger] res.keys@[j])@,
            set_all(Map::empty(), res) == self@,
    {
        proof {
            use_type_invariant(self);
        }
        let mut props = pb::Properties::default();
        props.shard_id = shard_id;
        let mut i: usize = 0;
        assert(self.m@.take(0) =~= Seq::empty());
        while i < self.m.len()
            invariant
                i <= self.m@.len(),
                props.shard_id == shard_id,
                props.keys@.len() == i,
                props.values@.len() == i,
                forall|j: int|
                    0 <= j < i ==> (#[trigger] props.keys@[j])@ == self.m@[j].0@
                        && props.values@[j] == self.m@[j].1,
                set_first(Map::empty(), props.keys@, props.values@, i as nat) == pairs_map(
                    self.m@.take(i as int),
                ),
            decreases self.m@.len() - i,
        {
            let ghost keys = props.keys@;
            let ghost values = props.values@;
            props.keys.push(self.m[i].0.clone());
            props.values.push(self.m[i].1.clone());
            proof {
                lemma_set_first_of_more(Map::empty(), keys, values, props.keys@, props.values@, i as nat);
                assert(self.m@.take(i + 1).drop_last() =~= self.m@.take(i as int));
            }
            i = i + 1;
        }
        assert(self.m@.take(i as int) =~= self.m@);
        assert forall|a: int, b: int| 0 <= a < b < props.keys@.len() implies (
        #[trigger] props.keys@[a])@ != (#[trigger] props.keys@[b])@ by {
            assert(self.m@[a].0@ != self.m@[b].0@);
        }
        props
    }

    /// The properties with those of a message set.
    pub fn apply_pb(self, props: &pb::Properties) -> (res: Self)
        requires
            props_valid(*props),
        ensures
            res@ == set_all(self@, *props),
    {
        let mut res = self;
        res.apply(props);
        res
    }

    /// Sets the properties of a message.
    pub fn apply(&mut self, props: &pb::Properties)
        requires
            props_valid(*props),
        ensures
            final(self)@ == set_all(old(self)@, *props),
    {
        let ghost before = self@;
        let mut i: usize = 0;
        while i < props.keys.len()
            invariant
                i <= props.keys@.len(),
                props_valid(*props),
                self@ == set_first(before, props.keys@, props.values@, i as nat),
            decreases props.keys@.len() - i,
        {
            self.set_bytes(props.keys[i].as_str(), props.values[i].clone());
            i = i + 1;
        }
    }

    /// Takes from `props` what is not set.
    pub fn complement_merge(&mut self, props: Self)
        ensures
            final(self)@ == complemented(old(self)@, props@),
    {
        let ghost before = self@;
        proof {
            use_type_invariant(&props);
            lemma_pairs(props.m@);
        }
        let mut i: usize = 0;
        assert(props.m@.take(0) =~= Seq::empty());
        assert(self@ =~= complemented(before, pairs_map(props.m@.take(0))));
        while i < props.m.len()
            invariant
                i <= props.m@.len(),
                distinct(props.m@),
                self@ == complemented(before, pairs_map(props.m@.take(i as int))),
            decreases props.m@.len() - i,
        {
            let ghost now = self@;
            let key = props.m[i].0.as_str();
            proof {
                let some = props.m@.take(i as int);
                assert(props.m@.take(i + 1).drop_last() =~= some);
                assert(distinct(some));
                lemma_pairs(some);
                assert(!pairs_map(some).contains_key(key@)) by {
                    if pairs_map(some).contains_key(key@) {
                        let j = choose|j: int| 0 <= j < some.len() && (#[trigger] some[j]).0@ == key@;
                        assert(props.m@[j].0@ != props.m@[i as int].0@);
                    }
                }
            }
            if self.position(key).is_none() {
                proof {
                    use_type_invariant(&*self);
                    lemma_pairs(self.m@);
                    assert(!now.contains_key(key@));
                    assert(!before.contains_key(key@));
                }
                self.set_bytes(key, props.m[i].1.clone());
            } else {
                proof {
                    use_type_invariant(&*self);
                    lemma_pairs(self.m@);
                    assert(self@.contains_key(key@));
                    assert(before.contains_key(key@));
                }
            }
            assert(self@ =~= complemented(before, pairs_map(props.m@.take(i + 1))));
            i = i + 1;
        }
        assert(props.m@.take(i as int) =~= props.m@);
    }
}

proof fn lemma_set_first_of_more(
    m: Map<Seq<char>, Seq<u8>>,
    keys: Seq<String>,
    values: Seq<Bytes>,
    more_keys: Seq<String>,
    more_values: Seq<Bytes>,
    n: nat,
)
    requires
        n <= keys.len() <= more_keys.len(),
        n <= values.len() <= more_values.len(),
        forall|i: int| 0 <= i < n ==> keys[i] == #[trigger] more_keys[i],
        forall|i: int| 0 <= i < n ==> values[i] == #[trigger] more_values[i],
    ensures
        set_first(m, keys, values, n) == set_first(m, more_keys, more_values, n),
    decreases n,
{
    if n > 0 {
        lemma_set_first_of_more(m, keys, values, more_keys, more_values, (n - 1) as nat);
        assert(keys[n - 1] == more_keys[n - 1]);
        assert(values[n - 1] == more_values[n - 1]);
    }
}

/// The value of the first occurrence of the key in a message.
pub fn get_shard_property(key: &str, props: &pb::Properties) -> (res: Option<Bytes>)
    requires
        props_valid(*props),
    ensures
        res == first_value(key@, *props),
{
    let mut i: usize = 0;
    while i < props.keys.len()
        invariant
            i <= props.keys@.len(),
            props_valid(*props),
            forall|j: int| 0 <= j < i ==> (#[trigger] props.keys@[j])@ != key@,
        decreases props.keys@.len() - i,
    {
        if str_eq(key, props.keys[i].as_str()) {
            assert(props.keys@[i as int]@ == key@);
            assert(first_index(key@, props.keys@) == i) by {
                let f = first_index(key@, props.keys@);
                assert(!(f < i) || props.keys@[f]@ != key@);
                assert(!(i < f) || props.keys@[i as int]@ != key@);
            }
            return Some(props.values[i].clone());
        }
        i = i + 1;
    }
    None
}

/// The value of the first occurrence of the key in an optional message.
pub fn get_opt_property(key: &str, props: &Option<pb::Properties>) -> (res: Option<Bytes>)
    requires
        opt_props_valid(*props),
    ensures
        res == opt_value(key@, *props),
{
    match props {
        Some(p) => get_shard_property(key, p),
        None => None,
    }
}

/// Sets the value of the first occurrence of the key in a message, or appends
/// the key.
pub fn set_shard_property(key: &str, props: &mut pb::Properties, val: Bytes)
    requires
        old(props).keys@.len() == old(props).values@.len(),
    ensures
        final(props).shard_id == old(props).shard_id,
        first_value(key@, *old(props)) is Some ==> {
            &&& final(props).keys@ == old(props).keys@
            &&& final(props).values@ == old(props).values@.update(
                first_index(key@, old(props).keys@),
                val,
            )
        },
        first_value(key@, *old(props)) is None ==> {
            &&& final(props).keys@.len() == old(props).keys@.len() + 1
            &&& final(props).keys@.drop_last() == old(props).keys@
            &&& final(props).keys@.last()@ == key@
            &&& final(props).values@ == old(props).values@.push(val)
        },
{
    let ghost before = *props;
    let mut i: usize = 0;
    while i < props.keys.len()
        invariant
            *props == before,
            before == *old(props),
            i <= props.keys@.len(),
            props.keys@.len() == props.values@.len(),
            forall|j: int| 0 <= j < i ==> (#[trigger] props.keys@[j])@ != key@,
        decreases props.keys@.len() - i,
    {
        if str_eq(key, props.keys[i].as_str()) {
            assert(before.keys@[i as int]@ == key@);
            assert(first_index(key@, before.keys@) == i) by {
                let f = first_index(key@, before.keys@);
                assert(!(f < i) || before.keys@[f]@ != key@);
                assert(!(i < f) || before.keys@[i as int]@ != key@);
            }
            props.values[i] = val;
            return;
        }
        i = i + 1;
    }
    props.keys.push(key.to_owned());
    props.values.push(val);
    assert(props.keys@.drop_last() =~= before.keys@);
}

/// The ingest id of a legacy ingestion.
pub fn is_legacy_ingest(ingest_files: &pb::IngestFiles) -> (res: Option<Bytes>)
    requires
        props_valid(ingest_files.properties),
    ensures
        res == first_value(INGEST_ID_KEY@, ingest_files.properties),
{
    get_shard_property(INGEST_ID_KEY, &ingest_files.properties)
}

/// Whether two properties have the same value.
pub fn same_value(a: &Bytes, b: &Bytes) -> (res: bool)
    ensures
        res == (content(*a) == content(*b)),
{
    bytes_eq(a, b)
}

/// Properties that are complemented keep their values, and take those of the others for keys
/// that they lack.
pub proof fn law_complement_fills_the_gaps(
    m: Map<Seq<char>, Seq<u8>>,
    other: Map<Seq<char>, Seq<u8>>,
    key: Seq<char>,
)
    ensures
        ({
            let res = complemented(m, other);
            &&& res.contains_key(key) <==> m.contains_key(key) || other.contains_key(key)
            &&& m.contains_key(key) ==> res[key] == m[key]
            &&& !m.contains_key(key) && other.contains_key(key) ==> res[key] == other[key]
        }),
{
}

/// There is a value if and only if the property is set; it is what was set last.
pub proof fn law_value_is_what_was_set(
    m: Map<Seq<char>, Seq<u8>>,
    key: Seq<char>,
    value: Seq<u8>,
    res: Option<Bytes>,
)
    ensures
        value_of(m.insert(key, value), key, res) <==> res is Some && content(res->0) == value,
        value_of(m.remove(key), key, res) <==> res is None,
{
}

} // verus!

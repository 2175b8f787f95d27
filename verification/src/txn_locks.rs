//! Transaction files whose locks are still held.
use std::collections::HashMap;

use bytes::Bytes;
use vstd::prelude::*;

use crate::buf::content;
use crate::pb;

verus! {

broadcast use vstd::std_specs::hash::group_hash_axioms;

/// The locks that transaction files hold.
#[verifier::ext_equal]
pub struct Locks {
    /// Log index of the last change.
    pub seq: u64,
    /// For each start timestamp, what the locks begin with.
    pub prefixes: Map<u64, Bytes>,
}

/// A reference holds locks.
pub open spec fn is_locked(r: pb::TxnFileRef) -> bool {
    content(r.lock_val_prefix).len() > 0
}

/// The locks of a list of references.
pub open spec fn locks_of(refs: Seq<pb::TxnFileRef>) -> Map<u64, Bytes>
    decreases refs.len(),
{
    if refs.len() == 0 {
        Map::empty()
    } else {
        let rest = locks_of(refs.drop_last());
        if is_locked(refs.last()) {
            rest.insert(refs.last().start_ts, refs.last().lock_val_prefix)
        } else {
            rest
        }
    }
}

/// The locks that transaction files hold.
pub struct TxnFileLocks {
    seq: u64,
    locks: HashMap<u64, Bytes>,
}

impl View for TxnFileLocks {
    type V = Locks;

    closed spec fn view(&self) -> Locks {
        Locks { seq: self.seq, prefixes: self.locks@ }
    }
}

impl Default for TxnFileLocks {
    fn default() -> (res: Self)
        ensures
            res@ == (Locks { seq: 0, prefixes: Map::empty() }),
    {
        let res = TxnFileLocks { seq: 0, locks: HashMap::new() };
        assert(res@ =~= Locks { seq: 0, prefixes: Map::empty() });
        res
    }
}

impl TxnFileLocks {
    /// A copy.
    pub fn copy(&self) -> (res: Self)
        ensures
            res@ == self@,
    {
        TxnFileLocks { seq: self.seq, locks: self.locks.clone() }
    }

    /// The locks of a list of references.
    pub fn from_refs(seq: u64, refs: &Vec<pb::TxnFileRef>) -> (res: Self)
        ensures
            res@ == (Locks { seq, prefixes: locks_of(refs@) }),
    {
        let mut locks: HashMap<u64, Bytes> = HashMap::new();
        let mut i: usize = 0;
        assert(refs@.take(0) =~= Seq::empty());
        while i < refs.len()
            invariant
                i <= refs@.len(),
                locks@ == locks_of(refs@.take(i as int)),
            decreases refs@.len() - i,
        {
            assert(refs@.take(i + 1).drop_last() =~= refs@.take(i as int));
            let prefix: &[u8] = &refs[i].lock_val_prefix;
            if prefix.len() > 0 {
                locks.insert(refs[i].start_ts, refs[i].lock_val_prefix.clone());
            }
            i = i + 1;
        }
        assert(refs@.take(i as int) =~= refs@);
        TxnFileLocks { seq, locks }
    }

    /// Log index of the last change.
    pub fn seq(&self) -> (res: u64)
        ensures
            res == self@.seq,
    {
        self.seq
    }

    /// Adds the locks of a transaction.
    pub fn insert(&mut self, seq: u64, start_ts: u64, prefix: Bytes)
        ensures
            final(self)@ == (Locks { seq, prefixes: old(self)@.prefixes.insert(start_ts, prefix) }),
    {
        self.seq = seq;
        self.locks.insert(start_ts, prefix);
    }

    /// Removes the locks of a transaction; whether it had any.
    pub fn remove(&mut self, seq: u64, start_ts: u64) -> (res: bool)
        ensures
            final(self)@ == (Locks { seq, prefixes: old(self)@.prefixes.remove(start_ts) }),
            res == old(self)@.prefixes.contains_key(start_ts),
    {
        self.seq = seq;
        self.locks.remove(&start_ts).is_some()
    }

    /// How many transactions hold locks.
    pub fn len(&self) -> (res: usize)
        ensures
            res == self@.prefixes.len(),
    {
        self.locks.len()
    }

    /// Whether no transaction holds locks.
    pub fn is_empty(&self) -> (res: bool)
        ensures
            res == (self@.prefixes =~= Map::<u64, Bytes>::empty()),
    {
        let res = self.locks.len() == 0;
        proof {
            let m = self@.prefixes;
            assert(m.dom().finite());
            if m.len() == 0 {
                assert(m.dom() =~= Set::empty()) by {
                    assert(m.dom().len() == 0);
                }
                assert(m =~= Map::<u64, Bytes>::empty());
            }
        }
        res
    }
}

} // verus!

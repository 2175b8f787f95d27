//! Conflicts of a transaction file with what is written.
use vstd::prelude::*;
use vstd::slice::slice_to_vec;

use crate::bound::InnerKey;
use crate::buf::content;
use crate::key::{bytes_eq, bytes_lt, lemma_le_transitive, lex_le, lex_lt};
use crate::keyspace::{inner_end_of, inner_of};
use crate::range::{Range, ShardRange};
use crate::read::get::{Ask, CfTables, ValueTable};
use crate::read::rows::{is_place_of, Row, TableIterator};
use crate::read::value::{UserMeta, Value};
use crate::shard::data::TxnFile;
use crate::WRITE_CF;

verus! {

/// What is known of a transaction file.
pub struct TxnKeys {
    /// Start of the transaction.
    pub start_ts: u64,
    /// Size of the file.
    pub size: usize,
    /// Inner keys, in order.
    pub keys: Vec<Vec<u8>>,
}

impl TxnKeys {
    /// The keys are in order.
    pub open spec fn wf(self) -> bool {
        forall|i: int, j: int|
            0 <= i < j < self.keys@.len() ==> lex_lt(
                (#[trigger] self.keys@[i])@,
                (#[trigger] self.keys@[j])@,
            )
    }

    /// The file holds the key.
    pub open spec fn has(self, key: Seq<u8>) -> bool {
        exists|i: int| 0 <= i < self.keys@.len() && (#[trigger] self.keys@[i])@ == key
    }

    /// The first inner key of the shard that the file can hold.
    pub open spec fn first_in(self, range: Range) -> Seq<u8> {
        if lex_lt(self.keys@[0]@, inner_of(range.start)) {
            inner_of(range.start)
        } else {
            self.keys@[0]@
        }
    }

    /// The inner key of the shard behind all that the file can hold.
    pub open spec fn end_in(self, range: Range) -> Seq<u8> {
        if lex_lt(self.keys@.last()@, inner_end_of(range.end)) {
            self.keys@.last()@.push(0)
        } else {
            inner_end_of(range.end)
        }
    }

    /// Whether the file holds the key.
    pub fn contains(&self, key: &[u8]) -> (res: bool)
        ensures
            res == self.has(key@),
    {
        let mut i: usize = 0;
        while i < self.keys.len()
            invariant
                i <= self.keys@.len(),
                forall|j: int| 0 <= j < i ==> (#[trigger] self.keys@[j])@ != key@,
            decreases self.keys@.len() - i,
        {
            if bytes_eq(self.keys[i].as_slice(), key) {
                assert(self.keys@[i as int]@ == key@);
                return true;
            }
            i = i + 1;
        }
        false
    }

    /// The inner key behind all that the file can hold of the shard.
    pub fn get_upper_bound(&self, range: &ShardRange) -> (res: Vec<u8>)
        requires
            self.keys@.len() > 0,
        ensures
            res@ == self.end_in(range@),
    {
        let biggest = &self.keys[self.keys.len() - 1];
        let end = range.inner_end();
        if bytes_lt(biggest.as_slice(), end.deref()) {
            let mut res = slice_to_vec(biggest.as_slice());
            res.push(0);
            res
        } else {
            slice_to_vec(end.deref())
        }
    }

    /// Goes to the first inner key of the shard that the file can hold.
    pub fn seek_txn_file<I: TableIterator>(&self, range: &ShardRange, iter: &mut I)
        requires
            self.keys@.len() > 0,
            old(iter).walk().wf(),
        ensures
            final(iter).walk() == old(iter).walk().moved(final(iter).walk().at),
            is_place_of(
                old(iter).walk().rows,
                old(iter).walk().reversed,
                self.first_in(range@),
                final(iter).walk().at,
            ),
    {
        let start = range.inner_start();
        if bytes_lt(self.keys[0].as_slice(), start.deref()) {
            iter.seek(start.deref());
        } else {
            iter.seek(self.keys[0].as_slice());
        }
    }
}

/// A key is before what one more byte makes of it, and after it comes that.
proof fn lemma_behind(a: Seq<u8>, b: Seq<u8>)
    ensures
        lex_le(a, b) ==> lex_lt(a, b.push(0)),
        lex_lt(b, b.push(0)),
    decreases b.len(),
{
    assert(lex_lt(b, b.push(0))) by {
        crate::key::lemma_lt_common_prefix(b, Seq::empty(), seq![0u8]);
        assert(b + Seq::<u8>::empty() =~= b);
        assert(b + seq![0u8] =~= b.push(0));
    }
    if lex_le(a, b) {
        lemma_le_transitive(a, b, b.push(0));
    }
}

/// Between the first key that a file can hold of a shard and the key behind all lies
/// every key of the file that is in the shard.
pub proof fn law_keys_of_the_file_are_looked_at(txn: TxnKeys, range: Range, key: Seq<u8>)
    requires
        txn.wf(),
        txn.has(key),
        lex_le(inner_of(range.start), key),
        lex_lt(key, inner_end_of(range.end)),
    ensures
        lex_le(txn.first_in(range), key),
        lex_lt(key, txn.end_in(range)),
{
    let i = choose|i: int| 0 <= i < txn.keys@.len() && (#[trigger] txn.keys@[i])@ == key;
    let last = txn.keys@.len() - 1;
    assert(lex_le(txn.keys@[0]@, key)) by {
        if i > 0 {
            assert(lex_lt(txn.keys@[0]@, txn.keys@[i]@));
        }
    }
    assert(lex_le(key, txn.keys@[last]@)) by {
        if i < last {
            assert(lex_lt(txn.keys@[i]@, txn.keys@[last]@));
        }
    }
    lemma_behind(key, txn.keys@[last]@);
}

/// The newest version of a row conflicts: it is no deletion, the file holds the key and,
/// where a time is given, it was committed after it.
pub open spec fn conflicts(txn: TxnKeys, row: Row, since: Option<u64>) -> bool {
    let val = row.versions[0];
    &&& !val.deleted
    &&& txn.has(row.key)
    &&& since is Some ==> val.user_meta is Some && val.user_meta->0.commit_ts > since->0
}

/// The row lies between the keys.
pub open spec fn between(row: Row, start: Seq<u8>, end: Seq<u8>) -> bool {
    !lex_lt(row.key, start) && lex_lt(row.key, end)
}

/// The first row between the keys that conflicts.
pub open spec fn is_first_conflict(
    rows: Seq<Row>,
    txn: TxnKeys,
    range: Range,
    since: Option<u64>,
    i: int,
) -> bool {
    &&& 0 <= i < rows.len()
    &&& between(rows[i], txn.first_in(range), txn.end_in(range))
    &&& conflicts(txn, rows[i], since)
    &&& forall|j: int|
        0 <= j < i && between((#[trigger] rows[j]), txn.first_in(range), txn.end_in(range))
            ==> !conflicts(txn, rows[j], since)
}

/// The first version that conflicts with the file, and its key.
fn first_conflict<I: TableIterator>(
    txn: &TxnKeys,
    range: &ShardRange,
    iter: &mut I,
    since: Option<u64>,
) -> (res: Option<(Vec<u8>, Value)>)
    requires
        txn.wf(),
        range@.valid(),
        old(iter).walk().wf(),
        !old(iter).walk().reversed,
    ensures
        match res {
            Some((key, val)) => txn.keys@.len() > 0 && exists|i: int|
                {
                    &&& #[trigger] is_first_conflict(old(iter).walk().rows, *txn, range@, since, i)
                    &&& key@ == range@.prefix() + old(iter).walk().rows[i].key
                    &&& val == old(iter).walk().rows[i].versions[0]
                },
            None => txn.keys@.len() == 0 || forall|i: int|
                !#[trigger] is_first_conflict(old(iter).walk().rows, *txn, range@, since, i),
        },
{
    if txn.keys.len() == 0 {
        return None;
    }
    let ghost rows = iter.walk().rows;
    let ghost start = txn.first_in(range@);
    let ghost end = txn.end_in(range@);
    txn.seek_txn_file(range, iter);
    let upper_bound = txn.get_upper_bound(range);
    while iter.valid()
        invariant
            iter.walk().wf(),
            iter.walk().rows == rows,
            rows == old(iter).walk().rows,
            !iter.walk().reversed,
            iter.walk().nth == 0,
            range@.valid(),
            start == txn.first_in(range@),
            end == txn.end_in(range@),
            upper_bound@ == end,
            txn.keys@.len() > 0,
            forall|j: int|
                0 <= j < iter.walk().at && between((#[trigger] rows[j]), start, end)
                    ==> !conflicts(*txn, rows[j], since),
            forall|j: int|
                iter.walk().at <= j < rows.len() ==> !lex_lt((#[trigger] rows[j]).key, start),
        decreases rows.len() - iter.walk().at,
    {
        let ghost at = iter.walk().at;
        if !bytes_lt(iter.key(), upper_bound.as_slice()) {
            proof {
                assert forall|i: int| !#[trigger]
                    is_first_conflict(rows, *txn, range@, since, i) by {
                    if 0 <= i < rows.len() && i > at && between(rows[i], start, end) {
                        assert(crate::read::rows::before(rows[at].key, rows[i].key, false));
                        crate::key::lemma_lt_transitive(rows[at].key, rows[i].key, end);
                    }
                }
            }
            return None;
        }
        let val = iter.value();
        let late = match since {
            Some(ts) => match val.user_meta {
                Some(m) => m.commit_ts > ts,
                None => false,
            },
            None => true,
        };
        if !val.deleted && late && txn.contains(iter.key()) {
            let key = range.to_outer_key(InnerKey::from_inner_buf(iter.key()));
            proof {
                assert(is_first_conflict(rows, *txn, range@, since, at));
            }
            return Some((key, val));
        }
        iter.next();
    }
    None
}

/// The lock that conflicts with a file that is not small, in a walk over the locks that
/// leaves out those of its transaction.
pub fn conflict_lock_by_locks<I: TableIterator>(
    txn: &TxnKeys,
    range: &ShardRange,
    lock_iter: &mut I,
) -> (res: Option<(Vec<u8>, Value)>)
    requires
        txn.wf(),
        range@.valid(),
        old(lock_iter).walk().wf(),
        !old(lock_iter).walk().reversed,
    ensures
        match res {
            Some((key, val)) => txn.keys@.len() > 0 && exists|i: int|
                {
                    &&& #[trigger] is_first_conflict(old(lock_iter).walk().rows, *txn, range@, None, i)
                    &&& key@ == range@.prefix() + old(lock_iter).walk().rows[i].key
                    &&& val == old(lock_iter).walk().rows[i].versions[0]
                },
            None => txn.keys@.len() == 0 || forall|i: int|
                !#[trigger] is_first_conflict(old(lock_iter).walk().rows, *txn, range@, None, i),
        },
{
    first_conflict(txn, range, lock_iter, None)
}

/// The first write of a key of the file that was committed after the transaction
/// began.
pub fn get_txn_file_conflict_write<I: TableIterator>(
    txn: &TxnKeys,
    range: &ShardRange,
    write_iter: &mut I,
) -> (res: Option<(Vec<u8>, UserMeta)>)
    requires
        txn.wf(),
        range@.valid(),
        old(write_iter).walk().wf(),
        !old(write_iter).walk().reversed,
    ensures
        match res {
            Some((key, meta)) => txn.keys@.len() > 0 && exists|i: int|
                {
                    &&& #[trigger] is_first_conflict(old(write_iter).walk().rows, *txn, range@, Some(txn.start_ts), i)
                    &&& key@ == range@.prefix() + old(write_iter).walk().rows[i].key
                    &&& Some(meta) == old(write_iter).walk().rows[i].versions[0].user_meta
                },
            None => txn.keys@.len() == 0 || forall|i: int|
                !#[trigger] is_first_conflict(
                    old(write_iter).walk().rows,
                    *txn,
                    range@,
                    Some(txn.start_ts),
                    i,
                ),
        },
{
    match first_conflict(txn, range, write_iter, Some(txn.start_ts)) {
        Some((key, val)) => match val.user_meta {
            Some(meta) => Some((key, meta)),
            None => None,
        },
        None => None,
    }
}

/// Whether a conflicting lock is looked for by the keys of the file: it is smaller than
/// the tables of locks.
pub fn looks_up_keys(txn_size: usize, lock_cf_size: u64) -> (res: bool)
    ensures
        res == (txn_size < lock_cf_size),
{
    (txn_size as u64) < lock_cf_size
}

/// The key has a lock at the version.
pub open spec fn locked<T: ValueTable>(
    tables: CfTables<T>,
    others: Seq<(u64, T)>,
    key: Seq<u8>,
    version: u64,
) -> bool {
    let val = tables.found(others, Ask { key, version }).0;
    val is Some && !val->0.deleted
}

/// The lock of the first key of the file that has one. `others` are the lock files of
/// other transactions.
pub fn conflict_lock_by_keys<T: ValueTable>(
    txn: &TxnKeys,
    range: &ShardRange,
    tables: &CfTables<T>,
    others: &Vec<(u64, T)>,
    version: u64,
) -> (res: Option<(Vec<u8>, Value)>)
    requires
        tables.wf(),
        range@.valid(),
    ensures
        match res {
            Some((key, val)) => exists|i: int|
                {
                    &&& 0 <= i < txn.keys@.len()
                    &&& locked(*tables, others@, (#[trigger] txn.keys@[i])@, version)
                    &&& forall|j: int|
                        0 <= j < i ==> !locked(
                            *tables,
                            others@,
                            (#[trigger] txn.keys@[j])@,
                            version,
                        )
                    &&& key@ == range@.prefix() + txn.keys@[i]@
                    &&& Some(val) == tables.found(
                        others@,
                        Ask { key: txn.keys@[i]@, version },
                    ).0
                },
            None => forall|i: int|
                0 <= i < txn.keys@.len() ==> !locked(
                    *tables,
                    others@,
                    (#[trigger] txn.keys@[i])@,
                    version,
                ),
        },
{
    let mut i: usize = 0;
    while i < txn.keys.len()
        invariant
            i <= txn.keys@.len(),
            tables.wf(),
            range@.valid(),
            forall|j: int|
                0 <= j < i ==> !locked(*tables, others@, (#[trigger] txn.keys@[j])@, version),
        decreases txn.keys@.len() - i,
    {
        let key = InnerKey::from_inner_buf(txn.keys[i].as_slice());
        let item = tables.get_value(key, version, others);
        if let Some(val) = item.val {
            if !val.deleted {
                assert(locked(*tables, others@, txn.keys@[i as int]@, version));
                return Some((range.to_outer_key(key), val));
            }
        }
        i = i + 1;
    }
    None
}

/// The lock that conflicts with the file, and its key. A file that is smaller than the
/// tables of locks is looked up key by key; for another one the locks are walked over.
///
/// `others` are the lock files of other transactions, and `lock_iter` walks over the locks
/// without those of the transaction of the file.
pub fn get_txn_file_conflict_lock<T: ValueTable, I: TableIterator>(
    txn: &TxnKeys,
    range: &ShardRange,
    lock_cf_size: u64,
    tables: &CfTables<T>,
    others: &Vec<(u64, T)>,
    version: u64,
    lock_iter: &mut I,
) -> (res: Option<(Vec<u8>, Value)>)
    requires
        txn.wf(),
        tables.wf(),
        range@.valid(),
        old(lock_iter).walk().wf(),
        !old(lock_iter).walk().reversed,
    ensures
        txn.size < lock_cf_size ==> match res {
            Some((key, val)) => exists|i: int|
                {
                    &&& 0 <= i < txn.keys@.len()
                    &&& locked(*tables, others@, (#[trigger] txn.keys@[i])@, version)
                    &&& key@ == range@.prefix() + txn.keys@[i]@
                    &&& Some(val) == tables.found(
                        others@,
                        Ask { key: txn.keys@[i]@, version },
                    ).0
                    &&& forall|j: int|
                        0 <= j < i ==> !locked(
                            *tables,
                            others@,
                            (#[trigger] txn.keys@[j])@,
                            version,
                        )
                },
            None => forall|i: int|
                0 <= i < txn.keys@.len() ==> !locked(
                    *tables,
                    others@,
                    (#[trigger] txn.keys@[i])@,
                    version,
                ),
        },
        txn.size >= lock_cf_size ==> match res {
            Some((key, val)) => txn.keys@.len() > 0 && exists|i: int|
                {
                    &&& #[trigger] is_first_conflict(
                        old(lock_iter).walk().rows,
                        *txn,
                        range@,
                        None,
                        i,
                    )
                    &&& key@ == range@.prefix() + old(lock_iter).walk().rows[i].key
                    &&& val == old(lock_iter).walk().rows[i].versions[0]
                },
            None => txn.keys@.len() == 0 || forall|i: int|
                !#[trigger] is_first_conflict(old(lock_iter).walk().rows, *txn, range@, None, i),
        },
{
    if txn.keys.len() == 0 {
        return None;
    }
    if looks_up_keys(txn.size, lock_cf_size) {
        conflict_lock_by_keys(txn, range, tables, others, version)
    } else {
        conflict_lock_by_locks(txn, range, lock_iter)
    }
}

/// A key has a value that is not empty.
pub open spec fn has_value<T: ValueTable>(tables: CfTables<T>, key: Seq<u8>, ts: u64) -> bool {
    let val = tables.found(Seq::empty(), Ask { key, version: ts }).0;
    val is Some && content(val->0.value).len() > 0
}

/// A key of the shard has a value already.
pub open spec fn exists_already<T: ValueTable>(
    tables: CfTables<T>,
    range: Range,
    key: Seq<u8>,
    ts: u64,
) -> bool {
    range.inner_bound().has(key) && has_value(tables, key, ts)
}

/// The first of the keys that must not exist, of those in the shard, that has a value.
pub fn check_txn_file_constraint<T: ValueTable>(
    keys: &Vec<Vec<u8>>,
    range: &ShardRange,
    tables: &CfTables<T>,
    read_ts: u64,
) -> (res: Option<Vec<u8>>)
    requires
        tables.wf(),
        tables.cf == WRITE_CF,
        range@.valid(),
    ensures
        match res {
            Some(key) => exists|i: int|
                {
                    &&& 0 <= i < keys@.len()
                    &&& exists_already(*tables, range@, (#[trigger] keys@[i])@, read_ts)
                    &&& forall|j: int|
                        0 <= j < i ==> !exists_already(
                            *tables,
                            range@,
                            (#[trigger] keys@[j])@,
                            read_ts,
                        )
                    &&& key@ == range@.prefix() + keys@[i]@
                },
            None => forall|i: int|
                0 <= i < keys@.len() ==> !exists_already(
                    *tables,
                    range@,
                    (#[trigger] keys@[i])@,
                    read_ts,
                ),
        },
{
    let none: Vec<(u64, T)> = Vec::new();
    assert(none@ =~= Seq::empty());
    let mut i: usize = 0;
    while i < keys.len()
        invariant
            i <= keys@.len(),
            tables.wf(),
            range@.valid(),
            none@ == Seq::<(u64, T)>::empty(),
            forall|j: int|
                0 <= j < i ==> !exists_already(*tables, range@, (#[trigger] keys@[j])@, read_ts),
        decreases keys@.len() - i,
    {
        let key = InnerKey::from_inner_buf(keys[i].as_slice());
        if range.inner_start().le(key) && key.lt(range.inner_end()) {
            let item = tables.get_value(key, read_ts, &none);
            if let Some(val) = item.val {
                let bytes: &[u8] = &val.value;
                if bytes.len() > 0 {
                    assert(exists_already(*tables, range@, keys@[i as int]@, read_ts));
                    return Some(range.to_outer_key(key));
                }
            }
        }
        i = i + 1;
    }
    None
}

/// The lock file of a transaction.
pub fn get_lock_txn_file(files: &Vec<TxnFile>, start_ts: u64) -> (res: Option<usize>)
    ensures
        match res {
            Some(i) => {
                &&& i < files@.len()
                &&& files@[i as int].start_ts == start_ts
                &&& forall|j: int| 0 <= j < i ==> (#[trigger] files@[j]).start_ts != start_ts
            },
            None => forall|j: int|
                0 <= j < files@.len() ==> (#[trigger] files@[j]).start_ts != start_ts,
        },
{
    let mut i: usize = 0;
    while i < files.len()
        invariant
            i <= files@.len(),
            forall|j: int| 0 <= j < i ==> (#[trigger] files@[j]).start_ts != start_ts,
        decreases files@.len() - i,
    {
        if files[i].start_ts == start_ts {
            return Some(i);
        }
        i = i + 1;
    }
    None
}

} // verus!

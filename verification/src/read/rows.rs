//! Walking over the rows of tables.
use vstd::prelude::*;

use crate::key::{bytes_lt, lex_lt};
use crate::read::value::Value;

verus! {

/// A key and its versions, the newest first.
#[verifier::ext_equal]
pub struct Row {
    /// Inner key.
    pub key: Seq<u8>,
    /// Its versions.
    pub versions: Seq<Value>,
}

/// `a` comes before `b`.
pub open spec fn before(a: Seq<u8>, b: Seq<u8>, reversed: bool) -> bool {
    if reversed {
        lex_lt(b, a)
    } else {
        lex_lt(a, b)
    }
}

/// Whether `a` comes before `b`.
pub fn key_before(a: &[u8], b: &[u8], reversed: bool) -> (res: bool)
    ensures
        res == before(a@, b@, reversed),
{
    if reversed {
        bytes_lt(b, a)
    } else {
        bytes_lt(a, b)
    }
}

/// The keys are in order and each has a version.
pub open spec fn rows_wf(rows: Seq<Row>, reversed: bool) -> bool {
    &&& forall|i: int, j: int|
        0 <= i < j < rows.len() ==> before(
            (#[trigger] rows[i]).key,
            (#[trigger] rows[j]).key,
            reversed,
        )
    &&& forall|i: int| 0 <= i < rows.len() ==> (#[trigger] rows[i]).versions.len() > 0
}

/// The first row that does not come before the key.
pub open spec fn is_place_of(rows: Seq<Row>, reversed: bool, key: Seq<u8>, place: int) -> bool {
    &&& 0 <= place <= rows.len()
    &&& forall|i: int| 0 <= i < place ==> before((#[trigger] rows[i]).key, key, reversed)
    &&& forall|i: int|
        place <= i < rows.len() ==> !before((#[trigger] rows[i]).key, key, reversed)
}

/// The first version from `from` on that is not newer than `ts`.
pub open spec fn version_at(versions: Seq<Value>, from: int, ts: u64) -> int
    decreases versions.len() - from,
{
    if from >= versions.len() || versions[from].version <= ts {
        from
    } else {
        version_at(versions, from + 1, ts)
    }
}

/// The version lies at or behind where the search begins.
pub proof fn lemma_version_at(versions: Seq<Value>, from: int, ts: u64)
    requires
        from <= versions.len(),
    ensures
        from <= version_at(versions, from, ts) <= versions.len(),
    decreases versions.len() - from,
{
    if from < versions.len() && versions[from].version > ts {
        lemma_version_at(versions, from + 1, ts);
    }
}

/// A walk over rows.
#[verifier::ext_equal]
pub struct Walk {
    /// The rows, in the order of the walk.
    pub rows: Seq<Row>,
    /// The walk is against the order of keys.
    pub reversed: bool,
    /// The row that the walk is at.
    pub at: int,
    /// The version of the row that the walk is at.
    pub nth: int,
}

impl Walk {
    /// The rows are well-formed, and the walk is at one of them or behind the last.
    pub open spec fn wf(self) -> bool {
        &&& rows_wf(self.rows, self.reversed)
        &&& 0 <= self.at <= self.rows.len()
        &&& 0 <= self.nth
        &&& self.valid() ==> self.nth < self.row().versions.len()
    }

    /// The walk is at a row.
    pub open spec fn valid(self) -> bool {
        self.at < self.rows.len()
    }

    /// The row that the walk is at.
    pub open spec fn row(self) -> Row {
        self.rows[self.at]
    }

    /// The walk at another row.
    pub open spec fn moved(self, at: int) -> Walk {
        Walk { at, nth: 0, ..self }
    }
}

/// Walks over rows, in order of keys or against it.
pub trait TableIterator {
    /// The walk.
    spec fn walk(&self) -> Walk;

    /// Whether the walk is at a row.
    fn valid(&self) -> (res: bool)
        requires
            self.walk().wf(),
        ensures
            res == self.walk().valid(),
    ;

    /// The key of the row.
    fn key(&self) -> (res: &[u8])
        requires
            self.walk().wf(),
            self.walk().valid(),
        ensures
            res@ == self.walk().row().key,
    ;

    /// The version of the row.
    fn value(&self) -> (res: Value)
        requires
            self.walk().wf(),
            self.walk().valid(),
        ensures
            res == self.walk().row().versions[self.walk().nth],
    ;

    /// Goes to the next row.
    fn next(&mut self)
        requires
            old(self).walk().wf(),
            old(self).walk().valid(),
        ensures
            final(self).walk() == old(self).walk().moved(old(self).walk().at + 1),
    ;

    /// Goes to the next version of the row, if there is one.
    fn next_version(&mut self) -> (res: bool)
        requires
            old(self).walk().wf(),
            old(self).walk().valid(),
        ensures
            res == (old(self).walk().nth + 1 < old(self).walk().row().versions.len()),
            final(self).walk() == (if res {
                (Walk { nth: old(self).walk().nth + 1, ..old(self).walk() })
            } else {
                old(self).walk()
            }),
    ;

    /// Goes to the first version of the row that is not newer than `ts`, from the
    /// current one on. It stays where it is if there is none.
    fn seek_to_version(&mut self, ts: u64) -> (res: bool)
        requires
            old(self).walk().wf(),
            old(self).walk().valid(),
        ensures
            ({
                let versions = old(self).walk().row().versions;
                let k = version_at(versions, old(self).walk().nth, ts);
                &&& res == (k < versions.len())
                &&& final(self).walk() == (if res {
                    (Walk { nth: k, ..old(self).walk() })
                } else {
                    old(self).walk()
                })
            }),
    ;

    /// Goes to the first row that does not come before the key.
    fn seek(&mut self, key: &[u8])
        requires
            old(self).walk().wf(),
        ensures
            final(self).walk() == old(self).walk().moved(final(self).walk().at),
            is_place_of(
                old(self).walk().rows,
                old(self).walk().reversed,
                key@,
                final(self).walk().at,
            ),
    ;

    /// Goes to the first row.
    fn rewind(&mut self)
        requires
            old(self).walk().wf(),
        ensures
            final(self).walk() == old(self).walk().moved(0),
    ;
}

/// Walks over rows that are in memory.
pub struct RowsIterator {
    keys: Vec<Vec<u8>>,
    versions: Vec<Vec<Value>>,
    row: usize,
    version: usize,
    reversed: bool,
}

/// The rows of keys and versions.
pub open spec fn rows_of(keys: Seq<Vec<u8>>, versions: Seq<Vec<Value>>) -> Seq<Row> {
    Seq::new(
        keys.len(),
        |i: int|
            Row {
                key: keys[i]@,
                versions: if i < versions.len() {
                    versions[i]@
                } else {
                    Seq::empty()
                },
            },
    )
}

impl RowsIterator {
    /// A walk over the rows, which are in the order of the walk.
    pub fn new(keys: Vec<Vec<u8>>, versions: Vec<Vec<Value>>, reversed: bool) -> (res: Self)
        requires
            keys@.len() == versions@.len(),
            rows_wf(rows_of(keys@, versions@), reversed),
        ensures
            res.walk() == (Walk { rows: rows_of(keys@, versions@), reversed, at: 0, nth: 0 }),
    {
        RowsIterator { keys, versions, row: 0, version: 0, reversed }
    }
}

impl TableIterator for RowsIterator {
    closed spec fn walk(&self) -> Walk {
        Walk {
            rows: rows_of(self.keys@, self.versions@),
            reversed: self.reversed,
            at: self.row as int,
            nth: self.version as int,
        }
    }

    fn valid(&self) -> (res: bool) {
        self.row < self.keys.len()
    }

    fn key(&self) -> (res: &[u8]) {
        self.keys[self.row].as_slice()
    }

    fn value(&self) -> (res: Value) {
        assert(self.walk().row().versions.len() > 0);
        self.versions[self.row][self.version].clone()
    }

    fn next(&mut self) {
        if self.row < self.keys.len() {
            self.row = self.row + 1;
            self.version = 0;
        }
    }

    fn next_version(&mut self) -> (res: bool) {
        assert(self.walk().row().versions.len() > 0);
        if self.version < self.versions[self.row].len() - 1 {
            self.version = self.version + 1;
            true
        } else {
            false
        }
    }

    fn seek_to_version(&mut self, ts: u64) -> (res: bool) {
        let ghost versions = self.walk().row().versions;
        assert(versions.len() > 0);
        let len = self.versions[self.row].len();
        let mut k = self.version;
        let ghost from = self.version as int;
        while k < len && self.versions[self.row][k].version > ts
            invariant
                k <= len,
                len == versions.len(),
                self.row < self.versions@.len(),
                versions == self.versions@[self.row as int]@,
                version_at(versions, k as int, ts) == version_at(versions, from, ts),
            decreases len - k,
        {
            k = k + 1;
        }
        if k < len {
            self.version = k;
            true
        } else {
            false
        }
    }

    fn seek(&mut self, key: &[u8]) {
        let ghost rows = self.walk().rows;
        let mut k: usize = 0;
        while k < self.keys.len() && key_before(self.keys[k].as_slice(), key, self.reversed)
            invariant
                k <= self.keys@.len(),
                rows == self.walk().rows,
                forall|i: int|
                    0 <= i < k ==> before((#[trigger] rows[i]).key, key@, self.reversed),
            decreases self.keys@.len() - k,
        {
            assert(rows[k as int].key == self.keys@[k as int]@);
            k = k + 1;
        }
        proof {
            assert forall|i: int| k <= i < rows.len() implies !before(
                (#[trigger] rows[i]).key,
                key@,
                self.reversed,
            ) by {
                assert(rows[k as int].key == self.keys@[k as int]@);
                if i > k {
                    assert(before(rows[k as int].key, rows[i].key, self.reversed));
                    lemma_before(rows[k as int].key, rows[i].key, key@, self.reversed);
                }
            }
        }
        self.row = k;
        self.version = 0;
    }

    fn rewind(&mut self) {
        self.row = 0;
        self.version = 0;
    }
}

/// What comes behind a row that does not come before a key does not either.
pub proof fn lemma_before(a: Seq<u8>, b: Seq<u8>, key: Seq<u8>, reversed: bool)
    requires
        before(a, b, reversed),
        !before(a, key, reversed),
    ensures
        !before(b, key, reversed),
{
    if before(b, key, reversed) {
        if reversed {
            crate::key::lemma_lt_transitive(key, b, a);
        } else {
            crate::key::lemma_lt_transitive(a, b, key);
        }
    }
}

} // verus!

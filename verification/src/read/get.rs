//! Reading single keys.
use vstd::prelude::*;

use crate::bound::{first_reaching, ordered, Bound, BoundedDataSet, DataBound, InnerKey};
use crate::file_meta::SnapVersion;
use crate::fingerprint::{farm_fingerprint, key_hash};
use crate::key::{bytes_eq, lemma_not_lt, lex_le, lex_lt};
use crate::keyspace::inner_of;
use crate::read::rows::{rows_of, rows_wf, version_at};
use crate::read::value::{AccessPath, Item, Value};
use crate::{CF_MANAGED, LOCK_CF, NUM_CFS};

verus! {

/// A table in which versions of keys are looked up.
pub trait ValueTable: BoundedDataSet {
    /// The newest version of the key that is not newer than the one asked for. The
    /// fingerprint of the key is known where bloom filters are asked.
    spec fn found(&self, key: Seq<u8>, version: u64, key_hash: Option<u64>) -> Option<Value>;

    /// The newest version of the key, if it is newer than the one asked for.
    spec fn found_newer(&self, key: Seq<u8>, version: u64, key_hash: Option<u64>) -> Option<Value>;

    /// Highest timestamp of the table.
    spec fn top_ts(&self) -> u64;

    /// Looks for a version that is not newer than the one asked for.
    fn get(&self, key: InnerKey<'_>, version: u64, key_hash: Option<u64>) -> (res: Option<Value>)
        ensures
            res == self.found(key@, version, key_hash),
    ;

    /// Looks for a version that is newer than the one asked for.
    fn get_newer(&self, key: InnerKey<'_>, version: u64, key_hash: Option<u64>) -> (res: Option<
        Value,
    >)
        ensures
            res == self.found_newer(key@, version, key_hash),
    ;

    /// Highest timestamp of the table.
    fn max_ts(&self) -> (res: u64)
        ensures
            res == self.top_ts(),
    ;
}

/// What is asked of each table.
#[verifier::ext_equal]
pub struct Ask {
    /// The inner key.
    pub key: Seq<u8>,
    /// The version.
    pub version: u64,
}

impl Ask {
    /// The fingerprint of the key.
    pub open spec fn hash(self) -> Option<u64> {
        Some(farm_fingerprint(self.key))
    }
}

/// What the lock files from `i` on hold that are not newer than the version.
pub open spec fn in_txn_files<T: ValueTable>(files: Seq<(u64, T)>, ask: Ask, i: int) -> Option<Value>
    decreases files.len() - i,
{
    if i >= files.len() {
        None
    } else if files[i].0 <= ask.version && files[i].1.found(ask.key, ask.version, None) is Some {
        files[i].1.found(ask.key, ask.version, None)
    } else {
        in_txn_files(files, ask, i + 1)
    }
}

/// What the memory tables from `i` on hold, and how many are looked at.
pub open spec fn in_mems<T: ValueTable>(mems: Seq<T>, ask: Ask, i: int) -> (Option<Value>, int)
    decreases mems.len() - i,
{
    if i >= mems.len() {
        (None, 0)
    } else {
        let v = mems[i].found(ask.key, ask.version, None);
        if v is Some {
            (v, 1)
        } else {
            let rest = in_mems(mems, ask, i + 1);
            (rest.0, rest.1 + 1)
        }
    }
}

/// What the tables of level 0 from `i` on hold, and how many are looked at. Those
/// whose keys do not reach to the key are not, where bounds are minded.
pub open spec fn in_l0s<T: ValueTable>(
    l0s: Seq<Option<T>>,
    ask: Ask,
    minded: bool,
    i: int,
) -> (Option<Value>, int)
    decreases l0s.len() - i,
{
    if i >= l0s.len() {
        (None, 0)
    } else {
        let rest = in_l0s(l0s, ask, minded, i + 1);
        match l0s[i] {
            Some(tbl) => if minded && !tbl.bound().has(ask.key) {
                rest
            } else {
                let v = tbl.found(ask.key, ask.version, ask.hash());
                if v is Some {
                    (v, 1)
                } else {
                    (rest.0, rest.1 + 1)
                }
            },
            None => rest,
        }
    }
}

/// The first of the tables from `i` on that reaches to the key.
pub open spec fn reaching<T: ValueTable>(tables: Seq<T>, key: Seq<u8>, i: int) -> int
    decreases tables.len() - i,
{
    if i >= tables.len() || lex_le(key, tables[i].bound().upper) {
        i
    } else {
        reaching(tables, key, i + 1)
    }
}

/// What a level holds.
pub open spec fn in_level<T: ValueTable>(tables: Seq<T>, ask: Ask) -> Option<Value> {
    let t = reaching(tables, ask.key, 0);
    if 0 <= t < tables.len() {
        tables[t].found(ask.key, ask.version, ask.hash())
    } else {
        None
    }
}

/// What the levels from `i` on hold, and how many are looked at.
pub open spec fn in_levels<T: ValueTable>(levels: Seq<Vec<T>>, ask: Ask, i: int) -> (
    Option<Value>,
    int,
)
    decreases levels.len() - i,
{
    if i >= levels.len() {
        (None, 0)
    } else {
        let v = in_level(levels[i]@, ask);
        if v is Some {
            (v, 1)
        } else {
            let rest = in_levels(levels, ask, i + 1);
            (rest.0, rest.1 + 1)
        }
    }
}

/// A count that stops at the highest number.
pub open spec fn capped(n: int) -> u8 {
    if n > 255 {
        255
    } else {
        n as u8
    }
}

/// Highest timestamp of the tables from `i` on.
pub open spec fn top_of<T: ValueTable>(tables: Seq<T>, i: int) -> u64
    decreases tables.len() - i,
{
    if i >= tables.len() {
        0
    } else if tables[i].top_ts() > top_of(tables, i + 1) {
        tables[i].top_ts()
    } else {
        top_of(tables, i + 1)
    }
}

/// The first newer version in the memory tables from `i` on.
pub open spec fn newer_in_mems<T: ValueTable>(mems: Seq<T>, ask: Ask, i: int) -> Option<Value>
    decreases mems.len() - i,
{
    if i >= mems.len() {
        None
    } else if mems[i].found_newer(ask.key, ask.version, None) is Some {
        mems[i].found_newer(ask.key, ask.version, None)
    } else {
        newer_in_mems(mems, ask, i + 1)
    }
}

/// The first newer version in the tables of level 0 from `i` on.
pub open spec fn newer_in_l0s<T: ValueTable>(l0s: Seq<Option<T>>, ask: Ask, i: int) -> Option<Value>
    decreases l0s.len() - i,
{
    if i >= l0s.len() {
        None
    } else if l0s[i] is Some && l0s[i]->0.found_newer(ask.key, ask.version, ask.hash()) is Some {
        l0s[i]->0.found_newer(ask.key, ask.version, ask.hash())
    } else {
        newer_in_l0s(l0s, ask, i + 1)
    }
}

/// The newer version in a level. A level that has nothing newer at all is not looked
/// at.
pub open spec fn newer_in_level<T: ValueTable>(tables: Seq<T>, ask: Ask) -> Option<Value> {
    let t = reaching(tables, ask.key, 0);
    if top_of(tables, 0) > ask.version && 0 <= t < tables.len() {
        tables[t].found_newer(ask.key, ask.version, ask.hash())
    } else {
        None
    }
}

/// The first newer version in the levels from `i` on.
pub open spec fn newer_in_levels<T: ValueTable>(levels: Seq<Vec<T>>, ask: Ask, i: int) -> Option<
    Value,
>
    decreases levels.len() - i,
{
    if i >= levels.len() {
        None
    } else if newer_in_level(levels[i]@, ask) is Some {
        newer_in_level(levels[i]@, ask)
    } else {
        newer_in_levels(levels, ask, i + 1)
    }
}

/// The tables of one column family, the newest first.
pub struct CfTables<T: ValueTable> {
    /// Column family.
    pub cf: usize,
    /// Lock files, with their versions.
    pub lock_txn_files: Vec<(u64, T)>,
    /// Memory tables.
    pub mem_tbls: Vec<T>,
    /// Versions of the memory tables.
    pub mem_versions: Vec<SnapVersion>,
    /// Tables of level 0, where they have data of the column family.
    pub l0_tbls: Vec<Option<T>>,
    /// Tables of the lower levels.
    pub levels: Vec<Vec<T>>,
    /// Version up to which the data is in files.
    pub persisted_version: SnapVersion,
}

impl<T: ValueTable> CfTables<T> {
    /// The tables of each level are in order.
    pub open spec fn wf(self) -> bool {
        &&& forall|i: int| 0 <= i < self.levels@.len() ==> ordered((#[trigger] self.levels@[i])@)
        &&& self.levels@.len() <= u8::MAX
        &&& self.mem_versions@.len() == self.mem_tbls@.len()
    }

    /// What a read finds, and how many places it looks at.
    pub open spec fn found(self, files: Seq<(u64, T)>, ask: Ask) -> (Option<Value>, AccessPath) {
        let lock = if self.cf == LOCK_CF {
            in_txn_files(files, ask, 0)
        } else {
            None
        };
        let mem = in_mems(self.mem_tbls@, ask, 0);
        let l0 = in_l0s(self.l0_tbls@, ask, true, 0);
        let ln = in_levels(self.levels@, ask, 0);
        if lock is Some {
            (lock, AccessPath { mem_table: 0, l0: 0, ln: 0 })
        } else if mem.0 is Some {
            (mem.0, AccessPath { mem_table: capped(mem.1), l0: 0, ln: 0 })
        } else if l0.0 is Some {
            (l0.0, AccessPath { mem_table: capped(mem.1), l0: capped(l0.1), ln: 0 })
        } else {
            (ln.0, AccessPath { mem_table: capped(mem.1), l0: capped(l0.1), ln: ln.1 as u8 })
        }
    }

    /// The first version that is newer.
    pub open spec fn newer(self, ask: Ask) -> Option<Value> {
        if newer_in_mems(self.mem_tbls@, ask, 0) is Some {
            newer_in_mems(self.mem_tbls@, ask, 0)
        } else if newer_in_l0s(self.l0_tbls@, ask, 0) is Some {
            newer_in_l0s(self.l0_tbls@, ask, 0)
        } else {
            newer_in_levels(self.levels@, ask, 0)
        }
    }

    /// Looks in the lock files, the memory tables, level 0 and the lower levels, one
    /// behind the other, until a version is found.
    pub(crate) fn get_value(&self, inner_key: InnerKey<'_>, version: u64, files: &Vec<(u64, T)>) -> (res: Item)
        requires
            self.wf(),
        ensures
            (res.val, res.path) == self.found(files@, Ask { key: inner_key@, version }),
    {
        let ghost ask = Ask { key: inner_key@, version };
        let mut item = Item::new();
        if self.cf == LOCK_CF {
            let mut f: usize = 0;
            while f < files.len()
                invariant
                    f <= files@.len(),
                    ask == (Ask { key: inner_key@, version }),
                    in_txn_files(files@, ask, f as int) == in_txn_files(files@, ask, 0),
                    self.cf == LOCK_CF,
                    item.val is None,
                    item.path == (AccessPath { mem_table: 0, l0: 0, ln: 0 }),
                decreases files@.len() - f,
            {
                if files[f].0 <= version {
                    let v = files[f].1.get(inner_key, version, None);
                    if v.is_some() {
                        item.val = v;
                        return item;
                    }
                }
                f = f + 1;
            }
        }
        let mut i: usize = 0;
        while i < self.mem_tbls.len()
            invariant
                i <= self.mem_tbls@.len(),
                ask == (Ask { key: inner_key@, version }),
                self.wf(),
                in_mems(self.mem_tbls@, ask, 0).0 == in_mems(self.mem_tbls@, ask, i as int).0,
                in_mems(self.mem_tbls@, ask, 0).1 == i + in_mems(self.mem_tbls@, ask, i as int).1,
                self.cf == LOCK_CF ==> in_txn_files(files@, ask, 0) is None,
                item.val is None,
                item.path == (AccessPath { mem_table: capped(i as int), l0: 0, ln: 0 }),
            decreases self.mem_tbls@.len() - i,
        {
            let v = self.mem_tbls[i].get(inner_key, version, None);
            item.path.mem_table = item.path.mem_table.saturating_add(1);
            if v.is_some() {
                item.val = v;
                return item;
            }
            i = i + 1;
        }
        let hash = Some(key_hash(inner_key.deref()));
        let ghost mems = in_mems(self.mem_tbls@, ask, 0).1;
        let mut j: usize = 0;
        let ghost mut looked: int = 0;
        while j < self.l0_tbls.len()
            invariant
                j <= self.l0_tbls@.len(),
                ask == (Ask { key: inner_key@, version }),
                hash == ask.hash(),
                self.wf(),
                0 <= looked,
                in_l0s(self.l0_tbls@, ask, true, 0).0 == in_l0s(
                    self.l0_tbls@,
                    ask,
                    true,
                    j as int,
                ).0,
                in_l0s(self.l0_tbls@, ask, true, 0).1 == looked + in_l0s(
                    self.l0_tbls@,
                    ask,
                    true,
                    j as int,
                ).1,
                self.cf == LOCK_CF ==> in_txn_files(files@, ask, 0) is None,
                in_mems(self.mem_tbls@, ask, 0) == (None::<Value>, mems),
                item.val is None,
                item.path == (AccessPath { mem_table: capped(mems), l0: capped(looked), ln: 0 }),
            decreases self.l0_tbls@.len() - j,
        {
            if let Some(tbl) = &self.l0_tbls[j] {
                let bound = tbl.data_bound();
                if bound.lower_bound.le(inner_key) && bound.reaches_key(inner_key) {
                    let v = tbl.get(inner_key, version, hash);
                    item.path.l0 = item.path.l0.saturating_add(1);
                    if v.is_some() {
                        item.val = v;
                        return item;
                    }
                    proof {
                        looked = looked + 1;
                    }
                }
            }
            j = j + 1;
        }
        let mut k: usize = 0;
        while k < self.levels.len()
            invariant
                k <= self.levels@.len(),
                ask == (Ask { key: inner_key@, version }),
                hash == ask.hash(),
                self.wf(),
                in_levels(self.levels@, ask, 0).0 == in_levels(self.levels@, ask, k as int).0,
                in_levels(self.levels@, ask, 0).1 == k + in_levels(self.levels@, ask, k as int).1,
                self.cf == LOCK_CF ==> in_txn_files(files@, ask, 0) is None,
                in_mems(self.mem_tbls@, ask, 0) == (None::<Value>, mems),
                in_l0s(self.l0_tbls@, ask, true, 0) == (None::<Value>, looked),
                item.val is None,
                item.path == (AccessPath {
                    mem_table: capped(mems),
                    l0: capped(looked),
                    ln: k as u8,
                }),
            decreases self.levels@.len() - k,
        {
            let v = Self::get_in_level(&self.levels[k], inner_key, version, hash);
            item.path.ln = item.path.ln + 1;
            if v.is_some() {
                item.val = v;
                return item;
            }
            k = k + 1;
        }
        item
    }

    /// What a level holds: the first of its tables that reaches to the key is asked.
    fn get_in_level(
        tables: &Vec<T>,
        inner_key: InnerKey<'_>,
        version: u64,
        hash: Option<u64>,
    ) -> (res: Option<Value>)
        requires
            ordered(tables@),
            hash == Some(farm_fingerprint(inner_key@)),
        ensures
            res == in_level(tables@, Ask { key: inner_key@, version }),
    {
        let t = first_reaching(tables.as_slice(), inner_key);
        proof {
            lemma_reaching(tables@, inner_key@, t as int, 0);
        }
        if t < tables.len() {
            tables[t].get(inner_key, version, hash)
        } else {
            None
        }
    }

    /// The version of a key that a reader sees at a version; the newest where the
    /// version is zero.
    pub fn get(&self, key: &[u8], version: u64) -> (res: Item)
        requires
            self.wf(),
        ensures
            (res.val, res.path) == self.found(
                self.lock_txn_files@,
                Ask {
                    key: inner_of(key@),
                    version: if version == 0 {
                        u64::MAX
                    } else {
                        version
                    },
                },
            ),
    {
        let version: u64 = if version == 0 {
            u64::MAX
        } else {
            version
        };
        self.get_value(InnerKey::from_outer_key(key), version, &self.lock_txn_files)
    }

    /// The newest lock of a key that no lock file holds.
    pub fn get_non_txn_file_lock(&self, key: &[u8]) -> (res: Item)
        requires
            self.wf(),
            self.cf == LOCK_CF,
        ensures
            (res.val, res.path) == self.found(
                Seq::empty(),
                Ask { key: inner_of(key@), version: u64::MAX },
            ),
    {
        let none: Vec<(u64, T)> = Vec::new();
        self.get_value(InnerKey::from_outer_key(key), u64::MAX, &none)
    }

    /// What `get` gives for each of the keys.
    pub fn multi_get(&self, keys: &Vec<Vec<u8>>, version: u64) -> (res: Vec<Item>)
        requires
            self.wf(),
        ensures
            res@.len() == keys@.len(),
            forall|i: int|
                0 <= i < keys@.len() ==> (#[trigger] res@[i].val, res@[i].path) == self.found(
                    self.lock_txn_files@,
                    Ask {
                        key: inner_of(keys@[i]@),
                        version: if version == 0 {
                            u64::MAX
                        } else {
                            version
                        },
                    },
                ),
    {
        let mut items: Vec<Item> = Vec::with_capacity(keys.len());
        let mut i: usize = 0;
        while i < keys.len()
            invariant
                i <= keys@.len(),
                self.wf(),
                items@.len() == i,
                forall|j: int|
                    0 <= j < i ==> (#[trigger] items@[j].val, items@[j].path) == self.found(
                        self.lock_txn_files@,
                        Ask {
                            key: inner_of(keys@[j]@),
                            version: if version == 0 {
                                u64::MAX
                            } else {
                                version
                            },
                        },
                    ),
            decreases keys@.len() - i,
        {
            items.push(self.get(keys[i].as_slice(), version));
            i = i + 1;
        }
        items
    }

    /// The first version of a key that is newer than the one asked for.
    pub fn get_newer(&self, key: &[u8], version: u64) -> (res: Item)
        requires
            self.wf(),
        ensures
            res.val == self.newer(Ask { key: inner_of(key@), version }),
            res.path == (AccessPath { mem_table: 0, l0: 0, ln: 0 }),
    {
        let mut item = Item::new();
        item.val = self.get_newer_val(InnerKey::from_outer_key(key), version);
        item
    }

    /// Looks in the memory tables, level 0 and the lower levels, one behind the
    /// other, until a newer version is found.
    fn get_newer_val(&self, inner_key: InnerKey<'_>, version: u64) -> (res: Option<Value>)
        requires
            self.wf(),
        ensures
            res == self.newer(Ask { key: inner_key@, version }),
    {
        let ghost ask = Ask { key: inner_key@, version };
        let hash = Some(key_hash(inner_key.deref()));
        let mut i: usize = 0;
        while i < self.mem_tbls.len()
            invariant
                i <= self.mem_tbls@.len(),
                ask == (Ask { key: inner_key@, version }),
                newer_in_mems(self.mem_tbls@, ask, 0) == newer_in_mems(
                    self.mem_tbls@,
                    ask,
                    i as int,
                ),
            decreases self.mem_tbls@.len() - i,
        {
            let v = self.mem_tbls[i].get_newer(inner_key, version, None);
            if v.is_some() {
                return v;
            }
            i = i + 1;
        }
        let mut j: usize = 0;
        while j < self.l0_tbls.len()
            invariant
                j <= self.l0_tbls@.len(),
                ask == (Ask { key: inner_key@, version }),
                hash == ask.hash(),
                newer_in_mems(self.mem_tbls@, ask, 0) is None,
                newer_in_l0s(self.l0_tbls@, ask, 0) == newer_in_l0s(self.l0_tbls@, ask, j as int),
            decreases self.l0_tbls@.len() - j,
        {
            if let Some(tbl) = &self.l0_tbls[j] {
                let v = tbl.get_newer(inner_key, version, hash);
                if v.is_some() {
                    return v;
                }
            }
            j = j + 1;
        }
        let mut k: usize = 0;
        while k < self.levels.len()
            invariant
                k <= self.levels@.len(),
                ask == (Ask { key: inner_key@, version }),
                hash == ask.hash(),
                self.wf(),
                newer_in_mems(self.mem_tbls@, ask, 0) is None,
                newer_in_l0s(self.l0_tbls@, ask, 0) is None,
                newer_in_levels(self.levels@, ask, 0) == newer_in_levels(
                    self.levels@,
                    ask,
                    k as int,
                ),
            decreases self.levels@.len() - k,
        {
            let tables = &self.levels[k];
            if level_max_ts(tables) > version {
                let t = first_reaching(tables.as_slice(), inner_key);
                proof {
                    lemma_reaching(tables@, inner_key@, t as int, 0);
                }
                if t < tables.len() {
                    let v = tables[t].get_newer(inner_key, version, hash);
                    if v.is_some() {
                        return v;
                    }
                }
            }
            k = k + 1;
        }
        None
    }

    /// Whether a table behind the first memory table has the key, and not as
    /// deleted.
    pub fn contains_in_older_table(&self, key: InnerKey<'_>) -> (res: bool)
        requires
            self.wf(),
            self.mem_tbls@.len() > 0,
        ensures
            ({
                let ask = Ask { key: key@, version: u64::MAX };
                let mem = in_mems(self.mem_tbls@, ask, 1).0;
                let l0 = in_l0s(self.l0_tbls@, ask, false, 0).0;
                let ln = in_levels(self.levels@, ask, 0).0;
                let v = if mem is Some {
                    mem
                } else if l0 is Some {
                    l0
                } else {
                    ln
                };
                res == (v is Some && !v->0.deleted)
            }),
    {
        let ghost ask = Ask { key: key@, version: u64::MAX };
        let hash = Some(key_hash(key.deref()));
        let mut i: usize = 1;
        while i < self.mem_tbls.len()
            invariant
                1 <= i <= self.mem_tbls@.len(),
                ask == (Ask { key: key@, version: u64::MAX }),
                in_mems(self.mem_tbls@, ask, 1).0 == in_mems(self.mem_tbls@, ask, i as int).0,
            decreases self.mem_tbls@.len() - i,
        {
            if let Some(v) = self.mem_tbls[i].get(key, u64::MAX, None) {
                return !v.deleted;
            }
            i = i + 1;
        }
        let mut j: usize = 0;
        while j < self.l0_tbls.len()
            invariant
                j <= self.l0_tbls@.len(),
                ask == (Ask { key: key@, version: u64::MAX }),
                hash == ask.hash(),
                in_mems(self.mem_tbls@, ask, 1).0 is None,
                in_l0s(self.l0_tbls@, ask, false, 0).0 == in_l0s(
                    self.l0_tbls@,
                    ask,
                    false,
                    j as int,
                ).0,
            decreases self.l0_tbls@.len() - j,
        {
            if let Some(tbl) = &self.l0_tbls[j] {
                if let Some(v) = tbl.get(key, u64::MAX, hash) {
                    return !v.deleted;
                }
            }
            j = j + 1;
        }
        let mut k: usize = 0;
        while k < self.levels.len()
            invariant
                k <= self.levels@.len(),
                ask == (Ask { key: key@, version: u64::MAX }),
                hash == ask.hash(),
                self.wf(),
                in_mems(self.mem_tbls@, ask, 1).0 is None,
                in_l0s(self.l0_tbls@, ask, false, 0).0 is None,
                in_levels(self.levels@, ask, 0).0 == in_levels(self.levels@, ask, k as int).0,
            decreases self.levels@.len() - k,
        {
            if let Some(v) = Self::get_in_level(&self.levels[k], key, u64::MAX, hash) {
                return !v.deleted;
            }
            k = k + 1;
        }
        false
    }

    /// What is left of a cached value of a key: nothing newer (`Some(None)`), a newer
    /// version, or that only the files can tell (`None`).
    pub fn validate_cached_value(&self, inner_key: InnerKey<'_>, snap_version: SnapVersion) -> (res:
        Option<Option<Value>>)
        requires
            self.wf(),
        ensures
            res == still_cached(
                self.mem_tbls@,
                self.mem_versions@,
                Ask { key: inner_key@, version: u64::MAX },
                snap_version,
                self.persisted_version,
                0,
            ),
    {
        let ghost ask = Ask { key: inner_key@, version: u64::MAX };
        let mut i: usize = 0;
        while i < self.mem_tbls.len()
            invariant
                i <= self.mem_tbls@.len(),
                self.wf(),
                ask == (Ask { key: inner_key@, version: u64::MAX }),
                still_cached(
                    self.mem_tbls@,
                    self.mem_versions@,
                    ask,
                    snap_version,
                    self.persisted_version,
                    0,
                ) == still_cached(
                    self.mem_tbls@,
                    self.mem_versions@,
                    ask,
                    snap_version,
                    self.persisted_version,
                    i as int,
                ),
            decreases self.mem_tbls@.len() - i,
        {
            let ver = self.mem_versions[i];
            if ver.is_not_zero() && ver.version < snap_version.version {
                return Some(None);
            }
            let v = self.mem_tbls[i].get(inner_key, u64::MAX, None);
            if v.is_some() {
                return Some(v);
            }
            i = i + 1;
        }
        if self.persisted_version.version < snap_version.version {
            return Some(None);
        }
        None
    }
}

/// What is left of a value that was cached at a version, as the memory tables from
/// `i` on tell.
pub open spec fn still_cached<T: ValueTable>(
    mems: Seq<T>,
    versions: Seq<SnapVersion>,
    ask: Ask,
    cached_at: SnapVersion,
    persisted: SnapVersion,
    i: int,
) -> Option<Option<Value>>
    decreases mems.len() - i,
{
    if i >= mems.len() {
        if persisted.version < cached_at.version {
            Some(None)
        } else {
            None
        }
    } else if versions[i].version != 0 && versions[i].version < cached_at.version {
        Some(None)
    } else if mems[i].found(ask.key, ask.version, None) is Some {
        Some(mems[i].found(ask.key, ask.version, None))
    } else {
        still_cached(mems, versions, ask, cached_at, persisted, i + 1)
    }
}

/// The version at which a reader reads a column family.
pub open spec fn read_ts(
    cf: int,
    asked: Option<u64>,
    managed_ts: u64,
    snap_version: SnapVersion,
) -> u64 {
    match asked {
        Some(ts) => ts,
        None => if CF_MANAGED[cf] && managed_ts != 0 {
            managed_ts
        } else if !CF_MANAGED[cf] {
            snap_version.version
        } else {
            u64::MAX
        },
    }
}

/// The version at which a reader reads a column family.
pub fn get_read_ts(
    cf: usize,
    asked: Option<u64>,
    managed_ts: u64,
    snap_version: SnapVersion,
) -> (res: u64)
    requires
        cf < NUM_CFS,
    ensures
        res == read_ts(cf as int, asked, managed_ts, snap_version),
{
    match asked {
        Some(ts) => ts,
        None => if CF_MANAGED[cf] && managed_ts != 0 {
            managed_ts
        } else if !CF_MANAGED[cf] {
            snap_version.into_inner()
        } else {
            u64::MAX
        },
    }
}

/// What each place answers, the newest place first.
pub open spec fn answers<T: ValueTable>(tables: CfTables<T>, ask: Ask) -> Seq<Option<Value>> {
    Seq::new(
        tables.mem_tbls@.len(),
        |i: int| tables.mem_tbls@[i].found(ask.key, ask.version, None),
    ) + Seq::new(
        tables.l0_tbls@.len(),
        |i: int|
            match tables.l0_tbls@[i] {
                Some(tbl) => if tbl.bound().has(ask.key) {
                    tbl.found(ask.key, ask.version, ask.hash())
                } else {
                    None
                },
                None => None,
            },
    ) + Seq::new(tables.levels@.len(), |i: int| in_level(tables.levels@[i]@, ask))
}

/// The first answer from `i` on that is not empty.
pub open spec fn first_answer(answers: Seq<Option<Value>>, i: int) -> Option<Value>
    decreases answers.len() - i,
{
    if i >= answers.len() {
        None
    } else if answers[i] is Some {
        answers[i]
    } else {
        first_answer(answers, i + 1)
    }
}

/// The answers of newer places are newer.
pub open spec fn newest_first(answers: Seq<Option<Value>>) -> bool {
    forall|i: int, j: int|
        0 <= i < j < answers.len() && (#[trigger] answers[i]) is Some && (
        #[trigger] answers[j]) is Some ==> answers[i]->0.version >= answers[j]->0.version
}

/// A read gives the first answer. Where newer places hold newer versions it gives the
/// newest of all, and it gives nothing only if no place has anything.
pub proof fn law_newest_version_is_read<T: ValueTable>(
    tables: CfTables<T>,
    files: Seq<(u64, T)>,
    ask: Ask,
)
    requires
        tables.cf != LOCK_CF,
    ensures
        tables.found(files, ask).0 == first_answer(answers(tables, ask), 0),
        newest_first(answers(tables, ask)) ==> forall|i: int|
            0 <= i < answers(tables, ask).len() && (#[trigger] answers(tables, ask)[i]) is Some
                ==> {
                &&& tables.found(files, ask).0 is Some
                &&& tables.found(files, ask).0->0.version >= answers(tables, ask)[i]->0.version
            },
{
    let all = answers(tables, ask);
    lemma_in_mems(tables, ask, 0);
    lemma_in_l0s(tables, ask, 0);
    lemma_in_levels(tables, ask, 0);
    lemma_first_answer(all, 0);
}

/// The first answer is among the answers, and nothing comes before it.
proof fn lemma_first_answer(all: Seq<Option<Value>>, i: int)
    requires
        0 <= i <= all.len(),
    ensures
        first_answer(all, i) is None ==> forall|j: int|
            i <= j < all.len() ==> (#[trigger] all[j]) is None,
        first_answer(all, i) is Some ==> exists|k: int|
            {
                &&& i <= k < all.len()
                &&& #[trigger] all[k] == first_answer(all, i)
                &&& forall|j: int| i <= j < k ==> (#[trigger] all[j]) is None
            },
    decreases all.len() - i,
{
    if i < all.len() && all[i] is None {
        lemma_first_answer(all, i + 1);
    } else if i < all.len() {
        assert(all[i] == first_answer(all, i));
    }
}

proof fn lemma_in_mems<T: ValueTable>(tables: CfTables<T>, ask: Ask, i: int)
    requires
        0 <= i <= tables.mem_tbls@.len(),
    ensures
        first_answer(answers(tables, ask), i) == (if in_mems(tables.mem_tbls@, ask, i).0 is Some {
            in_mems(tables.mem_tbls@, ask, i).0
        } else {
            first_answer(answers(tables, ask), tables.mem_tbls@.len() as int)
        }),
    decreases tables.mem_tbls@.len() - i,
{
    if i < tables.mem_tbls@.len() {
        lemma_in_mems(tables, ask, i + 1);
        assert(answers(tables, ask)[i] == tables.mem_tbls@[i].found(ask.key, ask.version, None));
    }
}

proof fn lemma_in_l0s<T: ValueTable>(tables: CfTables<T>, ask: Ask, i: int)
    requires
        0 <= i <= tables.l0_tbls@.len(),
    ensures
        ({
            let m = tables.mem_tbls@.len() as int;
            let l = tables.l0_tbls@.len() as int;
            let all = answers(tables, ask);
            first_answer(all, m + i) == (if in_l0s(tables.l0_tbls@, ask, true, i).0 is Some {
                in_l0s(tables.l0_tbls@, ask, true, i).0
            } else {
                first_answer(all, m + l)
            })
        }),
    decreases tables.l0_tbls@.len() - i,
{
    if i < tables.l0_tbls@.len() {
        lemma_in_l0s(tables, ask, i + 1);
        let m = tables.mem_tbls@.len() as int;
        assert(answers(tables, ask)[m + i] == match tables.l0_tbls@[i] {
            Some(tbl) => if tbl.bound().has(ask.key) {
                tbl.found(ask.key, ask.version, ask.hash())
            } else {
                None
            },
            None => None,
        });
    }
}

proof fn lemma_in_levels<T: ValueTable>(tables: CfTables<T>, ask: Ask, i: int)
    requires
        0 <= i <= tables.levels@.len(),
    ensures
        first_answer(
            answers(tables, ask),
            tables.mem_tbls@.len() + tables.l0_tbls@.len() + i,
        ) == in_levels(tables.levels@, ask, i).0,
    decreases tables.levels@.len() - i,
{
    if i < tables.levels@.len() {
        lemma_in_levels(tables, ask, i + 1);
        let m = tables.mem_tbls@.len() + tables.l0_tbls@.len();
        assert(answers(tables, ask)[m + i] == in_level(tables.levels@[i]@, ask));
    }
}

/// Rows that are in memory, as a table in which versions are looked up.
pub struct RowTable {
    /// Inner keys, in order.
    pub keys: Vec<Vec<u8>>,
    /// Versions of each key, the newest first.
    pub versions: Vec<Vec<Value>>,
    /// Highest timestamp.
    pub max_ts: u64,
}

impl RowTable {
    /// There is a key, the keys are in order and each has a version.
    pub open spec fn wf(self) -> bool {
        &&& self.keys@.len() > 0
        &&& self.keys@.len() == self.versions@.len()
        &&& rows_wf(rows_of(self.keys@, self.versions@), false)
    }

    /// Where the key is, if it is there.
    fn find(&self, key: InnerKey<'_>) -> (res: Option<usize>)
        ensures
            res == row_of(self.keys@, key@, 0),
            res is Some ==> res->0 < self.keys@.len(),
    {
        let mut i: usize = 0;
        while i < self.keys.len()
            invariant
                i <= self.keys@.len(),
                row_of(self.keys@, key@, 0) == row_of(self.keys@, key@, i as int),
            decreases self.keys@.len() - i,
        {
            if bytes_eq(self.keys[i].as_slice(), key.deref()) {
                return Some(i);
            }
            i = i + 1;
        }
        None
    }
}

/// The first of the keys from `i` on that is the key.
pub open spec fn row_of(keys: Seq<Vec<u8>>, key: Seq<u8>, i: int) -> Option<usize>
    decreases keys.len() - i,
{
    if i >= keys.len() {
        None
    } else if keys[i]@ == key {
        Some(i as usize)
    } else {
        row_of(keys, key, i + 1)
    }
}

impl BoundedDataSet for RowTable {
    open spec fn bound(&self) -> Bound {
        if self.keys@.len() == 0 {
            Bound { lower: Seq::empty(), upper: Seq::empty(), inclusive: false }
        } else {
            Bound { lower: self.keys@[0]@, upper: self.keys@.last()@, inclusive: true }
        }
    }

    fn data_bound(&self) -> (res: DataBound<'_>) {
        if self.keys.len() == 0 {
            DataBound::new(
                InnerKey::from_inner_buf(&EMPTY_KEY),
                InnerKey::from_inner_buf(&EMPTY_KEY),
                false,
            )
        } else {
            DataBound::new(
                InnerKey::from_inner_buf(self.keys[0].as_slice()),
                InnerKey::from_inner_buf(self.keys[self.keys.len() - 1].as_slice()),
                true,
            )
        }
    }
}

/// The key without a byte.
const EMPTY_KEY: [u8; 0] = [];

impl ValueTable for RowTable {
    open spec fn found(&self, key: Seq<u8>, version: u64, key_hash: Option<u64>) -> Option<Value> {
        match row_of(self.keys@, key, 0) {
            Some(i) => if i < self.versions@.len() {
                let versions = self.versions@[i as int]@;
                let k = version_at(versions, 0, version);
                if k < versions.len() {
                    Some(versions[k])
                } else {
                    None
                }
            } else {
                None
            },
            None => None,
        }
    }

    open spec fn found_newer(&self, key: Seq<u8>, version: u64, key_hash: Option<u64>) -> Option<
        Value,
    > {
        match row_of(self.keys@, key, 0) {
            Some(i) => if i < self.versions@.len() && self.versions@[i as int]@.len() > 0
                && self.versions@[i as int]@[0].version > version {
                Some(self.versions@[i as int]@[0])
            } else {
                None
            },
            None => None,
        }
    }

    open spec fn top_ts(&self) -> u64 {
        self.max_ts
    }

    fn get(&self, key: InnerKey<'_>, version: u64, key_hash: Option<u64>) -> (res: Option<Value>) {
        match self.find(key) {
            Some(i) => {
                if i >= self.versions.len() {
                    return None;
                }
                let versions = &self.versions[i];
                let mut k: usize = 0;
                while k < versions.len() && versions[k].version > version
                    invariant
                        k <= versions@.len(),
                        version_at(versions@, 0, version) == version_at(
                            versions@,
                            k as int,
                            version,
                        ),
                    decreases versions@.len() - k,
                {
                    k = k + 1;
                }
                if k < versions.len() {
                    Some(versions[k].clone())
                } else {
                    None
                }
            },
            None => None,
        }
    }

    fn get_newer(&self, key: InnerKey<'_>, version: u64, key_hash: Option<u64>) -> (res: Option<
        Value,
    >) {
        match self.find(key) {
            Some(i) => {
                if i < self.versions.len() && self.versions[i].len() > 0
                    && self.versions[i][0].version > version {
                    Some(self.versions[i][0].clone())
                } else {
                    None
                }
            },
            None => None,
        }
    }

    fn max_ts(&self) -> (res: u64) {
        self.max_ts
    }
}

/// Highest timestamp of the tables.
fn level_max_ts<T: ValueTable>(tables: &Vec<T>) -> (res: u64)
    ensures
        res == top_of(tables@, 0),
{
    let mut res: u64 = 0;
    let mut i = tables.len();
    while i > 0
        invariant
            i <= tables@.len(),
            res == top_of(tables@, i as int),
        decreases i,
    {
        i = i - 1;
        let ts = tables[i].max_ts();
        if ts > res {
            res = ts;
        }
    }
    res
}

/// The first table that reaches to the key is known by those around it.
proof fn lemma_reaching<T: ValueTable>(tables: Seq<T>, key: Seq<u8>, t: int, i: int)
    requires
        0 <= i <= t <= tables.len(),
        forall|j: int| 0 <= j < t ==> lex_lt((#[trigger] tables[j].bound()).upper, key),
        t < tables.len() ==> lex_le(key, tables[t].bound().upper),
    ensures
        reaching(tables, key, i) == t,
    decreases t - i,
{
    if i < t {
        lemma_not_lt(tables[i].bound().upper, key);
        lemma_reaching(tables, key, t, i + 1);
    }
}

} // verus!

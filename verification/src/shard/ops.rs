//! A shard: its settings, what it was asked to do, and its data.
use bytes::Bytes;
use vstd::prelude::*;

use crate::bound::{Bound, BoundedDataSet};
use crate::buf::content;
use crate::del_prefixes::{covered, decoded, merge_one, Deletion, DeletePrefixes};
use crate::file_meta::SnapVersion;
use crate::key::bytes_eq;
use crate::keyspace::prefix_len_of_id;
use crate::lists::{contains_i64, copy_u64s};
use crate::meta::ShardMeta;
use crate::pb;
use crate::pb::StorageClassSpec;
use crate::properties::{
    first_value, get_shard_property, lemma_recovered_keys_differ, opt_value, props_valid, set_all,
    set_opt, value_of, Properties, DEL_PREFIXES_KEY, ENCRYPTION_KEY, MANUAL_MAJOR_COMPACTION,
    MANUAL_MAJOR_COMPACTION_ENABLE, MANUAL_MAJOR_COMPACTION_ENABLE_COLUMNAR, STORAGE_CLASS_KEY,
    TRIM_OVER_BOUND, TXN_FILE_REF,
};
use crate::range::{Range, ShardRange};
use crate::shard::data::{mem_max_ts, Data, Mem, MemTable, ShardData, TxnFile};
use crate::shard::priority::{priority_of, CompactionPriority, Priority};
use crate::text::str_eq;

verus! {

/// A compaction that was asked for.
#[derive(Clone, Copy, Debug, PartialEq, Eq, Structural)]
pub enum MajorCompactionType {
    /// None.
    Disable,
    /// Of all levels.
    Enable,
    /// Of all columnar levels.
    EnableColumnar,
}

impl MajorCompactionType {
    /// What the value of the property asks for.
    pub open spec fn of(s: Seq<u8>) -> MajorCompactionType {
        if s == MANUAL_MAJOR_COMPACTION_ENABLE_COLUMNAR@ {
            MajorCompactionType::EnableColumnar
        } else if s == MANUAL_MAJOR_COMPACTION_ENABLE@ {
            MajorCompactionType::Enable
        } else {
            MajorCompactionType::Disable
        }
    }

    /// What the value of the property asks for.
    pub fn from_value(s: &[u8]) -> (res: Self)
        ensures
            res == Self::of(s@),
    {
        if bytes_eq(s, &MANUAL_MAJOR_COMPACTION_ENABLE_COLUMNAR) {
            MajorCompactionType::EnableColumnar
        } else if bytes_eq(s, &MANUAL_MAJOR_COMPACTION_ENABLE) {
            MajorCompactionType::Enable
        } else {
            MajorCompactionType::Disable
        }
    }
}

/// What a shard was asked to do and has not done yet.
pub struct ShardPendingOperations {
    /// Prefixes whose keys are to be deleted.
    pub del_prefixes: DeletePrefixes,
    /// Versions above this are to be removed.
    pub truncate_ts: Option<u64>,
    /// Keys outside the shard are to be removed.
    pub trim_over_bound: bool,
    /// A compaction that was asked for.
    pub manual_major_compaction: MajorCompactionType,
    /// Where the files are to be kept.
    pub storage_class_spec: StorageClassSpec,
}

/// What a shard was asked to do and has not done yet.
#[verifier::ext_equal]
pub struct Pending {
    /// Prefixes whose keys are to be deleted.
    pub deletion: Deletion,
    /// Versions above this are to be removed.
    pub truncate_ts: Option<u64>,
    /// Keys outside the shard are to be removed.
    pub trim_over_bound: bool,
    /// A compaction that was asked for.
    pub major: MajorCompactionType,
    /// Where the files are to be kept.
    pub storage_class: StorageClassSpec,
}

impl View for ShardPendingOperations {
    type V = Pending;

    open spec fn view(&self) -> Pending {
        Pending {
            deletion: self.del_prefixes@,
            truncate_ts: self.truncate_ts,
            trim_over_bound: self.trim_over_bound,
            major: self.manual_major_compaction,
            storage_class: self.storage_class_spec,
        }
    }
}

/// No prefix to be deleted, in the keyspace.
pub open spec fn no_deletion(keyspace_id: u32) -> Deletion {
    Deletion {
        prefixes: Seq::empty(),
        nexts: Seq::empty(),
        schedule_at: 0,
        keyspace_prefix_len: prefix_len_of_id(keyspace_id) as usize,
    }
}

/// The prefixes that a value holds, to be deleted from the given time on.
pub open spec fn deletion_of(value: Seq<u8>, keyspace_id: u32, schedule_at: u64) -> Deletion {
    Deletion { schedule_at, ..no_deletion(keyspace_id).with_prefixes(decoded(value)->0) }
}

/// What a value that is set for the prefixes asks for: nothing, where it is empty.
pub open spec fn deletion_set(value: Seq<u8>, keyspace_id: u32, schedule_at: u64) -> Deletion {
    if value.len() == 0 {
        no_deletion(keyspace_id)
    } else {
        deletion_of(value, keyspace_id, schedule_at)
    }
}

impl Pending {
    /// Nothing.
    pub open spec fn none(keyspace_id: u32) -> Pending {
        Pending {
            deletion: no_deletion(keyspace_id),
            truncate_ts: None,
            trim_over_bound: false,
            major: MajorCompactionType::Disable,
            storage_class: StorageClassSpec {
                specified: false,
                must_be_ia: false,
                ia_after_ms: None,
            },
        }
    }

    /// What properties ask for. `schedule_at` is when a deletion may begin, and
    /// `storage_class` is what that property says.
    pub open spec fn of(
        props: pb::Properties,
        keyspace_id: u32,
        schedule_at: u64,
        storage_class: StorageClassSpec,
    ) -> Pending {
        let base = Pending::none(keyspace_id);
        Pending {
            deletion: match first_value(DEL_PREFIXES_KEY@, props) {
                Some(v) => deletion_of(content(v), keyspace_id, schedule_at),
                None => base.deletion,
            },
            truncate_ts: None,
            trim_over_bound: match first_value(TRIM_OVER_BOUND@, props) {
                Some(v) => content(v).len() > 0,
                None => false,
            },
            major: match first_value(MANUAL_MAJOR_COMPACTION@, props) {
                Some(v) => MajorCompactionType::of(content(v)),
                None => MajorCompactionType::Disable,
            },
            storage_class: match first_value(STORAGE_CLASS_KEY@, props) {
                Some(_) => storage_class,
                None => base.storage_class,
            },
        }
    }

    /// What an optional message of properties asks for.
    pub open spec fn of_opt(
        props: Option<pb::Properties>,
        keyspace_id: u32,
        schedule_at: u64,
        storage_class: StorageClassSpec,
    ) -> Pending {
        match props {
            Some(p) => Pending::of(p, keyspace_id, schedule_at, storage_class),
            None => Pending::none(keyspace_id),
        }
    }

    /// After a property is set.
    pub open spec fn with_property(
        self,
        key: Seq<char>,
        value: Seq<u8>,
        keyspace_id: u32,
        schedule_at: u64,
        storage_class: StorageClassSpec,
    ) -> Pending {
        if key == DEL_PREFIXES_KEY@ {
            Pending { deletion: deletion_set(value, keyspace_id, schedule_at), ..self }
        } else if key == TRIM_OVER_BOUND@ {
            Pending { trim_over_bound: value.len() > 0, ..self }
        } else if key == MANUAL_MAJOR_COMPACTION@ {
            Pending { major: MajorCompactionType::of(value), ..self }
        } else if key == STORAGE_CLASS_KEY@ {
            Pending { storage_class, ..self }
        } else {
            self
        }
    }
}

/// The property of the prefixes, if it is there, is well formed.
pub open spec fn pending_valid(props: pb::Properties) -> bool {
    first_value(DEL_PREFIXES_KEY@, props) matches Some(v) ==> decoded(content(v)) is Some
}

impl ShardPendingOperations {
    /// Nothing.
    pub fn new(keyspace_id: u32) -> (res: Self)
        ensures
            res@ == Pending::none(keyspace_id),
    {
        let res = ShardPendingOperations {
            del_prefixes: DeletePrefixes::new_with_keyspace_id(keyspace_id),
            truncate_ts: None,
            trim_over_bound: false,
            manual_major_compaction: MajorCompactionType::Disable,
            storage_class_spec: StorageClassSpec::default(),
        };
        assert(res@.deletion =~= no_deletion(keyspace_id));
        res
    }

    /// What properties ask for.
    pub fn from_properties(
        props: &pb::Properties,
        keyspace_id: u32,
        schedule_at: u64,
        storage_class: StorageClassSpec,
    ) -> (res: Self)
        requires
            props_valid(*props),
            pending_valid(*props),
        ensures
            res@ == Pending::of(*props, keyspace_id, schedule_at, storage_class),
    {
        let mut res = Self::new(keyspace_id);
        if let Some(val) = get_shard_property(DEL_PREFIXES_KEY, props) {
            res.del_prefixes = scheduled(&val, keyspace_id, schedule_at);
        }
        if let Some(val) = get_shard_property(TRIM_OVER_BOUND, props) {
            let v: &[u8] = &val;
            if v.len() > 0 {
                res.trim_over_bound = true;
            }
        }
        if let Some(val) = get_shard_property(MANUAL_MAJOR_COMPACTION, props) {
            res.manual_major_compaction = MajorCompactionType::from_value(&val);
        }
        if get_shard_property(STORAGE_CLASS_KEY, props).is_some() {
            res.storage_class_spec = storage_class;
        }
        res
    }

    /// Takes a property over.
    pub fn set_property(
        &mut self,
        key: &str,
        val: &[u8],
        keyspace_id: u32,
        schedule_at: u64,
        storage_class: StorageClassSpec,
    )
        requires
            key@ == DEL_PREFIXES_KEY@ && val@.len() > 0 ==> decoded(val@) is Some,
        ensures
            final(self)@ == old(self)@.with_property(
                key@,
                val@,
                keyspace_id,
                schedule_at,
                storage_class,
            ),
    {
        if str_eq(key, DEL_PREFIXES_KEY) {
            self.set_del_prefixes(val, keyspace_id, schedule_at);
        } else if str_eq(key, TRIM_OVER_BOUND) {
            self.trim_over_bound = val.len() > 0;
        } else if str_eq(key, MANUAL_MAJOR_COMPACTION) {
            self.manual_major_compaction = MajorCompactionType::from_value(val);
        } else if str_eq(key, STORAGE_CLASS_KEY) {
            self.storage_class_spec = storage_class;
        }
    }

    /// Adds a prefix whose keys are to be deleted.
    pub fn merge_del_prefix(&mut self, val: &[u8], schedule_at: u64)
        requires
            val@.len() >= old(self)@.deletion.keyspace_prefix_len,
        ensures
            ({
                let own = old(self)@.deletion;
                final(self)@ == (Pending {
                    deletion: Deletion {
                        schedule_at,
                        ..if covered(own.prefixes, val@) {
                            own
                        } else {
                            own.with_prefixes(merge_one(own.prefixes, val@))
                        }
                    },
                    ..old(self)@
                })
            }),
    {
        let mut merged = self.del_prefixes.merge_prefix(val);
        merged.schedule(schedule_at);
        self.del_prefixes = merged;
    }

    /// Replaces the prefixes whose keys are to be deleted.
    pub fn set_del_prefixes(&mut self, val: &[u8], keyspace_id: u32, schedule_at: u64)
        requires
            val@.len() > 0 ==> decoded(val@) is Some,
        ensures
            final(self)@ == (Pending {
                deletion: deletion_set(val@, keyspace_id, schedule_at),
                ..old(self)@
            }),
    {
        if val.len() == 0 {
            self.del_prefixes = DeletePrefixes::new_with_keyspace_id(keyspace_id);
            assert(self@.deletion =~= no_deletion(keyspace_id));
            return;
        }
        self.del_prefixes = scheduled(val, keyspace_id, schedule_at);
    }

    /// Asks for keys outside the shard to be removed, if the value says so.
    pub fn set_trim_over_bound(&mut self, val: &[u8]) -> (res: bool)
        ensures
            res == (val@.len() > 0),
            final(self)@ == (Pending {
                trim_over_bound: old(self)@.trim_over_bound || res,
                ..old(self)@
            }),
    {
        if val.len() > 0 {
            self.trim_over_bound = true;
            return true;
        }
        false
    }

    /// Asks for the compaction that the value names.
    pub fn set_manual_major_compaction(&mut self, val: &[u8]) -> (res: bool)
        ensures
            res == (val@.len() > 0),
            final(self)@ == (Pending { major: MajorCompactionType::of(val@), ..old(self)@ }),
    {
        self.manual_major_compaction = MajorCompactionType::from_value(val);
        val.len() > 0
    }
}

fn scheduled(val: &[u8], keyspace_id: u32, schedule_at: u64) -> (res: DeletePrefixes)
    requires
        decoded(val@) is Some,
    ensures
        res@ == deletion_of(val@, keyspace_id, schedule_at),
{
    let mut res = DeletePrefixes::unmarshal(val, keyspace_id);
    res.schedule(schedule_at);
    assert(res@ =~= deletion_of(val@, keyspace_id, schedule_at));
    res
}

/// What the statistics of a shard say about old versions.
#[derive(Clone, Copy, Debug, PartialEq, Eq, Structural)]
pub struct GcStats {
    /// Highest timestamp of committed data from level 2 on.
    pub lv2plus_max_ts: u64,
    /// Number of deletions of committed data from level 2 on.
    pub lv2plus_tombs: u64,
    /// Number of entries of committed data from level 2 on.
    pub lv2plus_entries_write_cf: u64,
    /// Lowest of the highest timestamps of the tables of locks.
    pub lv1plus_min_lock_file_max_ts: u64,
    /// Lowest of the highest timestamps of the tables of the extra column family.
    pub lv1_min_max_extra_ts: u64,
}

/// A shard.
pub struct Shard {
    /// Store that holds the shard.
    pub engine_id: u64,
    /// Shard id.
    pub id: u64,
    /// Version of the range.
    pub ver: u64,
    /// Range.
    pub range: ShardRange,
    /// The shard that this one was made from.
    pub parent_id: u64,
    /// Data.
    pub data: ShardData,
    /// Memory tables are flushed and tables compacted.
    pub active: bool,
    /// Properties.
    pub properties: Properties,
    /// What it was asked to do.
    pub pending_ops: ShardPendingOperations,
    /// A compaction is running.
    pub compacting: bool,
    /// The first flush is done.
    pub initial_flushed: bool,
    /// What is added to a sequence to make a version.
    pub base_version: u64,
    /// Size of the files.
    pub estimated_size: u64,
    /// Number of entries.
    pub estimated_entries: u64,
    /// Size of keys and values.
    pub estimated_kv_size: u64,
    /// That of tables that are kept remote.
    pub estimated_ia_kv_size: u64,
    /// Size of columnar files.
    pub estimated_columnar_size: u64,
    /// Size of their keys and values.
    pub estimated_columnar_kv_size: u64,
    /// Highest timestamp of the files.
    pub sst_max_ts: u64,
    /// Highest timestamp when the statistics were made.
    pub max_ts: u64,
    /// What the statistics say about old versions.
    pub gc_stats: GcStats,
    /// Sequence of the last change set.
    pub meta_seq: u64,
    /// Sequence of the last write.
    pub write_sequence: u64,
    /// Which compaction the shard needs most.
    pub compaction_priority: Option<CompactionPriority>,
    /// Encrypted key of the files.
    pub encryption_key: Option<Bytes>,
    /// Version of the schema that was looked at last.
    pub checked_schema_ver: i64,
    /// Version of a schema that was found too old.
    pub outdated_schema_ver: i64,
}

/// The lowest numbers of old versions.
pub open spec fn no_gc_stats() -> GcStats {
    GcStats {
        lv2plus_max_ts: 0,
        lv2plus_tombs: 0,
        lv2plus_entries_write_cf: 0,
        lv1plus_min_lock_file_max_ts: 0,
        lv1_min_max_extra_ts: 0,
    }
}

/// Nothing is known of the shard's data yet: there are no statistics, nothing is being
/// compacted or needs to be, and no schema was looked at.
pub open spec fn nothing_known(s: Shard) -> bool {
    &&& !s.compacting
    &&& s.estimated_size == 0
    &&& s.estimated_entries == 0
    &&& s.estimated_kv_size == 0
    &&& s.estimated_ia_kv_size == 0
    &&& s.estimated_columnar_size == 0
    &&& s.estimated_columnar_kv_size == 0
    &&& s.sst_max_ts == 0
    &&& s.max_ts == 0
    &&& s.gc_stats == no_gc_stats()
    &&& s.compaction_priority is None
    &&& s.checked_schema_ver == 0
    &&& s.outdated_schema_ver == 0
}

/// The parent's memory tables that a shard with the bound has to keep: those with
/// keys in it, and those that were switched because the version changed. A new
/// one to write to comes first.
pub open spec fn mems_for(b: Bound, s: Seq<Mem>) -> Seq<Mem> {
    seq![Mem::empty()] + s.filter(|m: Mem| m.force_switch || m.in_bound(b))
}

impl Shard {
    /// An empty shard with the properties. `schedule_at` is when a deletion may
    /// begin, and `storage_class` is what that property says.
    pub fn new(
        engine_id: u64,
        props: &pb::Properties,
        ver: u64,
        range: ShardRange,
        inner_key_off: usize,
        schedule_at: u64,
        storage_class: StorageClassSpec,
    ) -> (res: Self)
        requires
            props_valid(*props),
            pending_valid(*props),
        ensures
            res.engine_id == engine_id,
            res.id == props.shard_id,
            res.ver == ver,
            res.range@ == range@,
            res.parent_id == 0,
            res.data@ == Data::empty(range@, inner_key_off),
            !res.active,
            res.properties@ == set_all(Map::empty(), *props),
            res.pending_ops@ == Pending::of(*props, range@.keyspace_id, schedule_at, storage_class),
            !res.initial_flushed,
            res.base_version == 0,
            res.meta_seq == 0,
            res.write_sequence == 0,
            res.encryption_key == first_value(ENCRYPTION_KEY@, *props),
            nothing_known(res),
    {
        let pending_ops = ShardPendingOperations::from_properties(
            props,
            range.keyspace_id,
            schedule_at,
            storage_class,
        );
        Shard {
            engine_id,
            id: props.shard_id,
            ver,
            range: range.clone(),
            parent_id: 0,
            data: ShardData::new_empty(range, inner_key_off),
            active: false,
            properties: Properties::new().apply_pb(props),
            pending_ops,
            compacting: false,
            initial_flushed: false,
            base_version: 0,
            estimated_size: 0,
            estimated_entries: 0,
            estimated_kv_size: 0,
            estimated_ia_kv_size: 0,
            estimated_columnar_size: 0,
            estimated_columnar_kv_size: 0,
            sst_max_ts: 0,
            max_ts: 0,
            gc_stats: GcStats {
                lv2plus_max_ts: 0,
                lv2plus_tombs: 0,
                lv2plus_entries_write_cf: 0,
                lv1plus_min_lock_file_max_ts: 0,
                lv1_min_max_extra_ts: 0,
            },
            meta_seq: 0,
            write_sequence: 0,
            compaction_priority: None,
            encryption_key: get_shard_property(ENCRYPTION_KEY, props),
            checked_schema_ver: 0,
            outdated_schema_ver: 0,
        }
    }

    /// An empty shard for the snapshot of a change set. One without a parent needs
    /// no first flush.
    pub fn new_for_ingest(
        engine_id: u64,
        cs: &pb::ChangeSet,
        schedule_at: u64,
        storage_class: StorageClassSpec,
    ) -> (res: Self)
        requires
            cs.snapshot matches Some(snap) && (snap.properties matches Some(props)
                ==> props_valid(props) && pending_valid(props)),
        ensures
            ({
                let snap = cs.snapshot->0;
                let props = snap.properties;
                let range = Range::between(content(snap.outer_start), content(snap.outer_end));
                &&& res.engine_id == engine_id
                &&& res.id == match props {
                    Some(p) => p.shard_id,
                    None => 0,
                }
                &&& res.ver == cs.shard_ver
                &&& res.range@ == range
                &&& res.data@ == Data::empty(range, snap.inner_key_off as usize)
                &&& res.properties@ == set_opt(Map::empty(), props)
                &&& res.pending_ops@ == Pending::of_opt(
                    props,
                    range.keyspace_id,
                    schedule_at,
                    storage_class,
                )
                &&& res.initial_flushed == (cs.parent is None)
                &&& res.parent_id == match cs.parent {
                    Some(parent) => parent.shard_id,
                    None => 0,
                }
                &&& res.base_version == snap.base_version
                &&& res.meta_seq == cs.sequence
                &&& res.write_sequence == snap.data_sequence
                &&& res.encryption_key == opt_value(ENCRYPTION_KEY@, props)
                &&& !res.active
                &&& nothing_known(res)
            }),
    {
        let snap = cs.snapshot.as_ref().unwrap();
        let none = pb::Properties::default();
        let props = match &snap.properties {
            Some(props) => props,
            None => &none,
        };
        let range = ShardRange::from_snap(snap);
        let mut shard = Self::new(
            engine_id,
            props,
            cs.shard_ver,
            range,
            snap.inner_key_off as usize,
            schedule_at,
            storage_class,
        );
        match &cs.parent {
            Some(parent) => {
                shard.parent_id = parent.shard_id;
            },
            None => {
                shard.initial_flushed = true;
            },
        }
        shard.base_version = snap.base_version;
        shard.meta_seq = cs.sequence;
        shard.write_sequence = snap.data_sequence;
        shard
    }

    /// The value of a property.
    pub fn get_property(&self, key: &str) -> (res: Option<Bytes>)
        ensures
            value_of(self.properties@, key@, res),
    {
        self.properties.get(key)
    }

    /// Sets a property and what it asks for. An empty request to compact is
    /// removed.
    pub fn set_property(
        &mut self,
        key: &str,
        val: &[u8],
        schedule_at: u64,
        storage_class: StorageClassSpec,
    )
        requires
            key@ == DEL_PREFIXES_KEY@ && val@.len() > 0 ==> decoded(val@) is Some,
        ensures
            final(self).properties@ == if key@ == MANUAL_MAJOR_COMPACTION@ && val@.len() == 0 {
                old(self).properties@.remove(key@)
            } else {
                old(self).properties@.insert(key@, val@)
            },
            final(self).pending_ops@ == old(self).pending_ops@.with_property(
                key@,
                val@,
                old(self).range@.keyspace_id,
                schedule_at,
                storage_class,
            ),
            *final(self) == (Shard {
                properties: final(self).properties,
                pending_ops: final(self).pending_ops,
                ..*old(self)
            }),
    {
        let ghost before = self.properties@;
        self.properties.set(key, val);
        if str_eq(key, MANUAL_MAJOR_COMPACTION) && val.len() == 0 {
            self.properties.remove(MANUAL_MAJOR_COMPACTION);
            assert(self.properties@ =~= before.remove(key@));
        }
        self.pending_ops.set_property(key, val, self.range.keyspace_id, schedule_at, storage_class);
    }

    /// Removes a property.
    pub fn del_property(&mut self, key: &str)
        ensures
            final(self).properties@ == old(self).properties@.remove(key@),
            *final(self) == (Shard { properties: final(self).properties, ..*old(self) }),
    {
        self.properties.remove(key);
    }

    /// Version of what is written next.
    pub fn load_mem_table_snap_version(&self) -> (res: SnapVersion)
        requires
            self.base_version + self.write_sequence <= u64::MAX,
        ensures
            res.version == self.base_version + self.write_sequence,
    {
        SnapVersion::new(self.base_version, self.write_sequence)
    }

    /// Highest timestamp of the shard, in files or in memory.
    pub fn get_max_ts(&self) -> (res: u64)
        ensures
            res == if self.max_ts >= mem_max_ts(self.data@.mem_tbls) {
                self.max_ts
            } else {
                mem_max_ts(self.data@.mem_tbls)
            },
    {
        let in_memory = self.data.get_mem_table_max_ts();
        if self.max_ts >= in_memory {
            self.max_ts
        } else {
            in_memory
        }
    }

    /// Moves the sequence of the last write on to what is in files, where a shard
    /// is recovered once more from the same change set.
    pub fn sync_data_sequence(&mut self, meta: &ShardMeta)
        ensures
            final(self).write_sequence == if old(self).meta_seq == meta@.seq && old(
                self,
            ).write_sequence < meta@.data_sequence {
                meta@.data_sequence
            } else {
                old(self).write_sequence
            },
            *final(self) == (Shard { write_sequence: final(self).write_sequence, ..*old(self) }),
    {
        if self.meta_seq == meta.seq && self.write_sequence < meta.data_sequence {
            self.write_sequence = meta.data_sequence;
        }
    }

    /// Whether the shard may be compacted.
    pub fn ready_to_compact(&self) -> (res: bool)
        ensures
            res == (self.active && self.initial_flushed),
    {
        self.active && self.initial_flushed
    }

    /// Whether a compaction is needed and none is running.
    pub fn has_failed_compaction(&self) -> (res: bool)
        ensures
            res == (!self.compacting && self.compaction_priority is Some),
    {
        !self.compacting && self.compaction_priority.is_some()
    }

    /// Whether the shard is empty, as far as is known: what is applied late does
    /// not show yet.
    pub fn is_empty(&self) -> (res: bool)
        ensures
            res == (self.estimated_size == 0 && forall|i: int|
                0 <= i < self.data@.mem_tbls.len() ==> (#[trigger] self.data@.mem_tbls[i]).keys.len()
                    == 0),
    {
        let mem_tbls = &self.data.mem_tbls;
        let mut i: usize = 0;
        while i < mem_tbls.len()
            invariant
                i <= mem_tbls@.len(),
                *mem_tbls == self.data.mem_tbls,
                forall|j: int|
                    0 <= j < i ==> (#[trigger] self.data@.mem_tbls[j]).keys.len() == 0,
            decreases mem_tbls@.len() - i,
        {
            if mem_tbls[i].keys.len() > 0 {
                assert(self.data@.mem_tbls[i as int].keys.len() > 0);
                return false;
            }
            i = i + 1;
        }
        self.estimated_size == 0
    }

    /// The memory tables of a parent that the shard has to keep.
    pub fn split_mem_tables(&self, parent_mem_tbls: &Vec<MemTable>) -> (res: Vec<MemTable>)
        ensures
            Seq::new(res@.len(), |i: int| res@[i]@) == mems_for(
                self.range@.inner_bound(),
                Seq::new(parent_mem_tbls@.len(), |i: int| parent_mem_tbls@[i]@),
            ),
    {
        let bound = self.range.data_bound();
        let ghost b = self.range@.inner_bound();
        let ghost all = Seq::new(parent_mem_tbls@.len(), |i: int| parent_mem_tbls@[i]@);
        let ghost p = |m: Mem| m.force_switch || m.in_bound(b);
        let mut res: Vec<MemTable> = Vec::new();
        res.push(MemTable::new());
        let mut i: usize = 0;
        proof {
            reveal(Seq::filter);
            assert(all.take(0).filter(p) =~= Seq::empty());
            assert(Seq::new(res@.len(), |i: int| res@[i]@) =~= seq![Mem::empty()] + all.take(
                0,
            ).filter(p));
        }
        while i < parent_mem_tbls.len()
            invariant
                i <= parent_mem_tbls@.len(),
                bound@ == b,
                all == Seq::new(parent_mem_tbls@.len(), |i: int| parent_mem_tbls@[i]@),
                p == (|m: Mem| m.force_switch || m.in_bound(b)),
                Seq::new(res@.len(), |i: int| res@[i]@) == seq![Mem::empty()] + all.take(
                    i as int,
                ).filter(p),
            decreases parent_mem_tbls@.len() - i,
        {
            let m = &parent_mem_tbls[i];
            proof {
                reveal(Seq::filter);
                assert(all.take(i + 1).drop_last() =~= all.take(i as int));
                assert(all.take(i + 1).last() == m@);
            }
            if m.force_switch || m.has_data_in_bound(bound) {
                let ghost before = res@;
                res.push(m.copy());
                assert(Seq::new(res@.len(), |i: int| res@[i]@) =~= Seq::new(
                    before.len(),
                    |i: int| before[i]@,
                ).push(m@));
                assert(seq![Mem::empty()] + all.take(i + 1).filter(p) =~= (seq![Mem::empty()]
                    + all.take(i as int).filter(p)).push(m@));
            }
            i = i + 1;
        }
        assert(all.take(i as int) =~= all);
        res
    }

    /// Takes from a parent what is recovered with it: memory tables, transaction
    /// files that hold locks, and the properties that change while it is recovered.
    pub fn add_parent_data(&mut self, parent: &Shard, schedule_at: u64)
        requires
            parent.properties@.contains_key(DEL_PREFIXES_KEY@) && parent.properties@[
                DEL_PREFIXES_KEY@
            ].len() > 0 ==> decoded(parent.properties@[DEL_PREFIXES_KEY@]) is Some,
            old(self).data.update_counter < u64::MAX,
        ensures
            final(self).properties@ == copied(
                copied(old(self).properties@, DEL_PREFIXES_KEY@, parent.properties@),
                TXN_FILE_REF@,
                parent.properties@,
            ),
            final(self).pending_ops@ == if parent.properties@.contains_key(DEL_PREFIXES_KEY@) {
                Pending {
                    deletion: deletion_set(
                        parent.properties@[DEL_PREFIXES_KEY@],
                        old(self).range@.keyspace_id,
                        schedule_at,
                    ),
                    ..old(self).pending_ops@
                }
            } else {
                old(self).pending_ops@
            },
            final(self).data@ == (Data {
                mem_tbls: mems_for(old(self).range@.inner_bound(), parent.data@.mem_tbls),
                lock_txn_files: parent.data@.lock_txn_files,
                update_counter: (old(self).data@.update_counter + 1) as u64,
                ..old(self).data@
            }),
            *final(self) == (Shard {
                properties: final(self).properties,
                pending_ops: final(self).pending_ops,
                data: final(self).data,
                ..*old(self)
            }),
    {
        let ghost before = *self;
        let mem_tbls = self.split_mem_tables(&parent.data.mem_tbls);
        let storage_class = self.pending_ops.storage_class_spec;
        proof {
            lemma_recovered_keys_differ();
        }
        if let Some(val) = parent.get_property(DEL_PREFIXES_KEY) {
            self.set_property(DEL_PREFIXES_KEY, &val, schedule_at, storage_class);
        }
        if let Some(val) = parent.get_property(TXN_FILE_REF) {
            self.set_property(TXN_FILE_REF, &val, schedule_at, storage_class);
        }
        self.data.mem_tbls = mem_tbls;
        self.data.lock_txn_files = copy_txn_files(&parent.data.lock_txn_files);
        self.data.update_counter = self.data.update_counter + 1;
        assert(self.data@ =~= Data {
            mem_tbls: mems_for(before.range@.inner_bound(), parent.data@.mem_tbls),
            lock_txn_files: parent.data@.lock_txn_files,
            update_counter: (before.data@.update_counter + 1) as u64,
            ..before.data@
        });
    }

    /// Whether old tables of locks are to be dropped; if so, that is noted.
    fn check_need_gc_lock_file(&mut self, safe_ts: u64) -> (res: bool)
        ensures
            res == (0 < old(self).gc_stats.lv1plus_min_lock_file_max_ts <= safe_ts && old(
                self,
            ).compaction_priority is None),
            res ==> priority_of(final(self).compaction_priority) == Some(Priority::GcLockFile),
            !res ==> *final(self) == *old(self),
            *final(self) == (Shard {
                compaction_priority: final(self).compaction_priority,
                ..*old(self)
            }),
    {
        let ts = self.gc_stats.lv1plus_min_lock_file_max_ts;
        if ts == 0 || ts > safe_ts || self.compaction_priority.is_some() {
            return false;
        }
        self.compaction_priority = Some(CompactionPriority::GcLockFile);
        true
    }

    /// Whether old tables of the extra column family are to be dropped; if so, that
    /// is noted.
    fn check_need_gc_extra_file(&mut self, safe_ts: u64) -> (res: bool)
        ensures
            res == (0 < old(self).gc_stats.lv1_min_max_extra_ts <= safe_ts && old(
                self,
            ).compaction_priority is None),
            res ==> priority_of(final(self).compaction_priority) == Some(Priority::GcExtraFile),
            !res ==> *final(self) == *old(self),
            *final(self) == (Shard {
                compaction_priority: final(self).compaction_priority,
                ..*old(self)
            }),
    {
        let ts = self.gc_stats.lv1_min_max_extra_ts;
        if ts == 0 || ts > safe_ts || self.compaction_priority.is_some() {
            return false;
        }
        self.compaction_priority = Some(CompactionPriority::GcExtraFile);
        true
    }

    /// Whether a compaction is to remove old versions; if so, that is noted.
    /// `tombs_count` is how many deletions are put up with, and `ratio_reached`
    /// says that their share among the entries is too high.
    ///
    /// Compactions of all levels are costly, so nothing is done where another is
    /// needed anyway.
    pub fn check_need_gc_tombstones(
        &mut self,
        safe_ts: u64,
        gc_lock_extra: bool,
        tombs_count: u64,
        ratio_reached: bool,
    ) -> (res: bool)
        ensures
            ({
                let g = old(self).gc_stats;
                let free = !old(self).compacting && old(self).compaction_priority is None && old(
                    self,
                ).pending_ops@.major is Disable;
                let extra = gc_lock_extra && 0 < g.lv1_min_max_extra_ts <= safe_ts;
                let lock = gc_lock_extra && 0 < g.lv1plus_min_lock_file_max_ts <= safe_ts;
                let tombs = g.lv2plus_max_ts <= safe_ts && tombs_count <= g.lv2plus_tombs
                    <= g.lv2plus_entries_write_cf && ratio_reached && old(
                    self,
                ).data@.col_levels.unconverted_l0s.len() == 0;
                &&& res == (free && (extra || lock || tombs))
                &&& priority_of(final(self).compaction_priority) == if !res {
                    priority_of(old(self).compaction_priority)
                } else if extra {
                    Some(Priority::GcExtraFile)
                } else if lock {
                    Some(Priority::GcLockFile)
                } else {
                    Some(Priority::Major { is_manual: false })
                }
            }),
            *final(self) == (Shard {
                compaction_priority: final(self).compaction_priority,
                ..*old(self)
            }),
    {
        let asked = match self.pending_ops.manual_major_compaction {
            MajorCompactionType::Disable => false,
            _ => true,
        };
        if self.compacting || self.compaction_priority.is_some() || asked {
            return false;
        }
        if gc_lock_extra && self.check_need_gc_extra_file(safe_ts) {
            return true;
        }
        if gc_lock_extra && self.check_need_gc_lock_file(safe_ts) {
            return true;
        }
        let g = self.gc_stats;
        if g.lv2plus_max_ts > safe_ts || g.lv2plus_tombs < tombs_count || g.lv2plus_entries_write_cf
            < g.lv2plus_tombs {
            return false;
        }
        if ratio_reached && !self.data.has_unconverted_l0s() {
            self.compaction_priority = Some(CompactionPriority::Major { is_manual: false });
            return true;
        }
        false
    }

    /// Whether the table is kept as columns.
    pub fn has_columnar_table(&self, table_id: i64) -> (res: bool)
        ensures
            res == (self.data@.schema_file is Some && self.data@.columnar_table_ids.contains(
                table_id,
            )),
    {
        self.data.schema_file.is_some() && contains_i64(
            &self.data.columnar_table_ids,
            table_id,
        )
    }
}

/// The properties with the value that another map has for a key, if it has one.
pub open spec fn copied(
    m: Map<Seq<char>, Seq<u8>>,
    key: Seq<char>,
    other: Map<Seq<char>, Seq<u8>>,
) -> Map<Seq<char>, Seq<u8>> {
    if other.contains_key(key) {
        m.insert(key, other[key])
    } else {
        m
    }
}

/// A copy of the transaction files.
pub fn copy_txn_files(v: &Vec<TxnFile>) -> (res: Vec<
    TxnFile,
>)
    ensures
        Seq::new(res@.len(), |i: int| res@[i]@) == Seq::new(v@.len(), |i: int| v@[i]@),
{
    let mut res: Vec<TxnFile> = Vec::new();
    let mut i: usize = 0;
    while i < v.len()
        invariant
            i <= v@.len(),
            res@.len() == i,
            forall|j: int| 0 <= j < i ==> (#[trigger] res@[j])@ == v@[j]@,
        decreases v@.len() - i,
    {
        res.push(
            TxnFile {
                start_ts: v[i].start_ts,
                chunk_ids: copy_u64s(&v[i].chunk_ids),
            },
        );
        i = i + 1;
    }
    assert(Seq::new(res@.len(), |i: int| res@[i]@) =~= Seq::new(v@.len(), |i: int| v@[i]@));
    res
}

} // verus!

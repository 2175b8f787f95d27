//! Changes that a shard has seen before.
use vstd::prelude::*;

use crate::bound::{is_sorted_by_lower_bound, Bound, BoundedDataSet, DataBound};
use crate::buf::content;
use crate::file_meta::{FileMeta, FileType};
use crate::files::{file_ids, file_is_at, has_file, ids_where};
use crate::lists::{contains_u64, retain_vec};
use crate::meta::{Meta, ShardMeta};
use crate::pb;
use crate::properties::{
    first_value, is_legacy_ingest, props_valid, same_value, INGEST_ID_KEY, STORAGE_CLASS_KEY,
};
use crate::text::str_eq;

verus! {

broadcast use vstd::std_specs::hash::group_hash_axioms;

/// Some listed file is not at the level.
pub open spec fn any_gone(
    files: Map<u64, FileMeta>,
    ids: Seq<u64>,
    level: u32,
    ft: FileType,
) -> bool {
    exists|i: int| 0 <= i < ids.len() && !has_file(files, #[trigger] ids[i], level, ft)
}

/// Some listed file is not at its level.
pub open spec fn any_del_gone(
    files: Map<u64, FileMeta>,
    dels: Seq<pb::TableDelete>,
    ft: FileType,
) -> bool {
    exists|i: int|
        0 <= i < dels.len() && !has_file(files, (#[trigger] dels[i]).id, dels[i].level, ft)
}

/// Some listed id is not among the full text files.
pub open spec fn any_packed_gone(files: Seq<pb::FtsPackedFileInfo>, ids: Seq<u64>) -> bool {
    exists|i: int| 0 <= i < ids.len() && !has_packed(files, #[trigger] ids[i])
}

/// A full text file has the id.
pub open spec fn has_packed(files: Seq<pb::FtsPackedFileInfo>, id: u64) -> bool {
    exists|j: int| 0 <= j < files.len() && (#[trigger] files[j]).id == id
}

/// Some listed id is not among the full text files.
pub open spec fn any_dedicated_gone(files: Seq<pb::FtsDedFileInfo>, ids: Seq<u64>) -> bool {
    exists|i: int| 0 <= i < ids.len() && !has_dedicated(files, #[trigger] ids[i])
}

/// A full text file has the id.
pub open spec fn has_dedicated(files: Seq<pb::FtsDedFileInfo>, id: u64) -> bool {
    exists|j: int| 0 <= j < files.len() && (#[trigger] files[j]).id == id
}

/// Nothing but new files is left of an ingestion.
pub open spec fn deduped(m: Meta, old_files: pb::IngestFiles, new_files: pb::IngestFiles) -> bool {
    &&& new_files.l0_creates@ == old_files.l0_creates@.filter(
        |f: pb::L0Create| !m.files.contains_key(f.id),
    )
    &&& new_files.table_creates@ == old_files.table_creates@.filter(
        |f: pb::TableCreate| !m.files.contains_key(f.id),
    )
    &&& new_files.blob_creates@ == old_files.blob_creates@.filter(
        |f: pb::BlobCreate| !m.files.contains_key(f.id),
    )
    &&& new_files.properties == old_files.properties
    &&& new_files.max_ts == old_files.max_ts
    &&& new_files.table_id == old_files.table_id
}

impl Meta {
    /// A file of the compaction is no longer where it was.
    pub open spec fn saw_compaction(self, c: pb::Compaction) -> bool {
        ||| any_gone(self.files, c.top_deletes@, c.level, FileType::Sst)
        ||| any_gone(self.files, c.bottom_deletes@, (c.level + 1) as u32, FileType::Sst)
    }

    /// A file of the compaction is no longer where it was.
    pub open spec fn saw_major_compaction(self, c: pb::MajorCompaction) -> bool {
        ||| any_del_gone(self.files, c.sstable_change.table_deletes@, FileType::Sst)
        ||| any_gone(self.files, c.old_blob_tables@, 0, FileType::Blob)
    }

    /// A table or columnar file of the compaction is already gone.
    pub open spec fn saw_columnar_compaction(self, c: pb::ColumnarCompaction) -> bool {
        if c.target_level == 0 {
            exists|i: int|
                0 <= i < c.row_l0s@.len() && !self.unconverted_l0s.contains(#[trigger] c.row_l0s@[i])
        } else if c.target_level == 1 || c.target_level == 2 {
            any_del_gone(self.files, c.columnar_change.columnar_deletes@, FileType::Columnar)
        } else {
            false
        }
    }

    /// A file of the change is no longer where it was.
    pub open spec fn saw_table_change(self, tc: pb::TableChange) -> bool {
        ||| any_del_gone(self.files, tc.table_deletes@, FileType::Sst)
        ||| any_del_gone(self.files, tc.columnar_deletes@, FileType::Columnar)
    }

    /// The files are of an older version, or a file that is to leave is gone.
    pub open spec fn saw_fts_update(self, u: pb::FtsUpdate) -> bool {
        ||| 0 < u.set_snap_version < self.fts_l0_snap_version.version
        ||| any_packed_gone(self.fts_l0_files, u.l0_remove_files@)
        ||| any_packed_gone(self.fts_l1_files, u.l1_remove_files@)
        ||| any_dedicated_gone(self.fts_l2_files, u.l2_remove_files@)
    }

    /// The schema is no newer. A shard without a schema file takes one of the
    /// same version.
    pub open spec fn saw_schema(self, sm: pb::SchemaMeta) -> bool {
        if self.schema.valid() {
            self.schema.schema_file_ver >= sm.version
        } else {
            self.schema.schema_file_ver > sm.version
        }
    }

    /// A legacy ingestion with the id of the last one, or any other that brings no
    /// new file.
    pub open spec fn saw_ingestion(self, f: pb::IngestFiles) -> bool {
        match first_value(INGEST_ID_KEY@, f.properties) {
            Some(id) => self.props.contains_key(INGEST_ID_KEY@) && self.props[INGEST_ID_KEY@]
                == content(id),
            None => {
                &&& forall|i: int|
                    0 <= i < f.l0_creates@.len() ==> self.files.contains_key(
                        (#[trigger] f.l0_creates@[i]).id,
                    )
                &&& forall|i: int|
                    0 <= i < f.table_creates@.len() ==> self.files.contains_key(
                        (#[trigger] f.table_creates@[i]).id,
                    )
                &&& forall|i: int|
                    0 <= i < f.blob_creates@.len() ==> self.files.contains_key(
                        (#[trigger] f.blob_creates@[i]).id,
                    )
            },
        }
    }

    /// The change is of an earlier sequence, or a flush that was seen.
    pub open spec fn saw_flush(self, cs: pb::ChangeSet) -> bool {
        ||| self.seq >= cs.sequence
        ||| cs.initial_flush is Some && self.parent is None
        ||| cs.flush is Some && (cs.flush->0).version <= self.version()
    }

    /// That, or a compaction of two levels that was seen.
    pub open spec fn saw_to_compaction(self, cs: pb::ChangeSet) -> bool {
        self.saw_flush(cs) || (cs.compaction is Some && self.saw_compaction(cs.compaction->0))
    }

    /// That, or a compaction or a change of tables that was seen.
    pub open spec fn saw_to_change(self, cs: pb::ChangeSet) -> bool {
        ||| self.saw_to_compaction(cs)
        ||| cs.major_compaction is Some && self.saw_major_compaction(cs.major_compaction->0)
        ||| cs.columnar_compaction is Some && self.saw_columnar_compaction(
            cs.columnar_compaction->0,
        )
        ||| cs.destroy_range is Some && self.saw_table_change(cs.destroy_range->0)
        ||| cs.truncate_ts is Some && self.saw_table_change(cs.truncate_ts->0)
        ||| cs.trim_over_bound is Some && self.saw_table_change(cs.trim_over_bound->0)
    }

    /// The change set was seen before, in one of its parts. `current` is what the
    /// shard's storage class says.
    pub open spec fn saw(self, cs: pb::ChangeSet, current: pb::StorageClassSpec) -> bool {
        ||| self.saw_to_change(cs)
        ||| cs.ingest_files is Some && self.saw_ingestion(cs.ingest_files->0)
        ||| cs.update_schema_meta is Some && self.saw_schema(cs.update_schema_meta->0)
        ||| cs.fts_update is Some && self.saw_fts_update(cs.fts_update->0)
        ||| cs.property_key@ == STORAGE_CLASS_KEY@ && current == cs.storage_class
    }

    /// A file of the bottom level of committed data.
    pub open spec fn is_bottom_write(fm: FileMeta) -> bool {
        fm.cf == 0 && fm.level == 3
    }

    /// The highest level with a table, the bottom level where there is none.
    pub open spec fn top_level(self, level: u8) -> bool {
        ||| level == 3 && forall|id: u64| #[trigger]
            self.files.contains_key(id) ==> !(self.files[id].file_type is Sst)
        ||| {
            &&& exists|id: u64| #[trigger]
                self.files.contains_key(id) && self.files[id].file_type is Sst
                    && self.files[id].level == level
            &&& forall|id: u64| #[trigger]
                self.files.contains_key(id) && self.files[id].file_type is Sst
                    ==> self.files[id].level >= level
        }
    }

    /// A file of committed data at the level overlaps the bound.
    pub open spec fn overlapped_at(self, level: u8, b: Bound) -> bool {
        exists|id: u64| #[trigger]
            self.files.contains_key(id) && self.files[id].level == level && self.files[id].cf == 0
                && b.overlaps(self.files[id].bound())
    }
}

/// Whether a full text file has the id.
fn packed_has(files: &Vec<pb::FtsPackedFileInfo>, id: u64) -> (res: bool)
    ensures
        res == has_packed(files@, id),
{
    let mut i: usize = 0;
    while i < files.len()
        invariant
            i <= files@.len(),
            forall|j: int| 0 <= j < i ==> (#[trigger] files@[j]).id != id,
        decreases files@.len() - i,
    {
        if files[i].id == id {
            return true;
        }
        i = i + 1;
    }
    false
}

/// Whether a full text file has the id.
fn dedicated_has(files: &Vec<pb::FtsDedFileInfo>, id: u64) -> (res: bool)
    ensures
        res == has_dedicated(files@, id),
{
    let mut i: usize = 0;
    while i < files.len()
        invariant
            i <= files@.len(),
            forall|j: int| 0 <= j < i ==> (#[trigger] files@[j]).id != id,
        decreases files@.len() - i,
    {
        if files[i].id == id {
            return true;
        }
        i = i + 1;
    }
    false
}

fn packed_gone(files: &Vec<pb::FtsPackedFileInfo>, ids: &Vec<u64>) -> (res: bool)
    ensures
        res == any_packed_gone(files@, ids@),
{
    let mut i: usize = 0;
    while i < ids.len()
        invariant
            i <= ids@.len(),
            forall|j: int| 0 <= j < i ==> has_packed(files@, #[trigger] ids@[j]),
        decreases ids@.len() - i,
    {
        if !packed_has(files, ids[i]) {
            return true;
        }
        i = i + 1;
    }
    false
}

fn dedicated_gone(files: &Vec<pb::FtsDedFileInfo>, ids: &Vec<u64>) -> (res: bool)
    ensures
        res == any_dedicated_gone(files@, ids@),
{
    let mut i: usize = 0;
    while i < ids.len()
        invariant
            i <= ids@.len(),
            forall|j: int| 0 <= j < i ==> has_dedicated(files@, #[trigger] ids@[j]),
        decreases ids@.len() - i,
    {
        if !dedicated_has(files, ids[i]) {
            return true;
        }
        i = i + 1;
    }
    false
}

/// A list is empty after items are dropped only where all of them are.
proof fn lemma_filter_empty<T>(s: Seq<T>, p: spec_fn(T) -> bool)
    ensures
        s.filter(p).len() == 0 <==> forall|i: int| 0 <= i < s.len() ==> !p(#[trigger] s[i]),
{
    broadcast use vstd::seq_lib::group_filter_ensures;

    if s.filter(p).len() == 0 {
        assert forall|i: int| 0 <= i < s.len() implies !p(#[trigger] s[i]) by {
            if p(s[i]) {
                assert(s.filter(p).contains(s[i]));
            }
        }
    } else {
        let x = s.filter(p)[0];
        assert(s.filter(p).contains(x));
        s.lemma_filter_contains_rev(p, x);
        let i = choose|i: int| 0 <= i < s.len() && s[i] == x;
        assert(p(s[i]));
    }
}

impl ShardMeta {
    /// Whether some listed file is not at the level.
    fn any_file_gone(&self, ids: &Vec<u64>, level: u32, ft: FileType) -> (res: bool)
        ensures
            res == any_gone(self@.files, ids@, level, ft),
    {
        let mut i: usize = 0;
        while i < ids.len()
            invariant
                i <= ids@.len(),
                forall|j: int|
                    0 <= j < i ==> has_file(self.files@, #[trigger] ids@[j], level, ft),
            decreases ids@.len() - i,
        {
            if !file_is_at(&self.files, ids[i], level, ft) {
                return true;
            }
            i = i + 1;
        }
        false
    }

    /// Whether some listed file is not at its level.
    fn any_table_gone(&self, dels: &Vec<pb::TableDelete>, ft: FileType) -> (res: bool)
        ensures
            res == any_del_gone(self@.files, dels@, ft),
    {
        let mut i: usize = 0;
        while i < dels.len()
            invariant
                i <= dels@.len(),
                forall|j: int|
                    0 <= j < i ==> has_file(
                        self.files@,
                        (#[trigger] dels@[j]).id,
                        dels@[j].level,
                        ft,
                    ),
            decreases dels@.len() - i,
        {
            if !file_is_at(&self.files, dels[i].id, dels[i].level, ft) {
                return true;
            }
            i = i + 1;
        }
        false
    }

    /// Whether the compaction was seen; if so, it is marked void.
    pub fn is_duplicated_compaction(&self, comp: &mut pb::Compaction) -> (res: bool)
        requires
            old(comp).level < u32::MAX,
        ensures
            res == self@.saw_compaction(*old(comp)),
            *final(comp) == (pb::Compaction {
                conflicted: old(comp).conflicted || res,
                ..*old(comp)
            }),
    {
        if self.any_file_gone(&comp.top_deletes, comp.level, FileType::Sst) || self.any_file_gone(
            &comp.bottom_deletes,
            comp.level + 1,
            FileType::Sst,
        ) {
            comp.conflicted = true;
            return true;
        }
        false
    }

    /// Whether the compaction was seen; if so, it is marked void.
    pub fn is_duplicated_major_compaction(&self, comp: &mut pb::MajorCompaction) -> (res: bool)
        ensures
            res == self@.saw_major_compaction(*old(comp)),
            *final(comp) == (pb::MajorCompaction {
                conflicted: old(comp).conflicted || res,
                ..*old(comp)
            }),
    {
        if self.any_table_gone(&comp.sstable_change.table_deletes, FileType::Sst)
            || self.any_file_gone(&comp.old_blob_tables, 0, FileType::Blob) {
            comp.conflicted = true;
            return true;
        }
        false
    }

    /// Whether the compaction was seen.
    pub fn is_duplicated_columnar_compaction(&self, comp: &pb::ColumnarCompaction) -> (res: bool)
        ensures
            res == self@.saw_columnar_compaction(*comp),
    {
        if comp.target_level == 0 {
            let mut i: usize = 0;
            while i < comp.row_l0s.len()
                invariant
                    i <= comp.row_l0s@.len(),
                    comp.target_level == 0,
                    forall|j: int|
                        0 <= j < i ==> self@.unconverted_l0s.contains(#[trigger] comp.row_l0s@[j]),
                decreases comp.row_l0s@.len() - i,
            {
                if !contains_u64(&self.unconverted_l0s, comp.row_l0s[i]) {
                    assert(!self@.unconverted_l0s.contains(comp.row_l0s@[i as int]));
                    return true;
                }
                i = i + 1;
            }
            return false;
        }
        if comp.target_level == 1 || comp.target_level == 2 {
            return self.any_table_gone(
                &comp.columnar_change.columnar_deletes,
                FileType::Columnar,
            );
        }
        false
    }

    /// Whether the change was seen.
    pub fn is_duplicated_table_change(&self, tc: &pb::TableChange) -> (res: bool)
        ensures
            res == self@.saw_table_change(*tc),
    {
        self.any_table_gone(&tc.table_deletes, FileType::Sst) || self.any_table_gone(
            &tc.columnar_deletes,
            FileType::Columnar,
        )
    }

    /// Whether the change replaces no file.
    pub fn is_empty_table_change(tc: &pb::TableChange) -> (res: bool)
        ensures
            res == (tc.table_deletes@.len() == 0 && tc.table_creates@.len() == 0
                && tc.columnar_deletes@.len() == 0 && tc.columnar_creates@.len() == 0),
    {
        tc.table_deletes.len() == 0 && tc.table_creates.len() == 0 && tc.columnar_deletes.len()
            == 0 && tc.columnar_creates.len() == 0
    }

    /// Whether the change was seen.
    pub fn is_duplicated_fts_update(&self, update: &pb::FtsUpdate) -> (res: bool)
        ensures
            res == self@.saw_fts_update(*update),
    {
        if update.set_snap_version > 0 && update.set_snap_version
            < self.fts_l0_snap_version.into_inner() {
            return true;
        }
        packed_gone(&self.fts_l0_files, &update.l0_remove_files) || packed_gone(
            &self.fts_l1_files,
            &update.l1_remove_files,
        ) || dedicated_gone(&self.fts_l2_files, &update.l2_remove_files)
    }

    /// Drops the files that the shard has from an ingestion; whether none is left.
    ///
    /// A file comes twice where a client tries again, or where one of two merged
    /// shards had it.
    pub fn dedup_ingest_files_of_load_data(&self, ingest_files: &mut pb::IngestFiles) -> (res: bool)
        ensures
            deduped(self@, *old(ingest_files), *final(ingest_files)),
            res == (final(ingest_files).l0_creates@.len() == 0
                && final(ingest_files).table_creates@.len() == 0
                && final(ingest_files).blob_creates@.len() == 0),
    {
        let files = &self.files;
        let mut l0s: Vec<pb::L0Create> = Vec::new();
        std::mem::swap(&mut l0s, &mut ingest_files.l0_creates);
        let keep_l0 = |f: &pb::L0Create| -> (b: bool)
            ensures
                b == !files@.contains_key(f.id),
            {
                !files.contains_key(&f.id)
            };
        ingest_files.l0_creates =
        retain_vec(l0s, keep_l0, Ghost(|f: pb::L0Create| !files@.contains_key(f.id)));
        let mut tables: Vec<pb::TableCreate> = Vec::new();
        std::mem::swap(&mut tables, &mut ingest_files.table_creates);
        let keep_table = |f: &pb::TableCreate| -> (b: bool)
            ensures
                b == !files@.contains_key(f.id),
            {
                !files.contains_key(&f.id)
            };
        ingest_files.table_creates =
        retain_vec(tables, keep_table, Ghost(|f: pb::TableCreate| !files@.contains_key(f.id)));
        let mut blobs: Vec<pb::BlobCreate> = Vec::new();
        std::mem::swap(&mut blobs, &mut ingest_files.blob_creates);
        let keep_blob = |f: &pb::BlobCreate| -> (b: bool)
            ensures
                b == !files@.contains_key(f.id),
            {
                !files.contains_key(&f.id)
            };
        ingest_files.blob_creates =
        retain_vec(blobs, keep_blob, Ghost(|f: pb::BlobCreate| !files@.contains_key(f.id)));
        ingest_files.l0_creates.len() == 0 && ingest_files.table_creates.len() == 0
            && ingest_files.blob_creates.len() == 0
    }

    /// Whether the ingestion was seen; of one that is not legacy, the files that
    /// the shard has are dropped.
    fn is_duplicated_ingestion(&self, ingest_files: &mut pb::IngestFiles) -> (res: bool)
        requires
            props_valid(old(ingest_files).properties),
        ensures
            res == self@.saw_ingestion(*old(ingest_files)),
            if first_value(INGEST_ID_KEY@, old(ingest_files).properties) is Some {
                *final(ingest_files) == *old(ingest_files)
            } else {
                deduped(self@, *old(ingest_files), *final(ingest_files))
            },
    {
        match is_legacy_ingest(ingest_files) {
            Some(ingest_id) => match self.get_property(INGEST_ID_KEY) {
                Some(old_ingest_id) => same_value(&ingest_id, &old_ingest_id),
                None => false,
            },
            None => {
                proof {
                    let m = self@;
                    lemma_filter_empty(
                        ingest_files.l0_creates@,
                        |f: pb::L0Create| !m.files.contains_key(f.id),
                    );
                    lemma_filter_empty(
                        ingest_files.table_creates@,
                        |f: pb::TableCreate| !m.files.contains_key(f.id),
                    );
                    lemma_filter_empty(
                        ingest_files.blob_creates@,
                        |f: pb::BlobCreate| !m.files.contains_key(f.id),
                    );
                }
                self.dedup_ingest_files_of_load_data(ingest_files)
            },
        }
    }

    /// Whether the change set was seen before and must not be applied again.
    /// `current` is what the shard's storage class says.
    ///
    /// A compaction that was seen is marked void, so that its files are collected;
    /// of an ingestion, the files that the shard has are dropped.
    pub fn is_duplicated_change_set(
        &self,
        cs: &mut pb::ChangeSet,
        current: pb::StorageClassSpec,
    ) -> (res: bool)
        requires
            self@.seq < old(cs).sequence ==> {
                &&& old(cs).flush is Some ==> self@.version() <= u64::MAX
                &&& old(cs).compaction matches Some(c) ==> c.level < u32::MAX
                &&& old(cs).ingest_files matches Some(f) ==> props_valid(f.properties)
            },
        ensures
            res == self@.saw(*old(cs), current),
            self@.marks(*old(cs), *final(cs)),
    {
        if self.seq >= cs.sequence {
            return true;
        }
        if cs.initial_flush.is_some() && self.initial_flushed() {
            return true;
        }
        if let Some(flush) = &cs.flush {
            if flush.version <= self.data_version() {
                return true;
            }
        }
        if let Some(comp) = &mut cs.compaction {
            if self.is_duplicated_compaction(comp) {
                return true;
            }
        }
        if let Some(comp) = &mut cs.major_compaction {
            if self.is_duplicated_major_compaction(comp) {
                return true;
            }
        }
        if let Some(comp) = &cs.columnar_compaction {
            if self.is_duplicated_columnar_compaction(comp) {
                return true;
            }
        }
        if let Some(tc) = &cs.destroy_range {
            if self.is_duplicated_table_change(tc) {
                return true;
            }
        }
        if let Some(tc) = &cs.truncate_ts {
            if self.is_duplicated_table_change(tc) {
                return true;
            }
        }
        if let Some(tc) = &cs.trim_over_bound {
            if self.is_duplicated_table_change(tc) {
                return true;
            }
        }
        if let Some(ingest_files) = &mut cs.ingest_files {
            if self.is_duplicated_ingestion(ingest_files) {
                return true;
            }
        }
        if let Some(sm) = &cs.update_schema_meta {
            let seen = if self.schema.is_valid() {
                self.schema.file_ver() >= sm.version
            } else {
                self.schema.file_ver() > sm.version
            };
            if seen {
                return true;
            }
        }
        if let Some(update) = &cs.fts_update {
            if self.is_duplicated_fts_update(update) {
                return true;
            }
        }
        if str_eq(cs.property_key.as_str(), STORAGE_CLASS_KEY) {
            return current == cs.storage_class;
        }
        false
    }

    /// A file of the shard and one of the ingestion that overlap, by their ids.
    ///
    /// Files of an ingestion go to the bottom level of committed data.
    pub fn check_overlap_for_load_data(&self, ingest_files: &pb::IngestFiles) -> (res: Option<
        (u64, u64),
    >)
        ensures
            match res {
                Some((existed, new)) => self@.files.contains_key(existed) && Meta::is_bottom_write(
                    self@.files[existed],
                ) && exists|i: int|
                    {
                        &&& 0 <= i < ingest_files.table_creates@.len()
                        &&& (#[trigger] ingest_files.table_creates@[i]).id == new
                        &&& self@.files[existed].bound().overlaps(
                            ingest_files.table_creates@[i].bound(),
                        )
                        &&& forall|j: int|
                            0 <= j < i ==> !self@.files[existed].bound().overlaps(
                                (#[trigger] ingest_files.table_creates@[j]).bound(),
                            )
                    },
                None => forall|id: u64, i: int|
                    #[trigger]
                    self@.files.contains_key(id) && Meta::is_bottom_write(self@.files[id]) && 0 <= i
                        < ingest_files.table_creates@.len() ==> !self@.files[id].bound().overlaps(
                        (#[trigger] ingest_files.table_creates@[i]).bound(),
                    ),
            },
    {
        let tables = ingest_files.table_creates.as_slice();
        let is_sorted = is_sorted_by_lower_bound(tables);
        let keep = |id: u64, fm: &FileMeta| -> (b: bool)
            ensures
                b == Meta::is_bottom_write(*fm),
            {
                fm.cf == 0 && fm.level == 3
            };
        let ghost p = |id: u64, fm: FileMeta| Meta::is_bottom_write(fm);
        let ids = ids_where(&self.files, keep, Ghost(p));
        let mut i: usize = 0;
        while i < ids.len()
            invariant
                i <= ids@.len(),
                tables@ == ingest_files.table_creates@,
                is_sorted == crate::bound::lower_ends_sorted(tables@),
                ids@.to_set() == crate::files::ids_with(self.files@, p),
                p == (|id: u64, fm: FileMeta| Meta::is_bottom_write(fm)),
                forall|a: int, j: int|
                    0 <= a < i && 0 <= j < tables@.len()
                        ==> !self.files@[#[trigger] ids@[a]].bound().overlaps(
                        (#[trigger] tables@[j]).bound(),
                    ),
            decreases ids@.len() - i,
        {
            assert(ids@.to_set().contains(ids@[i as int]));
            let existed_file = self.files.get(&ids[i]).unwrap();
            if let Some(j) = existed_file.data_bound().find_overlap(tables, is_sorted) {
                assert(ingest_files.table_creates@[j as int].id == tables@[j as int].id);
                return Some((ids[i], tables[j].id));
            }
            i = i + 1;
        }
        proof {
            assert forall|id: u64, j: int|
                #[trigger]
                self@.files.contains_key(id) && Meta::is_bottom_write(self@.files[id]) && 0 <= j
                    < ingest_files.table_creates@.len() implies !self@.files[id].bound().overlaps(
                (#[trigger] ingest_files.table_creates@[j]).bound(),
            ) by {
                assert(crate::files::ids_with(self.files@, p).contains(id));
                assert(ids@.to_set().contains(id));
                let a = choose|a: int| 0 <= a < ids@.len() && ids@[a] == id;
                assert(self.files@[ids@[a]].bound() == self@.files[id].bound());
                assert(tables@[j] == ingest_files.table_creates@[j]);
            }
        }
        None
    }

    /// The level that a table with the bound may be ingested at: the highest level
    /// that has tables, or the one above where it overlaps a table there.
    pub fn get_ingest_level(&self, table_bound: DataBound<'_>) -> (res: u32)
        ensures
            exists|level: u8| #[trigger]
                self@.top_level(level) && res == if level > 0 && self@.overlapped_at(
                    level,
                    table_bound@,
                ) {
                    level - 1
                } else {
                    level as int
                },
    {
        let ids = file_ids(&self.files);
        let mut found = false;
        let mut top: u8 = 3;
        let mut i: usize = 0;
        while i < ids.len()
            invariant
                i <= ids@.len(),
                ids@.to_set() == self.files@.dom(),
                !found ==> top == 3 && forall|a: int|
                    0 <= a < i ==> !(self.files@[#[trigger] ids@[a]].file_type is Sst),
                found ==> exists|a: int|
                    0 <= a < i && self.files@[#[trigger] ids@[a]].file_type is Sst
                        && self.files@[ids@[a]].level == top,
                found ==> forall|a: int|
                    0 <= a < i && self.files@[#[trigger] ids@[a]].file_type is Sst
                        ==> self.files@[ids@[a]].level >= top,
            decreases ids@.len() - i,
        {
            assert(ids@.to_set().contains(ids@[i as int]));
            let fm = self.files.get(&ids[i]).unwrap();
            if fm.is_sst_file() && (!found || fm.level < top) {
                found = true;
                top = fm.level;
                assert(self.files@[ids@[i as int]].level == top);
            }
            i = i + 1;
        }
        proof {
            assert forall|id: u64| #[trigger] self@.files.contains_key(id) implies exists|a: int|
                0 <= a < ids@.len() && #[trigger] ids@[a] == id by {
                assert(ids@.to_set().contains(id));
            }
            if found {
                let a = choose|a: int|
                    0 <= a < ids@.len() && self.files@[#[trigger] ids@[a]].file_type is Sst
                        && self.files@[ids@[a]].level == top;
                assert(ids@.to_set().contains(ids@[a]));
                assert(self@.files.contains_key(ids@[a]));
            }
            assert(self@.top_level(top));
        }
        if top == 0 {
            return 0;
        }
        let mut k: usize = 0;
        while k < ids.len()
            invariant
                k <= ids@.len(),
                top > 0,
                self@.top_level(top),
                ids@.to_set() == self.files@.dom(),
                forall|a: int|
                    0 <= a < k && self.files@[#[trigger] ids@[a]].level == top
                        && self.files@[ids@[a]].cf == 0 ==> !table_bound@.overlaps(
                        self.files@[ids@[a]].bound(),
                    ),
            decreases ids@.len() - k,
        {
            assert(ids@.to_set().contains(ids@[k as int]));
            let fm = self.files.get(&ids[k]).unwrap();
            if fm.level == top && fm.cf == 0 && table_bound.overlap_bound(fm.data_bound()) {
                assert(self@.files.contains_key(ids@[k as int]));
                assert(self@.overlapped_at(top, table_bound@));
                return (top - 1) as u32;
            }
            k = k + 1;
        }
        proof {
            assert(!self@.overlapped_at(top, table_bound@)) by {
                if self@.overlapped_at(top, table_bound@) {
                    let id = choose|id: u64| #[trigger]
                        self@.files.contains_key(id) && self@.files[id].level == top
                            && self@.files[id].cf == 0 && table_bound@.overlaps(
                            self@.files[id].bound(),
                        );
                    assert(ids@.to_set().contains(id));
                    let a = choose|a: int| 0 <= a < ids@.len() && ids@[a] == id;
                    assert(self.files@[ids@[a]].level == top);
                }
            }
        }
        top as u32
    }
}

impl Meta {
    /// What becomes of a change set that is looked at: a compaction that was seen is void,
    /// and an ingestion loses the files that the shard has.
    pub open spec fn marks(self, cs: pb::ChangeSet, after: pb::ChangeSet) -> bool {
        &&& after == (pb::ChangeSet {
            compaction: match cs.compaction {
                Some(c) => Some(
                    pb::Compaction {
                        conflicted: c.conflicted || (!self.saw_flush(cs) && self.saw_compaction(c)),
                        ..c
                    },
                ),
                None => None,
            },
            major_compaction: match cs.major_compaction {
                Some(c) => Some(
                    pb::MajorCompaction {
                        conflicted: c.conflicted || (!self.saw_to_compaction(cs)
                            && self.saw_major_compaction(c)),
                        ..c
                    },
                ),
                None => None,
            },
            ingest_files: after.ingest_files,
            ..cs
        })
        &&& match (cs.ingest_files, after.ingest_files) {
            (Some(before), Some(after)) => if self.saw_to_change(cs) || first_value(
                INGEST_ID_KEY@,
                before.properties,
            ) is Some {
                after == before
            } else {
                deduped(self, before, after)
            },
            (None, None) => true,
            _ => false,
        }
    }
}

/// A change set whose sequence is not higher than the shard's is known as seen, whatever it
/// holds, and stays as it is when it is looked at.
pub proof fn law_old_change_sets_are_seen(
    m: Meta,
    cs: pb::ChangeSet,
    after: pb::ChangeSet,
    current: pb::StorageClassSpec,
)
    requires
        cs.sequence <= m.seq,
    ensures
        m.saw(cs, current),
        m.marks(cs, after) ==> after == cs,
{
}

/// Once a change set is applied, it is known as seen, and stays as it is when it is looked
/// at again.
pub proof fn law_applied_is_seen(
    m: Meta,
    cs: pb::ChangeSet,
    after: pb::ChangeSet,
    current: pb::StorageClassSpec,
)
    ensures
        m.applied(cs).seq == cs.sequence,
        m.applied(cs).saw(cs, current),
        m.applied(cs).marks(cs, after) ==> after == cs,
{
    law_old_change_sets_are_seen(m.applied(cs), cs, after, current);
}

/// Whatever was seen of a flush stays seen after other flushes.
pub proof fn law_flush_stays_seen(m: Meta, f: pb::Flush, g: pb::Flush)
    requires
        f.version <= m.version(),
        g.version >= m.base_version,
    ensures
        f.version <= m.flushed(g).version(),
        g.version <= m.flushed(g).version(),
{
}

} // verus!

//! How each file is read.
use std::collections::HashMap;

use vstd::prelude::*;

use crate::file_meta::{FileMeta, FileType};
use crate::files::file_ids;
use crate::ia::cache::SegmentMap;
use crate::ia::segment::FileSegmentIdent;
use crate::lists::contains_u64;
use crate::pb;
use crate::pb::StorageClassSpec;
use crate::prepare::collect::{
    collect_ids_from_snapshot, collect_snap_lock_txn_file_refs, reads, refs_with_locks, PrepareType,
};
use crate::prepare::kind::{kind_of_file, FilePrepareType};
use crate::prepare::plan::{sealed_key, KeySource};
use crate::properties::{get_shard_property, opt_props_valid, ENCRYPTION_KEY};
use crate::WRITE_CF;

verus! {

broadcast use vstd::std_specs::hash::group_hash_axioms;

/// How a file of a shard is made readable, where parts of files can be cached and
/// where not.
pub fn prepare_type_of(
    ia_enabled: bool,
    shard_prepare_type: FilePrepareType,
    fm: &FileMeta,
    force_ia: bool,
) -> (res: FilePrepareType)
    ensures
        res == if ia_enabled {
            kind_of_file(shard_prepare_type, *fm, force_ia)
        } else {
            FilePrepareType::Local
        },
{
    if ia_enabled {
        shard_prepare_type.convert_for_prepare_table(fm, force_ia)
    } else {
        FilePrepareType::Local
    }
}

/// Which part of what was read is the table meta.
#[derive(Clone, Copy, Debug, PartialEq, Eq, Structural)]
pub enum TableMetaPart {
    /// All of it.
    All,
    /// What the footer of a table says.
    OfTable,
    /// What the footer of a vector index says.
    OfVectorIndex,
}

/// Which part of what was read from the offset of the table meta on is the table
/// meta. Where the offset is not known the whole file was read.
pub fn table_meta_part(fm: &FileMeta) -> (res: TableMetaPart)
    ensures
        res == if fm.table_meta_off > 0 {
            TableMetaPart::All
        } else {
            match fm.file_type {
                FileType::Sst => TableMetaPart::OfTable,
                FileType::VectorIndex => TableMetaPart::OfVectorIndex,
                _ => TableMetaPart::All,
            }
        },
{
    if fm.table_meta_off > 0 {
        return TableMetaPart::All;
    }
    match fm.file_type {
        FileType::Sst => TableMetaPart::OfTable,
        FileType::VectorIndex => TableMetaPart::OfVectorIndex,
        _ => TableMetaPart::All,
    }
}

/// What is open of a file that becomes remote once its data is old enough.
#[derive(Clone, Copy, Debug, PartialEq, Eq, Structural)]
pub enum AutoIaOpened {
    /// Its table meta, and that is enough.
    Remote,
    /// Its table meta and the whole file.
    Local,
    /// Its table meta; the whole file has to be read.
    NeedData,
    /// Nothing.
    NeedMeta,
}

/// What is open of a file that becomes remote once its data is `age_ms` old enough.
/// `has_meta` says that its table meta could be opened, `has_data` that the whole
/// file could.
pub fn open_local_auto_ia_file(
    spec: &StorageClassSpec,
    age_ms: u64,
    has_meta: bool,
    has_data: bool,
) -> (res: AutoIaOpened)
    ensures
        res == if !has_meta {
            AutoIaOpened::NeedMeta
        } else if spec.class_at(age_ms) is Ia {
            AutoIaOpened::Remote
        } else if has_data {
            AutoIaOpened::Local
        } else {
            AutoIaOpened::NeedData
        },
{
    if !has_meta {
        return AutoIaOpened::NeedMeta;
    }
    if spec.target_storage_class(age_ms).is_ia() {
        AutoIaOpened::Remote
    } else if has_data {
        AutoIaOpened::Local
    } else {
        AutoIaOpened::NeedData
    }
}

/// What is done with data that is to be kept in a local file.
#[derive(Clone, Copy, Debug, PartialEq, Eq, Structural)]
pub enum WriteLocal {
    /// It is written.
    Write,
    /// It is there.
    Keep,
    /// A file of another size is there.
    InvalidFileSize,
}

/// What is done with data that is to be kept in a local file; `present` is the size
/// of the file that is there.
pub fn write_local_file_if_not_exists(present: Option<u64>, data_len: u64) -> (res: WriteLocal)
    ensures
        res == match present {
            None => WriteLocal::Write,
            Some(size) => if size == data_len {
                WriteLocal::Keep
            } else {
                WriteLocal::InvalidFileSize
            },
        },
{
    match present {
        None => WriteLocal::Write,
        Some(size) => if size != data_len {
            WriteLocal::InvalidFileSize
        } else {
            WriteLocal::Keep
        },
    }
}

/// Keeps the number of files that are being read from remote bounded.
pub struct RemoteLoads {
    limit: usize,
    pending: usize,
}

impl RemoteLoads {
    /// How many files are being read.
    pub closed spec fn under_way(self) -> int {
        self.pending as int
    }

    /// How many may be.
    pub closed spec fn bound(self) -> int {
        self.limit as int
    }

    /// Those that are being read are within the bound.
    pub open spec fn wf(self) -> bool {
        0 <= self.under_way() <= self.bound()
    }

    /// No file is being read.
    pub fn new(limit: usize) -> (res: Self)
        ensures
            res.wf(),
            res.under_way() == 0,
            res.bound() == limit,
    {
        RemoteLoads { limit, pending: 0 }
    }

    /// Another file is being read. The result says whether the caller has to wait
    /// until one is finished.
    pub fn spawn(&mut self) -> (res: bool)
        requires
            old(self).wf(),
        ensures
            final(self).wf(),
            final(self).bound() == old(self).bound(),
            res == (old(self).under_way() == old(self).bound()),
            final(self).under_way() == (if res {
                old(self).under_way()
            } else {
                old(self).under_way() + 1
            }),
    {
        if self.pending < self.limit {
            self.pending = self.pending + 1;
            false
        } else {
            true
        }
    }

    /// How many files are being read.
    pub fn count(&self) -> (res: usize)
        ensures
            res == self.under_way(),
    {
        self.pending
    }

    /// One of the files that are being read is there.
    pub fn received(&mut self)
        requires
            old(self).wf(),
            old(self).under_way() > 0,
        ensures
            final(self).wf(),
            final(self).bound() == old(self).bound(),
            final(self).under_way() == old(self).under_way() - 1,
    {
        self.pending = self.pending - 1;
    }
}

/// How a reader gets a file.
#[derive(Clone, Copy, Debug, PartialEq, Eq, Structural)]
pub enum FileStep {
    /// Its table meta is cached.
    CachedMeta,
    /// The whole file is cached as a segment.
    CachedSegment(FileSegmentIdent),
    /// The schema is cached.
    CachedSchema,
    /// It is not needed.
    Skip,
    /// Its table meta is read.
    ReadMeta,
    /// The whole file is read as a segment.
    ReadSegment(FileSegmentIdent),
    /// The whole file is read.
    ReadWhole,
}

/// The whole file as a segment.
pub open spec fn whole_segment(id: u64, fm: FileMeta) -> FileSegmentIdent {
    FileSegmentIdent { file_id: id, start_off: 0, end_off: fm.l0_size as u64 }
}

/// The file is a table of level 0 whose size is known.
pub open spec fn sized_l0(fm: FileMeta) -> bool {
    fm.file_type is Sst && fm.level == 0 && fm.l0_size > 0
}

/// What a reader has at hand.
pub struct ReadCtx {
    /// Parts of files can be cached.
    pub ia_enabled: bool,
    /// Files whose table meta is cached.
    pub cached_metas: Vec<u64>,
    /// Cached segments.
    pub cached_segments: SegmentMap,
    /// Schemas that are cached.
    pub cached_schemas: Vec<u64>,
    /// Only committed data is read.
    pub write_cf_only: bool,
}

impl ReadCtx {
    /// How the reader gets a file: what is cached is used; then what is not
    /// needed is left out; the rest is read, in parts where that is possible.
    pub open spec fn step(self, id: u64, fm: FileMeta) -> FileStep {
        if self.ia_enabled && fm.remote_readable() && self.cached_metas@.contains(id) {
            FileStep::CachedMeta
        } else if self.ia_enabled && !fm.remote_readable() && sized_l0(fm)
            && self.cached_segments@.contains_key(whole_segment(id, fm)) {
            FileStep::CachedSegment(whole_segment(id, fm))
        } else if fm.file_type is Schema && self.cached_schemas@.contains(id) {
            FileStep::CachedSchema
        } else if self.write_cf_only && fm.cf != WRITE_CF && fm.level != 0 {
            FileStep::Skip
        } else if self.ia_enabled && fm.remote_readable() {
            FileStep::ReadMeta
        } else if self.ia_enabled && sized_l0(fm) {
            FileStep::ReadSegment(whole_segment(id, fm))
        } else {
            FileStep::ReadWhole
        }
    }

    /// How the reader gets a file.
    pub fn prepare_file(&self, id: u64, fm: &FileMeta) -> (res: FileStep)
        ensures
            res == self.step(id, *fm),
    {
        let whole = FileSegmentIdent::new(id, 0, fm.l0_size as u64);
        if self.ia_enabled {
            if fm.can_use_ia() {
                if contains_u64(&self.cached_metas, id) {
                    return FileStep::CachedMeta;
                }
            } else if fm.is_l0_sst_with_size() {
                if self.cached_segments.is_segment_cached(whole) {
                    return FileStep::CachedSegment(whole);
                }
            }
        }
        if fm.is_schema_file() && contains_u64(&self.cached_schemas, id) {
            return FileStep::CachedSchema;
        }
        if self.write_cf_only && fm.get_cf() != WRITE_CF as i32 && fm.get_level() != 0 {
            return FileStep::Skip;
        }
        if self.ia_enabled && fm.can_use_ia() {
            FileStep::ReadMeta
        } else if self.ia_enabled && fm.is_l0_sst_with_size() {
            FileStep::ReadSegment(whole)
        } else {
            FileStep::ReadWhole
        }
    }
}

/// What a reader of a shard gets, and how.
pub struct ReadPlan {
    /// The files.
    pub files: HashMap<u64, FileMeta>,
    /// How each is got.
    pub steps: Vec<(u64, FileStep)>,
    /// Transaction files with locks.
    pub lock_txn_file_refs: Vec<pb::TxnFileRef>,
    /// Which key the files are encrypted with.
    pub key: KeySource,
}

/// The steps are those of all files, each once.
pub open spec fn steps_of(
    steps: Seq<(u64, FileStep)>,
    files: Map<u64, FileMeta>,
    ctx: ReadCtx,
) -> bool {
    &&& forall|i: int|
        0 <= i < steps.len() ==> files.contains_key((#[trigger] steps[i]).0) && steps[i].1
            == ctx.step(steps[i].0, files[steps[i].0])
    &&& forall|i: int, j: int| 0 <= i < j < steps.len() ==> steps[i].0 != steps[j].0
    &&& forall|id: u64| #[trigger]
        files.contains_key(id) ==> exists|i: int|
            0 <= i < steps.len() && (#[trigger] steps[i]).0 == id
}

/// What a reader of a shard gets from its snapshot, and how.
pub fn from_change_set(snap: &pb::Snapshot, prepare_type: PrepareType, ctx: &ReadCtx) -> (res: ReadPlan)
    requires
        opt_props_valid(snap.properties),
    ensures
        reads(*snap, prepare_type, res.files@),
        steps_of(res.steps@, res.files@, *ctx),
        res.lock_txn_file_refs@ == (if ctx.write_cf_only {
            Seq::<pb::TxnFileRef>::empty()
        } else {
            refs_with_locks(snap.txn_file_refs@)
        }),
        match sealed_key(*snap) {
            Some(b) => res.key == KeySource::Sealed(b),
            None => res.key is Plain,
        },
{
    let files = collect_ids_from_snapshot(snap, prepare_type);
    let ids = file_ids(&files);
    let mut steps: Vec<(u64, FileStep)> = Vec::new();
    let mut i: usize = 0;
    while i < ids.len()
        invariant
            i <= ids@.len(),
            ids@.no_duplicates(),
            ids@.to_set() == files@.dom(),
            steps@.len() == i,
            forall|j: int|
                0 <= j < i ==> (#[trigger] steps@[j]).0 == ids@[j] && files@.contains_key(ids@[j])
                    && steps@[j].1 == ctx.step(ids@[j], files@[ids@[j]]),
        decreases ids@.len() - i,
    {
        let id = ids[i];
        assert(ids@.to_set().contains(ids@[i as int]));
        let step = ctx.prepare_file(id, files.get(&id).unwrap());
        steps.push((id, step));
        i = i + 1;
    }
    proof {
        assert forall|id: u64| #[trigger] files@.contains_key(id) implies exists|i: int|
            0 <= i < steps@.len() && (#[trigger] steps@[i]).0 == id by {
            assert(ids@.to_set().contains(id));
            let k = choose|k: int| 0 <= k < ids@.len() && ids@[k] == id;
            assert(steps@[k].0 == id);
        }
        assert forall|i: int, j: int| 0 <= i < j < steps@.len() implies steps@[i].0
            != steps@[j].0 by {
            assert(ids@[i] != ids@[j]);
        }
    }
    let lock_txn_file_refs = if ctx.write_cf_only {
        Vec::new()
    } else {
        collect_snap_lock_txn_file_refs(snap)
    };
    let key = match &snap.properties {
        Some(props) => match get_shard_property(ENCRYPTION_KEY, props) {
            Some(sealed) => KeySource::Sealed(sealed),
            None => KeySource::Plain,
        },
        None => KeySource::Plain,
    };
    ReadPlan { files, steps, lock_txn_file_refs, key }
}

} // verus!

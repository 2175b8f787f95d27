//! What a shard knows of each of its files.
use bytes::Bytes;
use vstd::prelude::*;

use crate::bound::{Bound, BoundedDataSet, DataBound, InnerKey};
use crate::buf::content;
use crate::pb;
use crate::pb::TableIdSpan;
use crate::{LOCK_CF, WRITE_CF};

verus! {

/// Stands for all column families.
pub const ALL_CFS: i8 = -1;

/// Kind of a file.
#[derive(Clone, Copy, Debug, PartialEq, Eq, Structural)]
pub enum FileType {
    /// A sorted table of rows.
    Sst,
    /// A part of a transaction.
    TxnChunk,
    /// A schema.
    Schema,
    /// A table of columns.
    Columnar,
    /// A table of large values.
    Blob,
    /// A vector index.
    VectorIndex,
    /// A full text index of many tables.
    FtsPackedFile,
    /// A full text index of one table.
    FtsDedicatedFile,
}

/// Version of data: the base version of a shard and a sequence, added.
#[derive(Clone, Copy, Debug, PartialEq, Eq, Structural)]
pub struct SnapVersion {
    /// The version.
    pub version: u64,
}

impl SnapVersion {
    /// The version of a sequence.
    pub fn new(base_version: u64, sequence: u64) -> (res: Self)
        requires
            base_version + sequence <= u64::MAX,
        ensures
            res.version == base_version + sequence,
    {
        SnapVersion { version: base_version + sequence }
    }

    /// The lowest version.
    pub fn zero() -> (res: Self)
        ensures
            res == (SnapVersion { version: 0 }),
    {
        SnapVersion { version: 0 }
    }

    /// Whether the version is not the lowest.
    pub fn is_not_zero(&self) -> (res: bool)
        ensures
            res == (self.version != 0),
    {
        self.version != 0
    }

    /// The version as a number.
    pub fn into_inner(self) -> (res: u64)
        ensures
            res == self.version,
    {
        self.version
    }

    /// The higher of two versions.
    pub open spec fn spec_max(self, other: SnapVersion) -> SnapVersion {
        if self.version >= other.version {
            self
        } else {
            other
        }
    }

    /// The higher of two versions.
    pub fn higher(self, other: Self) -> (res: Self)
        ensures
            res == self.spec_max(other),
    {
        if self.version >= other.version {
            self
        } else {
            other
        }
    }
}

/// What a shard knows of a file.
#[derive(Debug, PartialEq, Eq)]
pub struct FileMeta {
    /// Column family, or -1 where it has those of all.
    pub cf: i8,
    /// Level.
    pub level: u8,
    /// Kind.
    pub file_type: FileType,
    /// Lowest inner key.
    pub smallest: Bytes,
    /// Highest inner key.
    pub biggest: Bytes,
    /// Size, of tables of level 0 only.
    pub l0_size: u32,
    /// Where the table meta begins in the file.
    pub table_meta_off: u32,
    /// Version of the data, of columnar files only.
    pub snap_version: Option<SnapVersion>,
    /// Table ids of its keys.
    pub table_ids: TableIdSpan,
}

impl Clone for FileMeta {
    fn clone(&self) -> (res: Self)
        ensures
            res == *self,
    {
        FileMeta {
            cf: self.cf,
            level: self.level,
            file_type: self.file_type,
            smallest: self.smallest.clone(),
            biggest: self.biggest.clone(),
            l0_size: self.l0_size,
            table_meta_off: self.table_meta_off,
            snap_version: self.snap_version,
            table_ids: self.table_ids,
        }
    }
}

/// All table ids.
pub open spec fn any_table() -> TableIdSpan {
    TableIdSpan { min: i64::MIN, max: i64::MAX }
}

/// The meta of a table of level 0.
pub open spec fn l0_meta(t: pb::L0Create) -> FileMeta {
    FileMeta {
        cf: ALL_CFS,
        level: 0,
        file_type: FileType::Sst,
        smallest: t.smallest,
        biggest: t.biggest,
        l0_size: t.size,
        table_meta_off: 0,
        snap_version: None,
        table_ids: t.table_ids,
    }
}

/// The meta of a table of a lower level.
pub open spec fn table_meta(t: pb::TableCreate) -> FileMeta {
    FileMeta {
        cf: t.cf as i8,
        level: t.level as u8,
        file_type: FileType::Sst,
        smallest: t.smallest,
        biggest: t.biggest,
        l0_size: 0,
        table_meta_off: t.meta_offset,
        snap_version: None,
        table_ids: t.table_ids,
    }
}

/// The meta of a columnar file.
pub open spec fn columnar_meta(t: pb::ColumnarCreate) -> FileMeta {
    FileMeta {
        cf: 0,
        level: t.level as u8,
        file_type: FileType::Columnar,
        smallest: t.smallest,
        biggest: t.biggest,
        l0_size: 0,
        table_meta_off: t.meta_offset,
        snap_version: Some(SnapVersion { version: t.snap_version }),
        table_ids: t.table_ids,
    }
}

/// The meta of a blob table.
pub open spec fn blob_meta(t: pb::BlobCreate) -> FileMeta {
    FileMeta {
        cf: ALL_CFS,
        level: 0,
        file_type: FileType::Blob,
        smallest: t.smallest,
        biggest: t.biggest,
        l0_size: 0,
        table_meta_off: t.meta_offset,
        snap_version: None,
        table_ids: t.table_ids,
    }
}

/// The meta of a file of a vector index.
pub open spec fn vector_meta(t: pb::VectorIndexFile) -> FileMeta {
    FileMeta {
        cf: 0,
        level: 0,
        file_type: FileType::VectorIndex,
        smallest: t.smallest,
        biggest: t.biggest,
        l0_size: 0,
        table_meta_off: t.meta_offset,
        snap_version: None,
        table_ids: t.table_ids,
    }
}

/// The meta of a packed full text file of the given level.
pub open spec fn fts_packed_meta(t: pb::FtsPackedFileInfo, level: u8) -> FileMeta {
    FileMeta {
        cf: 0,
        level,
        file_type: FileType::FtsPackedFile,
        smallest: t.smallest,
        biggest: t.biggest,
        l0_size: 0,
        table_meta_off: t.meta_offset,
        snap_version: None,
        table_ids: t.table_ids,
    }
}

/// The meta of a dedicated full text file.
pub open spec fn fts_ded_meta(t: pb::FtsDedFileInfo) -> FileMeta {
    FileMeta {
        cf: 0,
        level: 2,
        file_type: FileType::FtsDedicatedFile,
        smallest: t.smallest,
        biggest: t.biggest,
        l0_size: 0,
        table_meta_off: t.meta_offset,
        snap_version: None,
        table_ids: t.table_ids,
    }
}

impl FileMeta {
    /// The file is a table at the given level, of the given kind.
    pub open spec fn at(self, level: u32, ft: FileType) -> bool {
        self.file_type == ft && self.level == level
    }

    /// The file can be read from remote segments.
    pub open spec fn remote_readable(self) -> bool {
        match self.file_type {
            FileType::Sst => self.cf == WRITE_CF && self.level > 0,
            FileType::Columnar => true,
            FileType::VectorIndex => true,
            FileType::FtsPackedFile => true,
            FileType::FtsDedicatedFile => true,
            FileType::Blob => true,
            _ => false,
        }
    }

    /// The meta of a file. Of the column family and the level, the lowest byte is
    /// kept. `table_ids` are those of its keys.
    pub fn new(
        cf: i32,
        level: u32,
        file_type: FileType,
        smallest: &[u8],
        biggest: &[u8],
        l0_size: u32,
        table_meta_off: u32,
        snap_version: Option<SnapVersion>,
        table_ids: TableIdSpan,
    ) -> (res: Self)
        ensures
            res.cf == cf as i8,
            res.level == level as u8,
            res.file_type == file_type,
            content(res.smallest) == smallest@,
            content(res.biggest) == biggest@,
            res.l0_size == l0_size,
            res.table_meta_off == table_meta_off,
            res.snap_version == snap_version,
            res.table_ids == table_ids,
    {
        FileMeta {
            cf: #[verifier::truncate]
            (cf as i8),
            level: #[verifier::truncate]
            (level as u8),
            file_type,
            smallest: Bytes::copy_from_slice(smallest),
            biggest: Bytes::copy_from_slice(biggest),
            l0_size,
            table_meta_off,
            snap_version,
            table_ids,
        }
    }

    /// Level.
    pub fn get_level(&self) -> (res: u32)
        ensures
            res == self.level,
    {
        self.level as u32
    }

    /// Column family.
    pub fn get_cf(&self) -> (res: i32)
        ensures
            res == self.cf,
    {
        self.cf as i32
    }

    /// Whether the file may hold locks.
    pub fn has_locks(&self) -> (res: bool)
        ensures
            res == (self.level == 0 || self.cf == LOCK_CF),
    {
        self.level == 0 || self.cf == 1
    }

    /// Whether the file is a schema.
    pub fn is_schema_file(&self) -> (res: bool)
        ensures
            res == (self.file_type is Schema),
    {
        self.file_type == FileType::Schema
    }

    /// Whether the file is a table of rows.
    pub fn is_sst_file(&self) -> (res: bool)
        ensures
            res == (self.file_type is Sst),
    {
        self.file_type == FileType::Sst
    }

    /// Whether the file is a table of columns.
    pub fn is_columnar_file(&self) -> (res: bool)
        ensures
            res == (self.file_type is Columnar),
    {
        self.file_type == FileType::Columnar
    }

    /// Whether the file belongs to a vector index.
    pub fn is_vector_index_file(&self) -> (res: bool)
        ensures
            res == (self.file_type is VectorIndex),
    {
        self.file_type == FileType::VectorIndex
    }

    /// Whether the file belongs to a full text index.
    pub fn is_fts_file(&self) -> (res: bool)
        ensures
            res == (self.file_type is FtsPackedFile || self.file_type is FtsDedicatedFile),
    {
        self.file_type == FileType::FtsPackedFile || self.file_type == FileType::FtsDedicatedFile
    }

    /// Whether the file can be read from remote segments.
    pub fn can_use_ia(&self) -> (res: bool)
        ensures
            res == self.remote_readable(),
    {
        match self.file_type {
            FileType::Sst => self.cf == 0 && self.level > 0,
            FileType::Columnar => true,
            FileType::VectorIndex => true,
            FileType::FtsPackedFile => true,
            FileType::FtsDedicatedFile => true,
            FileType::Blob => true,
            FileType::TxnChunk => false,
            FileType::Schema => false,
        }
    }

    /// Version of the data, the lowest where there is none.
    pub open spec fn snap(self) -> SnapVersion {
        match self.snap_version {
            Some(v) => v,
            None => SnapVersion { version: 0 },
        }
    }

    /// Version of the data, the lowest where there is none.
    pub fn get_snap_version(&self) -> (res: SnapVersion)
        ensures
            res == self.snap(),
    {
        match self.snap_version {
            Some(v) => v,
            None => SnapVersion::zero(),
        }
    }

    /// Whether the file is a table of level 0 whose size is known.
    pub fn is_l0_sst_with_size(&self) -> (res: bool)
        ensures
            res == (self.file_type is Sst && self.level == 0 && self.l0_size > 0),
    {
        self.file_type == FileType::Sst && self.level == 0 && self.l0_size > 0
    }

    /// The meta of a table of level 0.
    pub fn from_l0_table(table: &pb::L0Create) -> (res: Self)
        ensures
            res == l0_meta(*table),
    {
        FileMeta {
            cf: ALL_CFS,
            level: 0,
            file_type: FileType::Sst,
            smallest: table.smallest.clone(),
            biggest: table.biggest.clone(),
            l0_size: table.size,
            table_meta_off: 0,
            snap_version: None,
            table_ids: table.table_ids,
        }
    }

    /// The meta of a table of a lower level.
    pub fn from_table(table: &pb::TableCreate) -> (res: Self)
        ensures
            res == table_meta(*table),
    {
        FileMeta {
            cf: #[verifier::truncate]
            (table.cf as i8),
            level: #[verifier::truncate]
            (table.level as u8),
            file_type: FileType::Sst,
            smallest: table.smallest.clone(),
            biggest: table.biggest.clone(),
            l0_size: 0,
            table_meta_off: table.meta_offset,
            snap_version: None,
            table_ids: table.table_ids,
        }
    }

    /// The meta of a columnar file.
    pub fn from_columnar_table(table: &pb::ColumnarCreate) -> (res: Self)
        ensures
            res == columnar_meta(*table),
    {
        FileMeta {
            cf: 0,
            level: #[verifier::truncate]
            (table.level as u8),
            file_type: FileType::Columnar,
            smallest: table.smallest.clone(),
            biggest: table.biggest.clone(),
            l0_size: 0,
            table_meta_off: table.meta_offset,
            snap_version: Some(SnapVersion { version: table.snap_version }),
            table_ids: table.table_ids,
        }
    }

    /// The meta of a blob table.
    pub fn from_blob_table(table: &pb::BlobCreate) -> (res: Self)
        ensures
            res == blob_meta(*table),
    {
        FileMeta {
            cf: ALL_CFS,
            level: 0,
            file_type: FileType::Blob,
            smallest: table.smallest.clone(),
            biggest: table.biggest.clone(),
            l0_size: 0,
            table_meta_off: table.meta_offset,
            snap_version: None,
            table_ids: table.table_ids,
        }
    }

    /// The meta of a file of a vector index.
    pub fn from_vector_index_file(vec_idx_file: &pb::VectorIndexFile) -> (res: Self)
        ensures
            res == vector_meta(*vec_idx_file),
    {
        FileMeta {
            cf: 0,
            level: 0,
            file_type: FileType::VectorIndex,
            smallest: vec_idx_file.smallest.clone(),
            biggest: vec_idx_file.biggest.clone(),
            l0_size: 0,
            table_meta_off: vec_idx_file.meta_offset,
            snap_version: None,
            table_ids: vec_idx_file.table_ids,
        }
    }

    fn from_fts_packed(fts_file: &pb::FtsPackedFileInfo, level: u8) -> (res: Self)
        ensures
            res == fts_packed_meta(*fts_file, level),
    {
        FileMeta {
            cf: 0,
            level,
            file_type: FileType::FtsPackedFile,
            smallest: fts_file.smallest.clone(),
            biggest: fts_file.biggest.clone(),
            l0_size: 0,
            table_meta_off: fts_file.meta_offset,
            snap_version: None,
            table_ids: fts_file.table_ids,
        }
    }

    /// The meta of a full text file of level 0.
    pub fn from_fts_l0_file(fts_file: &pb::FtsPackedFileInfo) -> (res: Self)
        ensures
            res == fts_packed_meta(*fts_file, 0),
    {
        Self::from_fts_packed(fts_file, 0)
    }

    /// The meta of a full text file of level 1.
    pub fn from_fts_l1_file(fts_file: &pb::FtsPackedFileInfo) -> (res: Self)
        ensures
            res == fts_packed_meta(*fts_file, 1),
    {
        Self::from_fts_packed(fts_file, 1)
    }

    /// The meta of a full text file of level 2.
    pub fn from_fts_l2_file(fts_file: &pb::FtsDedFileInfo) -> (res: Self)
        ensures
            res == fts_ded_meta(*fts_file),
    {
        FileMeta {
            cf: 0,
            level: 2,
            file_type: FileType::FtsDedicatedFile,
            smallest: fts_file.smallest.clone(),
            biggest: fts_file.biggest.clone(),
            l0_size: 0,
            table_meta_off: fts_file.meta_offset,
            snap_version: None,
            table_ids: fts_file.table_ids,
        }
    }

    /// The meta is that of a schema: it has no keys.
    pub open spec fn of_schema(self) -> bool {
        &&& self.cf == 0
        &&& self.level == 0
        &&& self.file_type == FileType::Schema
        &&& content(self.smallest) == Seq::<u8>::empty()
        &&& content(self.biggest) == Seq::<u8>::empty()
        &&& self.l0_size == 0
        &&& self.table_meta_off == 0
        &&& self.snap_version is None
        &&& self.table_ids == any_table()
    }

    /// The meta of a schema.
    pub fn from_schema_meta() -> (res: Self)
        ensures
            res.of_schema(),
    {
        FileMeta {
            cf: 0,
            level: 0,
            file_type: FileType::Schema,
            smallest: Bytes::new(),
            biggest: Bytes::new(),
            l0_size: 0,
            table_meta_off: 0,
            snap_version: None,
            table_ids: TableIdSpan { min: i64::MIN, max: i64::MAX },
        }
    }

    /// The table of level 0 that this is the meta of.
    pub open spec fn l0_create(self, id: u64) -> pb::L0Create {
        pb::L0Create {
            id,
            smallest: self.smallest,
            biggest: self.biggest,
            size: self.l0_size,
            table_ids: self.table_ids,
        }
    }

    /// The table of a lower level that this is the meta of.
    pub open spec fn table_create(self, id: u64) -> pb::TableCreate {
        pb::TableCreate {
            id,
            level: self.level as u32,
            cf: self.cf as i32,
            smallest: self.smallest,
            biggest: self.biggest,
            meta_offset: self.table_meta_off,
            table_ids: self.table_ids,
        }
    }

    /// The columnar file that this is the meta of.
    pub open spec fn columnar_create(self, id: u64) -> pb::ColumnarCreate {
        pb::ColumnarCreate {
            id,
            level: self.level as u32,
            smallest: self.smallest,
            biggest: self.biggest,
            meta_offset: self.table_meta_off,
            snap_version: self.snap().version,
            table_ids: self.table_ids,
        }
    }

    /// The blob table that this is the meta of.
    pub open spec fn blob_create(self, id: u64) -> pb::BlobCreate {
        pb::BlobCreate {
            id,
            smallest: self.smallest,
            biggest: self.biggest,
            meta_offset: 0,
            table_ids: self.table_ids,
        }
    }

    /// The table of level 0 that this is the meta of.
    pub fn to_l0_create(&self, id: u64) -> (res: pb::L0Create)
        ensures
            res == self.l0_create(id),
    {
        pb::L0Create {
            id,
            smallest: self.smallest.clone(),
            biggest: self.biggest.clone(),
            size: self.l0_size,
            table_ids: self.table_ids,
        }
    }

    /// The table of a lower level that this is the meta of.
    pub fn to_table_create(&self, id: u64) -> (res: pb::TableCreate)
        ensures
            res == self.table_create(id),
    {
        pb::TableCreate {
            id,
            level: self.level as u32,
            cf: self.cf as i32,
            smallest: self.smallest.clone(),
            biggest: self.biggest.clone(),
            meta_offset: self.table_meta_off,
            table_ids: self.table_ids,
        }
    }

    /// The columnar file that this is the meta of.
    pub fn to_columnar_create(&self, id: u64) -> (res: pb::ColumnarCreate)
        ensures
            res == self.columnar_create(id),
    {
        pb::ColumnarCreate {
            id,
            level: self.level as u32,
            smallest: self.smallest.clone(),
            biggest: self.biggest.clone(),
            meta_offset: self.table_meta_off,
            snap_version: self.get_snap_version().into_inner(),
            table_ids: self.table_ids,
        }
    }

    /// The blob table that this is the meta of. Where its table meta begins is
    /// left out.
    pub fn to_blob_create(&self, id: u64) -> (res: pb::BlobCreate)
        ensures
            res == self.blob_create(id),
    {
        pb::BlobCreate {
            id,
            smallest: self.smallest.clone(),
            biggest: self.biggest.clone(),
            meta_offset: 0,
            table_ids: self.table_ids,
        }
    }
}

impl Default for FileMeta {
    fn default() -> (res: Self)
        ensures
            res.cf == 0,
            res.level == 0,
            res.file_type == FileType::Sst,
            content(res.smallest) == Seq::<u8>::empty(),
            content(res.biggest) == Seq::<u8>::empty(),
            res.l0_size == 0,
            res.table_meta_off == 0,
            res.snap_version is None,
            res.table_ids == any_table(),
    {
        FileMeta {
            cf: 0,
            level: 0,
            file_type: FileType::Sst,
            smallest: Bytes::new(),
            biggest: Bytes::new(),
            l0_size: 0,
            table_meta_off: 0,
            snap_version: None,
            table_ids: TableIdSpan { min: i64::MIN, max: i64::MAX },
        }
    }
}

/// The closed bound between two inner keys.
pub open spec fn key_bound(smallest: Bytes, biggest: Bytes) -> Bound {
    Bound { lower: content(smallest), upper: content(biggest), inclusive: true }
}

impl BoundedDataSet for FileMeta {
    open spec fn bound(&self) -> Bound {
        key_bound(self.smallest, self.biggest)
    }

    fn data_bound(&self) -> (res: DataBound<'_>) {
        DataBound::new(
            InnerKey::from_inner_buf(&self.smallest),
            InnerKey::from_inner_buf(&self.biggest),
            true,
        )
    }
}

impl BoundedDataSet for pb::TableCreate {
    open spec fn bound(&self) -> Bound {
        key_bound(self.smallest, self.biggest)
    }

    fn data_bound(&self) -> (res: DataBound<'_>) {
        DataBound::new(
            InnerKey::from_inner_buf(&self.smallest),
            InnerKey::from_inner_buf(&self.biggest),
            true,
        )
    }
}

impl BoundedDataSet for pb::VectorIndexFile {
    open spec fn bound(&self) -> Bound {
        key_bound(self.smallest, self.biggest)
    }

    fn data_bound(&self) -> (res: DataBound<'_>) {
        DataBound::new(
            InnerKey::from_inner_buf(&self.smallest),
            InnerKey::from_inner_buf(&self.biggest),
            true,
        )
    }
}

/// The meta of a table of level 0 gives the table back.
pub proof fn law_l0_table_restored(t: pb::L0Create)
    ensures
        l0_meta(t).l0_create(t.id) == t,
{
}

/// The meta of a table gives the table back, where its level and column family
/// fit a byte.
pub proof fn law_table_restored(t: pb::TableCreate)
    requires
        t.level <= u8::MAX,
        i8::MIN <= t.cf <= i8::MAX,
    ensures
        table_meta(t).table_create(t.id) == t,
{
}

/// The meta of a columnar file gives the file back, where its level fits a byte.
pub proof fn law_columnar_file_restored(t: pb::ColumnarCreate)
    requires
        t.level <= u8::MAX,
    ensures
        columnar_meta(t).columnar_create(t.id) == t,
{
}

} // verus!

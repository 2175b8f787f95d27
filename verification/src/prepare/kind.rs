//! How a file is made readable.
use vstd::prelude::*;

use crate::file_meta::{FileMeta, FileType};
use crate::pb::StorageClassSpec;

verus! {

/// How a file is made readable.
#[derive(Clone, Copy, Debug, PartialEq, Eq, Structural)]
pub enum FilePrepareType {
    /// The whole file is on a local disk.
    Local,
    /// Only the table meta is local, the rest is read when it is needed.
    Ia,
    /// Like `Ia` for data that is old enough, like `Local` for the rest.
    AutoIa(StorageClassSpec),
}

impl Default for FilePrepareType {
    fn default() -> (res: Self)
        ensures
            res == FilePrepareType::Local,
    {
        FilePrepareType::Local
    }
}

/// The kind that a storage class specification asks for.
pub open spec fn kind_of_class(spec: StorageClassSpec) -> FilePrepareType {
    if spec.must_be_ia {
        FilePrepareType::Ia
    } else if spec.spec_can_be_ia() {
        FilePrepareType::AutoIa(spec)
    } else {
        FilePrepareType::Local
    }
}

/// How a file of a shard of kind `kind` is made readable.
pub open spec fn kind_of_file(kind: FilePrepareType, fm: FileMeta, force_ia: bool) -> FilePrepareType {
    match fm.file_type {
        FileType::Sst => if !fm.remote_readable() {
            FilePrepareType::Local
        } else if force_ia {
            FilePrepareType::Ia
        } else {
            kind
        },
        FileType::Columnar => FilePrepareType::Ia,
        FileType::VectorIndex => FilePrepareType::Ia,
        FileType::FtsPackedFile => FilePrepareType::Ia,
        FileType::FtsDedicatedFile => FilePrepareType::Ia,
        FileType::Blob | FileType::TxnChunk | FileType::Schema => FilePrepareType::Local,
    }
}

impl FilePrepareType {
    /// The kind that a storage class specification asks for. Of a shard, the
    /// specification is what its storage class property says.
    pub fn from_storage_class_spec(sc_spec: StorageClassSpec) -> (res: Self)
        ensures
            res == kind_of_class(sc_spec),
    {
        if sc_spec.must_be_ia {
            FilePrepareType::Ia
        } else if sc_spec.can_be_ia() {
            FilePrepareType::AutoIa(sc_spec)
        } else {
            FilePrepareType::Local
        }
    }

    /// Whether some files may stay remote.
    pub fn not_local(&self) -> (res: bool)
        ensures
            res == !(*self is Local),
    {
        !matches!(self, FilePrepareType::Local)
    }

    /// How a file of the shard is made readable.
    pub fn convert_for_prepare_table(&self, fm: &FileMeta, force_ia: bool) -> (res: Self)
        ensures
            res == kind_of_file(*self, *fm, force_ia),
    {
        match fm.file_type {
            FileType::Sst => if !fm.can_use_ia() {
                FilePrepareType::Local
            } else if force_ia {
                FilePrepareType::Ia
            } else {
                *self
            },
            FileType::Columnar => FilePrepareType::Ia,
            FileType::VectorIndex => FilePrepareType::Ia,
            FileType::FtsPackedFile => FilePrepareType::Ia,
            FileType::FtsDedicatedFile => FilePrepareType::Ia,
            FileType::Blob | FileType::TxnChunk | FileType::Schema => FilePrepareType::Local,
        }
    }
}

} // verus!

//! Opening files on local disk, and bringing them there.
//!
//! Each opening is a walk from step to step: a step says what is to be done, and what came
//! of it leads to the next.
use vstd::prelude::*;

use crate::pb::StorageClassSpec;

verus! {

/// What is to be done next to open a file of which only the table meta is local.
#[derive(Clone, Copy, Debug, PartialEq, Eq, Structural)]
pub enum MetaOpenStep {
    /// Open the local file of the table meta. Its size may be known.
    OpenMeta(Option<u64>),
    /// Open the whole file, if it is local.
    OpenData,
    /// Read the table meta from the whole file.
    ReadMeta {
        /// Where it begins.
        off: u64,
        /// How many bytes it has.
        length: u64,
    },
    /// Write the table meta, which has this many bytes, to a local file of its own.
    WriteMeta(u64),
    /// Open the file with its table meta.
    OpenIa,
    /// The file is open.
    Opened,
    /// The file cannot be opened; it is to be read from remote.
    NotOpened,
}

/// Opens a file of which only the table meta is local. Where the table meta is not, it is
/// taken out of the whole file, once. Whatever comes of a step, fewer are left behind it.
#[derive(Clone, Copy, Debug, PartialEq, Eq, Structural)]
pub struct MetaOpen {
    /// Where the table meta begins in the whole file.
    pub table_meta_off: u64,
    /// The table meta was taken out of the whole file.
    pub taken_out: bool,
    /// What is to be done next.
    pub step: MetaOpenStep,
}

impl MetaOpen {
    /// Begins with the local file of the table meta, where parts of files can be cached.
    pub fn new(ia_enabled: bool, table_meta_off: u64, meta_size: Option<u64>) -> (res: Self)
        ensures
            res == (MetaOpen {
                table_meta_off,
                taken_out: false,
                step: if ia_enabled {
                    MetaOpenStep::OpenMeta(meta_size)
                } else {
                    MetaOpenStep::NotOpened
                },
            }),
            res.wf(),
    {
        MetaOpen {
            table_meta_off,
            taken_out: false,
            step: if ia_enabled {
                MetaOpenStep::OpenMeta(meta_size)
            } else {
                MetaOpenStep::NotOpened
            },
        }
    }

    /// The local file of the table meta was opened, or could not be.
    pub fn on_meta_opened(&mut self, opened: bool)
        requires
            old(self).wf(),
            old(self).step is OpenMeta,
        ensures
            *final(self) == (MetaOpen {
                step: if opened {
                    MetaOpenStep::OpenIa
                } else if old(self).taken_out {
                    MetaOpenStep::NotOpened
                } else {
                    MetaOpenStep::OpenData
                },
                ..*old(self)
            }),
            final(self).wf(),
            final(self).steps_left() < old(self).steps_left(),
    {
        self.step = if opened {
            MetaOpenStep::OpenIa
        } else if self.taken_out {
            MetaOpenStep::NotOpened
        } else {
            MetaOpenStep::OpenData
        };
    }

    /// The whole file was opened and has this many bytes, or could not be opened.
    pub fn on_data_opened(&mut self, size: Option<u64>)
        requires
            old(self).wf(),
            old(self).step is OpenData,
            size is Some ==> size->0 >= old(self).table_meta_off,
        ensures
            *final(self) == (MetaOpen {
                step: match size {
                    Some(size) => MetaOpenStep::ReadMeta {
                        off: old(self).table_meta_off,
                        length: (size - old(self).table_meta_off) as u64,
                    },
                    None => MetaOpenStep::NotOpened,
                },
                ..*old(self)
            }),
            final(self).wf(),
            final(self).steps_left() < old(self).steps_left(),
    {
        self.step = match size {
            Some(size) => MetaOpenStep::ReadMeta {
                off: self.table_meta_off,
                length: size - self.table_meta_off,
            },
            None => MetaOpenStep::NotOpened,
        };
    }

    /// The table meta was read from the whole file and has this many bytes, or there is
    /// none.
    pub fn on_meta_read(&mut self, length: Option<u64>)
        requires
            old(self).wf(),
            old(self).step is ReadMeta,
        ensures
            *final(self) == (MetaOpen {
                step: match length {
                    Some(length) => MetaOpenStep::WriteMeta(length),
                    None => MetaOpenStep::NotOpened,
                },
                ..*old(self)
            }),
            final(self).wf(),
            final(self).steps_left() < old(self).steps_left(),
    {
        self.step = match length {
            Some(length) => MetaOpenStep::WriteMeta(length),
            None => MetaOpenStep::NotOpened,
        };
    }

    /// The table meta was written to a local file of its own.
    pub fn on_meta_written(&mut self)
        requires
            old(self).wf(),
            old(self).step is WriteMeta,
        ensures
            *final(self) == (MetaOpen {
                taken_out: true,
                step: MetaOpenStep::OpenMeta(Some(old(self).step->WriteMeta_0)),
                ..*old(self)
            }),
            final(self).wf(),
            final(self).steps_left() < old(self).steps_left(),
    {
        if let MetaOpenStep::WriteMeta(length) = self.step {
            self.taken_out = true;
            self.step = MetaOpenStep::OpenMeta(Some(length));
        }
    }

    /// The file was opened with its table meta, or could not be.
    pub fn on_ia_opened(&mut self, opened: bool)
        requires
            old(self).wf(),
            old(self).step is OpenIa,
        ensures
            *final(self) == (MetaOpen {
                step: if opened {
                    MetaOpenStep::Opened
                } else {
                    MetaOpenStep::NotOpened
                },
                ..*old(self)
            }),
            final(self).wf(),
            final(self).steps_left() < old(self).steps_left(),
    {
        self.step = if opened {
            MetaOpenStep::Opened
        } else {
            MetaOpenStep::NotOpened
        };
    }

    /// How many steps there may be yet.
    pub open spec fn steps_left(self) -> nat {
        let again = if self.taken_out {
            0nat
        } else {
            4nat
        };
        match self.step {
            MetaOpenStep::OpenMeta(_) => again + 2,
            MetaOpenStep::OpenData => again + 1,
            MetaOpenStep::ReadMeta { .. } => again,
            MetaOpenStep::WriteMeta(_) => 3,
            MetaOpenStep::OpenIa => 1,
            MetaOpenStep::Opened => 0,
            MetaOpenStep::NotOpened => 0,
        }
    }

    /// Only what was not taken out yet is taken out.
    pub open spec fn wf(self) -> bool {
        self.step is OpenData || self.step is ReadMeta || self.step is WriteMeta
            ==> !self.taken_out
    }
}

/// What is to be done next to get table meta that is kept in a local file.
#[derive(Clone, Copy, Debug, PartialEq, Eq, Structural)]
pub enum TableMetaStep {
    /// Read the local file.
    ReadLocal,
    /// Note that the table meta was used, and set the modification time of the file if
    /// that is due.
    Touch,
    /// Read from remote.
    ReadRemote,
    /// Write the local file. Where that fails the table meta is there nevertheless.
    Save,
    /// Note that the table meta was used.
    Note,
    /// The table meta is there.
    Done,
    /// The table meta cannot be had.
    Failed,
}

/// What came of reading a local file.
#[derive(Clone, Copy, Debug, PartialEq, Eq, Structural)]
pub enum LocalRead {
    /// It was read.
    Found,
    /// There is no such file.
    NotFound,
    /// It could not be read.
    Failed,
}

impl TableMetaStep {
    /// The local file was read, or was not.
    pub fn on_local(self, read: LocalRead) -> (res: Self)
        requires
            self == TableMetaStep::ReadLocal,
        ensures
            res == match read {
                LocalRead::Found => TableMetaStep::Touch,
                LocalRead::NotFound => TableMetaStep::ReadRemote,
                LocalRead::Failed => TableMetaStep::Failed,
            },
    {
        match read {
            LocalRead::Found => TableMetaStep::Touch,
            LocalRead::NotFound => TableMetaStep::ReadRemote,
            LocalRead::Failed => TableMetaStep::Failed,
        }
    }

    /// The table meta was read from remote, or could not be.
    pub fn on_remote(self, read: bool) -> (res: Self)
        requires
            self == TableMetaStep::ReadRemote,
        ensures
            res == if read {
                TableMetaStep::Save
            } else {
                TableMetaStep::Failed
            },
    {
        if read {
            TableMetaStep::Save
        } else {
            TableMetaStep::Failed
        }
    }

    /// What was to be done was done, or was tried.
    pub fn on_done(self) -> (res: Self)
        requires
            self == TableMetaStep::Touch || self == TableMetaStep::Save || self
                == TableMetaStep::Note,
        ensures
            res == if self == TableMetaStep::Save {
                TableMetaStep::Note
            } else {
                TableMetaStep::Done
            },
    {
        match self {
            TableMetaStep::Save => TableMetaStep::Note,
            _ => TableMetaStep::Done,
        }
    }
}

/// What is to be done next to get a schema file.
#[derive(Clone, Copy, Debug, PartialEq, Eq, Structural)]
pub enum SchemaStep {
    /// Look among the schema files that are in memory.
    LookUp,
    /// Read the local file.
    ReadLocal,
    /// Read from remote.
    ReadRemote,
    /// Keep what was read in memory, if no other read did so meanwhile. It came from remote
    /// or it did not.
    Keep {
        /// It came from remote.
        remote: bool,
    },
    /// Write the local file: no other read does.
    Write,
    /// What is in memory is given back.
    Done,
}

impl SchemaStep {
    /// The schema file is in memory, or is not.
    pub fn on_looked_up(self, found: bool) -> (res: Self)
        requires
            self == SchemaStep::LookUp,
        ensures
            res == if found {
                SchemaStep::Done
            } else {
                SchemaStep::ReadLocal
            },
    {
        if found {
            SchemaStep::Done
        } else {
            SchemaStep::ReadLocal
        }
    }

    /// The local file was read, or could not be.
    pub fn on_local(self, read: bool) -> (res: Self)
        requires
            self == SchemaStep::ReadLocal,
        ensures
            res == if read {
                SchemaStep::Keep { remote: false }
            } else {
                SchemaStep::ReadRemote
            },
    {
        if read {
            SchemaStep::Keep { remote: false }
        } else {
            SchemaStep::ReadRemote
        }
    }

    /// The file was read from remote.
    pub fn on_remote(self) -> (res: Self)
        requires
            self == SchemaStep::ReadRemote,
        ensures
            res == (SchemaStep::Keep { remote: true }),
    {
        SchemaStep::Keep { remote: true }
    }

    /// What was read is in memory: it was kept, or another read had kept it.
    pub fn on_kept(self, was_vacant: bool) -> (res: Self)
        requires
            self is Keep,
        ensures
            res == if self->remote && was_vacant {
                SchemaStep::Write
            } else {
                SchemaStep::Done
            },
    {
        match self {
            SchemaStep::Keep { remote: true } => if was_vacant {
                SchemaStep::Write
            } else {
                SchemaStep::Done
            },
            _ => SchemaStep::Done,
        }
    }
}

/// Which parts of a file are to be read from remote that becomes remote once its data is
/// old enough.
#[derive(Clone, Copy, Debug, PartialEq, Eq, Structural)]
pub struct AutoIaParts {
    /// The table meta.
    pub meta: bool,
    /// The whole file.
    pub data: bool,
}

/// Which parts of a file are to be read from remote: the table meta where it is not there
/// yet, and the whole file while its data, which is `age_ms` old, is not old enough.
pub fn load_remote_auto_ia_file(has_meta: bool, spec: &StorageClassSpec, age_ms: u64) -> (res:
    AutoIaParts)
    ensures
        res.meta == !has_meta,
        res.data == !(spec.class_at(age_ms) is Ia),
{
    AutoIaParts { meta: !has_meta, data: !spec.target_storage_class(age_ms).is_ia() }
}

} // verus!

//! Which schema file a shard has.
use vstd::prelude::*;

use crate::pb;

verus! {

/// Which schema file a shard has.
#[derive(Clone, Copy, Debug, PartialEq, Eq, Structural)]
pub struct SchemaFileMeta {
    /// File id; zero where there is none.
    pub schema_file_id: u64,
    /// Version of the schema.
    pub schema_file_ver: i64,
    /// Version of the last restore.
    pub schema_restore_ver: u64,
}

impl Default for SchemaFileMeta {
    fn default() -> (res: Self)
        ensures
            res == Self::none(),
    {
        SchemaFileMeta { schema_file_id: 0, schema_file_ver: 0, schema_restore_ver: 0 }
    }
}

impl SchemaFileMeta {
    /// No schema file, and none ever.
    pub open spec fn none() -> SchemaFileMeta {
        SchemaFileMeta { schema_file_id: 0, schema_file_ver: 0, schema_restore_ver: 0 }
    }

    /// What a message says.
    pub open spec fn of(sm: pb::SchemaMeta) -> SchemaFileMeta {
        SchemaFileMeta {
            schema_file_id: sm.file_id,
            schema_file_ver: sm.version,
            schema_restore_ver: sm.restore_version,
        }
    }

    /// What an optional message says.
    pub open spec fn of_opt(sm: Option<pb::SchemaMeta>) -> SchemaFileMeta {
        match sm {
            Some(sm) => Self::of(sm),
            None => Self::none(),
        }
    }

    /// There is a schema file.
    pub open spec fn valid(self) -> bool {
        self.schema_file_id > 0
    }

    /// After the file is dropped.
    pub open spec fn cleared(self, restore_ver: u64) -> SchemaFileMeta {
        SchemaFileMeta { schema_file_id: 0, schema_restore_ver: restore_ver, ..self }
    }

    /// After a merge with a source shard: of one restore version the newer schema
    /// is kept, of two the one with the higher file id.
    pub open spec fn merged(self, source: SchemaFileMeta) -> SchemaFileMeta {
        if source.schema_restore_ver == self.schema_restore_ver {
            if source.schema_file_ver >= self.schema_file_ver {
                source
            } else {
                self
            }
        } else if source.schema_file_id > self.schema_file_id {
            source
        } else {
            self
        }
    }

    /// Whether there is a schema file.
    pub fn is_valid(&self) -> (res: bool)
        ensures
            res == self.valid(),
    {
        self.schema_file_id > 0
    }

    /// File id.
    pub fn file_id(&self) -> (res: u64)
        ensures
            res == self.schema_file_id,
    {
        self.schema_file_id
    }

    /// Version of the schema.
    pub fn file_ver(&self) -> (res: i64)
        ensures
            res == self.schema_file_ver,
    {
        self.schema_file_ver
    }

    /// Version of the last restore.
    pub fn restore_ver(&self) -> (res: u64)
        ensures
            res == self.schema_restore_ver,
    {
        self.schema_restore_ver
    }

    /// Something is set.
    pub open spec fn known(self) -> bool {
        self.schema_file_id > 0 || self.schema_file_ver > 0 || self.schema_restore_ver > 0
    }

    /// Whether anything is set.
    pub fn has_value(&self) -> (res: bool)
        ensures
            res == self.known(),
    {
        self.schema_file_id > 0 || self.schema_file_ver > 0 || self.schema_restore_ver > 0
    }

    /// What a snapshot says; nothing where it has no schema.
    pub fn from_snapshot(snap: &pb::Snapshot) -> (res: Self)
        ensures
            res == Self::of_opt(snap.schema_meta),
    {
        match &snap.schema_meta {
            Some(sm) => SchemaFileMeta {
                schema_file_id: sm.file_id,
                schema_file_ver: sm.version,
                schema_restore_ver: sm.restore_version,
            },
            None => Self::default(),
        }
    }

    /// Takes the file and the version of a message.
    pub fn update_from_schema_meta(&mut self, sm: &pb::SchemaMeta)
        ensures
            *final(self) == (SchemaFileMeta {
                schema_file_id: sm.file_id,
                schema_file_ver: sm.version,
                ..*old(self)
            }),
    {
        self.schema_file_id = sm.file_id;
        self.schema_file_ver = sm.version;
    }

    /// Takes what a restore found.
    pub fn update_by_restore(
        &mut self,
        new_file_id: u64,
        schema_file_ver: i64,
        schema_restore_ver: u64,
    )
        ensures
            *final(self) == (SchemaFileMeta {
                schema_file_id: new_file_id,
                schema_file_ver,
                schema_restore_ver,
            }),
    {
        self.schema_file_id = new_file_id;
        self.schema_file_ver = schema_file_ver;
        self.schema_restore_ver = schema_restore_ver;
    }

    /// Drops the file.
    pub fn clear(&mut self, reset_restore_version: u64)
        ensures
            *final(self) == old(self).cleared(reset_restore_version),
    {
        self.schema_file_id = 0;
        self.schema_restore_ver = reset_restore_version;
    }

    /// What a snapshot holds of it: nothing, where there is neither a file nor a
    /// restore.
    pub open spec fn message(self) -> Option<pb::SchemaMeta> {
        if self.valid() || self.schema_restore_ver > 0 {
            Some(
                pb::SchemaMeta {
                    file_id: self.schema_file_id,
                    version: self.schema_file_ver,
                    restore_version: self.schema_restore_ver,
                    keyspace_id: 0,
                },
            )
        } else {
            None
        }
    }

    /// Writes it to a snapshot that has none.
    pub fn to_snapshot(&self, snap: &mut pb::Snapshot)
        ensures
            *final(snap) == (pb::Snapshot {
                schema_meta: if self.message() is Some {
                    self.message()
                } else {
                    old(snap).schema_meta
                },
                ..*old(snap)
            }),
    {
        if self.is_valid() || self.schema_restore_ver > 0 {
            snap.schema_meta = Some(
                pb::SchemaMeta {
                    file_id: self.schema_file_id,
                    version: self.schema_file_ver,
                    restore_version: self.schema_restore_ver,
                    keyspace_id: 0,
                },
            );
        }
    }

    /// Merges with what a source shard has.
    pub fn merge_from(&mut self, source: &SchemaFileMeta)
        ensures
            *final(self) == old(self).merged(*source),
    {
        if source.schema_restore_ver == self.schema_restore_ver && source.schema_file_ver
            >= self.schema_file_ver {
            self.schema_file_id = source.schema_file_id;
            self.schema_file_ver = source.schema_file_ver;
        } else if source.schema_restore_ver != self.schema_restore_ver && source.schema_file_id
            > self.schema_file_id {
            *self = *source;
        }
    }
}

/// What a snapshot holds of a schema file gives it back, but for the version of a
/// schema that has neither a file nor a restore.
pub proof fn law_schema_restored(s: SchemaFileMeta)
    requires
        s.valid() || s.schema_restore_ver > 0 || s == SchemaFileMeta::none(),
    ensures
        SchemaFileMeta::of_opt(s.message()) == s,
{
}

/// A merge keeps one of the two, and never the older of two schemas with one
/// restore version, nor that with the lower file id of two with different ones. Of two that
/// are as new it keeps that of the source; of two with one file id it keeps its own, where the
/// restore versions differ.
pub proof fn law_schema_merge_keeps_newest(s: SchemaFileMeta, source: SchemaFileMeta)
    ensures
        s.merged(source) == s || s.merged(source) == source,
        s.schema_restore_ver == source.schema_restore_ver ==> s.merged(source).schema_file_ver
            >= s.schema_file_ver && s.merged(source).schema_file_ver >= source.schema_file_ver,
        s.schema_restore_ver == source.schema_restore_ver && s.schema_file_ver
            == source.schema_file_ver ==> s.merged(source) == source,
        s.schema_restore_ver != source.schema_restore_ver ==> s.merged(source).schema_file_id
            >= s.schema_file_id && s.merged(source).schema_file_id >= source.schema_file_id,
        s.schema_restore_ver != source.schema_restore_ver && s.schema_file_id
            == source.schema_file_id ==> s.merged(source) == s,
{
}

} // verus!

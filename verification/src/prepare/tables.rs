//! Loading the files of a shard, those that are on local disk and those that are not.
use vstd::prelude::*;

use crate::file_meta::FileMeta;
use crate::prepare::kind::{kind_of_file, FilePrepareType};
use crate::prepare::load::{prepare_type_of, RemoteLoads};

verus! {

/// What is to be done next.
pub enum LoadAction {
    /// Try to open a file on local disk, in the way that is given.
    OpenLocal {
        /// The file.
        id: u64,
        /// How it is made readable.
        kind: FilePrepareType,
    },
    /// Wait for a file that is being read from remote, and add it.
    Receive,
    /// All files are there.
    Done,
}

/// Loads files: each is opened on local disk, or read from remote where that fails. Of
/// those that are read from remote no more are under way than the limit and one.
pub struct TableLoads {
    /// The files.
    pub ids: Vec<(u64, FileMeta)>,
    /// Parts of files can be cached.
    pub ia_enabled: bool,
    /// All files of which parts can be read are made remote.
    pub force_ia: bool,
    /// How the files of the shard are made readable.
    pub shard_prepare_type: FilePrepareType,
    /// Those before it are open or being read.
    pub next: usize,
    /// Counts the files that are being read.
    pub loads: RemoteLoads,
    /// One more is being read than may be.
    pub full: bool,
}

impl TableLoads {
    /// The next file is one of the files or behind the last.
    pub open spec fn wf(self) -> bool {
        &&& self.next <= self.ids@.len()
        &&& self.loads.wf()
        &&& self.full ==> self.loads.under_way() == self.loads.bound()
    }

    /// How many files are being read.
    pub open spec fn under_way(self) -> int {
        self.loads.under_way() + (if self.full {
            1int
        } else {
            0
        })
    }

    /// How a file is made readable.
    pub open spec fn kind(self, fm: FileMeta) -> FilePrepareType {
        if self.ia_enabled {
            kind_of_file(self.shard_prepare_type, fm, self.force_ia)
        } else {
            FilePrepareType::Local
        }
    }

    /// Nothing but how far the loading has come differs.
    pub open spec fn same_files(self, other: Self) -> bool {
        &&& self.ids == other.ids
        &&& self.ia_enabled == other.ia_enabled
        &&& self.force_ia == other.force_ia
        &&& self.shard_prepare_type == other.shard_prepare_type
        &&& self.loads.bound() == other.loads.bound()
    }

    /// Loads the files.
    pub fn new(
        ids: Vec<(u64, FileMeta)>,
        ia_enabled: bool,
        force_ia: bool,
        shard_prepare_type: FilePrepareType,
        limit: usize,
    ) -> (res: Self)
        ensures
            res.wf(),
            res.ids == ids,
            res.ia_enabled == ia_enabled,
            res.force_ia == force_ia,
            res.shard_prepare_type == shard_prepare_type,
            res.next == 0,
            res.under_way() == 0,
            res.loads.bound() == limit,
    {
        TableLoads {
            ids,
            ia_enabled,
            force_ia,
            shard_prepare_type,
            next: 0,
            loads: RemoteLoads::new(limit),
            full: false,
        }
    }

    /// What is to be done next. There is nothing more to be done if and only if all
    /// files were taken and none is being read.
    pub fn action(&self) -> (res: LoadAction)
        requires
            self.wf(),
        ensures
            match res {
                LoadAction::OpenLocal { id, kind } => {
                    &&& self.next < self.ids@.len()
                    &&& !self.full
                    &&& id == self.ids@[self.next as int].0
                    &&& kind == self.kind(self.ids@[self.next as int].1)
                },
                LoadAction::Receive => self.under_way() > 0 && (self.full || self.next
                    == self.ids@.len()),
                LoadAction::Done => self.next == self.ids@.len() && self.under_way() == 0,
            },
    {
        if self.full {
            return LoadAction::Receive;
        }
        if self.next < self.ids.len() {
            let file = &self.ids[self.next];
            return LoadAction::OpenLocal {
                id: file.0,
                kind: prepare_type_of(
                    self.ia_enabled,
                    self.shard_prepare_type,
                    &file.1,
                    self.force_ia,
                ),
            };
        }
        if self.loads.count() > 0 {
            LoadAction::Receive
        } else {
            LoadAction::Done
        }
    }

    /// The file was opened on local disk, or it is being read from remote.
    pub fn on_opened(&mut self, opened: bool)
        requires
            old(self).wf(),
            old(self).next < old(self).ids@.len(),
            !old(self).full,
        ensures
            final(self).wf(),
            final(self).same_files(*old(self)),
            final(self).next == old(self).next + 1,
            final(self).under_way() == old(self).under_way() + (if opened {
                0int
            } else {
                1
            }),
            final(self).under_way() <= final(self).loads.bound() + 1,
    {
        if !opened {
            self.full = self.loads.spawn();
        }
        if self.next < self.ids.len() {
            self.next = self.next + 1;
        }
    }

    /// A file that was being read is there.
    pub fn on_received(&mut self)
        requires
            old(self).wf(),
            old(self).under_way() > 0,
        ensures
            final(self).wf(),
            final(self).same_files(*old(self)),
            final(self).next == old(self).next,
            final(self).under_way() == old(self).under_way() - 1,
    {
        if self.full {
            self.full = false;
        } else {
            self.loads.received();
        }
    }
}

} // verus!

//! Reading segments: from memory, from the main store or from remote.
use bytes::Bytes;
use vstd::prelude::*;

use crate::buf::content;
use crate::ia::cache::{lookup, FileSegmentData, SegmentMap};
use crate::ia::fifo::{
    law_read_only_takes_out_of_the_cache, law_read_queues_nothing_else, Fifo, S3Fifo, Store,
    StoreAction,
};
use crate::ia::manager::{ReadAt, SegmentHandle};
use crate::ia::queue::QueueItemPos;
use crate::ia::segment::{FileSegmentIdent, IaError};

verus! {

/// The data of a segment has its length.
pub open spec fn fits(data: FileSegmentData, ident: FileSegmentIdent) -> bool {
    match data {
        FileSegmentData::InMem(bytes) => content(bytes).len() == ident.len(),
        FileSegmentData::InStore => true,
    }
}

/// What is to be done to read a segment.
#[derive(Clone, Copy, Debug, PartialEq, Eq, Structural)]
pub enum SegmentStep {
    /// It was read from memory.
    Done,
    /// It is to be read from the main store.
    FromStore,
    /// It is to be read from remote.
    FromRemote,
}

/// The read lies in the segment.
pub open spec fn inside(read_at: ReadAt, ident: FileSegmentIdent) -> bool {
    ident.start_off <= read_at.start() && read_at.start() + read_at.read().len() <= ident.end_off
}

/// The read has got the bytes of the segment that it asked for, and what keeps them at
/// hand if it wants that.
pub open spec fn filled(
    before: ReadAt,
    after: ReadAt,
    ident: FileSegmentIdent,
    data: Bytes,
) -> bool {
    let from = before.start() - ident.start_off;
    &&& after.start() == before.start()
    &&& after.wants_handle() == before.wants_handle()
    &&& after.read() == content(data).subrange(from, from + before.read().len())
    &&& after.handle() == (if before.wants_handle() {
        Some(SegmentHandle { file_id: ident.file_id, data: Some(data) })
    } else {
        before.handle()
    })
}

/// Caches segments, and says where they are to be read from.
pub struct IaManagerCore {
    /// What is cached.
    pub segments: SegmentMap,
    /// Which of them leave the cache.
    pub fifo: S3Fifo,
}

impl IaManagerCore {
    /// The data of each cached segment has its length.
    pub open spec fn wf(self) -> bool {
        &&& self.fifo.wf()
        &&& forall|ident: FileSegmentIdent| #[trigger]
            self.segments@.contains_key(ident) ==> fits(self.segments@[ident], ident)
    }

    /// Reads from what is in memory, or says where the segment is to be read from.
    pub fn read_segment_from_cache(&self, ident: FileSegmentIdent, read_at: &mut ReadAt) -> (res:
        Result<SegmentStep, IaError>)
        requires
            self.wf(),
            ident.wf(),
            old(read_at).wf(),
            old(read_at).wants_handle() ==> old(read_at).handle() is None,
        ensures
            final(read_at).wf(),
            res is Err <==> !inside(*old(read_at), ident),
            res is Err ==> res->Err_0 == IaError::InvalidRange(ident),
            res is Ok ==> match lookup(self.segments@, ident) {
                Some(FileSegmentData::InMem(data)) => res->Ok_0 == SegmentStep::Done && filled(
                    *old(read_at),
                    *final(read_at),
                    ident,
                    data,
                ),
                Some(FileSegmentData::InStore) => res->Ok_0 == SegmentStep::FromStore
                    && *final(read_at) == *old(read_at),
                None => res->Ok_0 == SegmentStep::FromRemote && *final(read_at) == *old(read_at),
            },
            res is Err ==> *final(read_at) == *old(read_at),
    {
        match read_at.check_range(ident) {
            Ok(_) => {},
            Err(e) => {
                return Err(e);
            },
        }
        match self.segments.get_segment(ident) {
            Some(FileSegmentData::InMem(data)) => {
                assert(fits(self.segments@[ident], ident));
                read_at.read_from_segment_bytes(ident, &data);
                Ok(SegmentStep::Done)
            },
            Some(FileSegmentData::InStore) => Ok(SegmentStep::FromStore),
            None => Ok(SegmentStep::FromRemote),
        }
    }

    /// A segment was read from remote: it is in memory from now on. The result says
    /// which queue it is in and what is to be done in the main store.
    pub fn on_loaded(
        &mut self,
        ident: FileSegmentIdent,
        data: Bytes,
        now: u64,
        read_at: &mut ReadAt,
    ) -> (res: Result<(QueueItemPos, Vec<StoreAction>), IaError>)
        requires
            old(self).wf(),
            ident.wf(),
            old(self).fifo.bytes() + ident.len() <= i64::MAX,
            old(read_at).wf(),
            old(read_at).wants_handle() ==> old(read_at).handle() is None,
            inside(*old(read_at), ident),
            content(data).len() == ident.len(),
        ensures
            final(self).wf(),
            final(self).fifo.same_limits(old(self).fifo),
            final(read_at).wf(),
            res is Err <==> old(self).fifo.small_cap() > 0 && ident.len()
                > old(self).fifo.small_cap(),
            res is Err ==> {
                &&& res->Err_0 == IaError::TooLargeItem(ident)
                &&& final(self).segments@ == old(self).segments@.insert(
                    ident,
                    FileSegmentData::InMem(data),
                )
                &&& final(self).fifo == old(self).fifo
                &&& *final(read_at) == *old(read_at)
            },
            res is Ok ==> {
                let cached = old(self).segments@.insert(ident, FileSegmentData::InMem(data));
                let before = old(self).fifo.with(cached, Seq::empty());
                &&& filled(*old(read_at), *final(read_at), ident, data)
                &&& res->Ok_0.0 == before.read_in(ident, false, old(self).fifo.small_cap())
                &&& final(self).fifo.with(final(self).segments@, res->Ok_0.1@)
                    == before.after_read(
                    ident,
                    false,
                    now,
                    old(self).fifo.interval(),
                    old(self).fifo.small_cap(),
                    old(self).fifo.main_cap(),
                )
            },
    {
        self.segments.set_segment_data(ident, FileSegmentData::InMem(data.clone()));
        let ghost before = *self;
        match self.fifo.read(ident, false, now, &mut self.segments) {
            Ok(done) => {
                proof {
                    before.lemma_read_keeps_wf(*self, ident, false, now, done.1@);
                }
                read_at.read_from_segment_bytes(ident, &data);
                Ok(done)
            },
            Err(e) => Err(e),
        }
    }

    /// A segment was read from the cache.
    pub fn on_cache_hit(&mut self, ident: FileSegmentIdent, now: u64) -> (res: Result<
        (QueueItemPos, Vec<StoreAction>),
        IaError,
    >)
        requires
            old(self).wf(),
            ident.wf(),
            old(self).fifo.bytes() + ident.len() <= i64::MAX,
        ensures
            final(self).wf(),
            final(self).fifo.same_limits(old(self).fifo),
            res is Err <==> old(self).fifo.small_cap() > 0 && ident.len()
                > old(self).fifo.small_cap(),
            res is Err ==> {
                &&& res->Err_0 == IaError::TooLargeItem(ident)
                &&& final(self).segments@ == old(self).segments@
                &&& final(self).fifo == old(self).fifo
            },
            res is Ok ==> {
                let before = old(self).fifo.with(old(self).segments@, Seq::empty());
                &&& res->Ok_0.0 == before.read_in(ident, false, old(self).fifo.small_cap())
                &&& final(self).fifo.with(final(self).segments@, res->Ok_0.1@)
                    == before.after_read(
                    ident,
                    false,
                    now,
                    old(self).fifo.interval(),
                    old(self).fifo.small_cap(),
                    old(self).fifo.main_cap(),
                )
            },
    {
        let ghost before = *self;
        match self.fifo.read(ident, false, now, &mut self.segments) {
            Ok(done) => {
                proof {
                    before.lemma_read_keeps_wf(*self, ident, false, now, done.1@);
                }
                Ok(done)
            },
            Err(e) => Err(e),
        }
    }

    /// The cache after a read is as good as before it.
    proof fn lemma_read_keeps_wf(
        self,
        after: Self,
        ident: FileSegmentIdent,
        insert_main: bool,
        now: u64,
        actions: Seq<StoreAction>,
    )
        requires
            self.wf(),
            ident.wf(),
            after.fifo.wf(),
            after.fifo.with(after.segments@, actions) == self.fifo.with(
                self.segments@,
                Seq::empty(),
            ).after_read(
                ident,
                insert_main,
                now,
                self.fifo.interval(),
                self.fifo.small_cap(),
                self.fifo.main_cap(),
            ),
        ensures
            after.wf(),
    {
        let f = self.fifo.with(self.segments@, Seq::empty());
        self.fifo.lemma_wf(self.segments@, Seq::empty());
        self.fifo.lemma_segments(self.segments@, Seq::empty());
        after.fifo.lemma_segments(after.segments@, actions);
        law_read_only_takes_out_of_the_cache(
            f,
            ident,
            insert_main,
            now,
            self.fifo.interval(),
            self.fifo.small_cap(),
            self.fifo.main_cap(),
        );
        assert forall|i: FileSegmentIdent| #[trigger]
            after.segments@.contains_key(i) implies fits(after.segments@[i], i) by {
            assert(after.segments@.dom().contains(i));
            assert(self.segments@.contains_key(i));
        }
    }

    /// Whether a segment is cached.
    pub fn contains_segment(&self, ident: FileSegmentIdent) -> (res: bool)
        ensures
            res == self.segments@.contains_key(ident),
    {
        self.segments.is_segment_cached(ident)
    }

    /// Takes over segments that were found in the main store: they are in the cache and in
    /// the main queue. What is to be done in the main store is added to `actions`. A segment
    /// that is too large ends it: those before it are taken over, and it is in the cache, but
    /// it is not queued.
    pub fn init_segments(
        &mut self,
        found: &Vec<FileSegmentIdent>,
        now: u64,
        actions: &mut Vec<StoreAction>,
    ) -> (res: Result<(), IaError>)
        requires
            old(self).wf(),
            forall|i: int| 0 <= i < found@.len() ==> (#[trigger] found@[i]).wf(),
            old(self).fifo.bytes() + lengths(found@) <= i64::MAX,
        ensures
            final(self).wf(),
            final(self).fifo.same_limits(old(self).fifo),
            match res {
                Ok(_) => {
                    &&& forall|i: int|
                        0 <= i < found@.len() ==> !old(self).fifo.too_large(#[trigger] found@[i])
                    &&& final(self).fifo.with(final(self).segments@, final(actions)@)
                        == initialized(
                        old(self).fifo.with(old(self).segments@, old(actions)@),
                        found@,
                        now,
                        old(self).fifo,
                    )
                },
                Err(e) => exists|i: int|
                    {
                        let before = old(self).fifo.with(old(self).segments@, old(actions)@);
                        let after = final(self).fifo.with(final(self).segments@, final(actions)@);
                        &&& 0 <= i < found@.len()
                        &&& old(self).fifo.too_large(#[trigger] found@[i])
                        &&& e == IaError::TooLargeItem(found@[i])
                        &&& forall|j: int|
                            0 <= j < i ==> !old(self).fifo.too_large(#[trigger] found@[j])
                        &&& after == cached_only(
                            initialized(before, found@.take(i), now, old(self).fifo),
                            found@[i],
                        )
                        &&& !before.has(found@[i]) ==> !after.has(found@[i])
                    },
            },
    {
        let ghost start = self.fifo;
        let ghost all = start.with(self.segments@, actions@);
        let mut i: usize = 0;
        proof {
            assert(found@.take(0) =~= Seq::empty());
        }
        while i < found.len()
            invariant
                i <= found@.len(),
                start == old(self).fifo,
                all == start.with(old(self).segments@, old(actions)@),
                self.wf(),
                self.fifo.same_limits(start),
                self.fifo.bytes() <= start.bytes() + lengths(found@.take(i as int)),
                start.bytes() + lengths(found@) <= i64::MAX,
                forall|j: int| 0 <= j < found@.len() ==> (#[trigger] found@[j]).wf(),
                forall|j: int| 0 <= j < i ==> !start.too_large(#[trigger] found@[j]),
                self.fifo.with(self.segments@, actions@) == initialized(
                    all,
                    found@.take(i as int),
                    now,
                    start,
                ),
                forall|ident: FileSegmentIdent|
                    start.too_large(ident) && #[trigger] self.fifo.with(
                        self.segments@,
                        actions@,
                    ).has(ident) ==> all.has(ident),
            decreases found@.len() - i,
        {
            let ident = found[i];
            proof {
                assert(found@.take(i + 1).drop_last() =~= found@.take(i as int));
                lemma_lengths_grow(found@, i + 1);
            }
            let ghost at = self.fifo.with(self.segments@, actions@);
            proof {
                self.fifo.lemma_segments(self.segments@, actions@);
            }
            let ghost unread = self.segments@;
            self.segments.set_segment_data(ident, FileSegmentData::InStore);
            let ghost before = *self;
            match self.fifo.read(ident, true, now, &mut self.segments) {
                Ok((_, more)) => {
                    let ghost done = actions@;
                    let mut more = more;
                    let ghost added = more@;
                    proof {
                        before.lemma_read_keeps_wf(*self, ident, true, now, added);
                        before.fifo.lemma_segments(before.segments@, Seq::empty());
                        before.fifo.lemma_wf(before.segments@, Seq::empty());
                        law_read_queues_nothing_else(
                            before.fifo.with(before.segments@, Seq::empty()),
                            ident,
                            true,
                            now,
                            before.fifo.interval(),
                            before.fifo.small_cap(),
                            before.fifo.main_cap(),
                        );
                        self.fifo.lemma_segments(self.segments@, added);
                    }
                    actions.append(&mut more);
                    proof {
                        self.fifo.lemma_segments(self.segments@, actions@);
                        let g = Fifo {
                            store: Store {
                                segments: at.store.segments.insert(
                                    ident,
                                    FileSegmentData::InStore,
                                ),
                                actions: Seq::empty(),
                                ..at.store
                            },
                            ..at
                        };
                        assert(g =~= before.fifo.with(before.segments@, Seq::empty()));
                        assert(self.fifo.with(self.segments@, actions@) =~= taken_over(
                            at,
                            ident,
                            now,
                            start,
                        ));
                        assert forall|other: FileSegmentIdent|
                            start.too_large(other) && #[trigger] self.fifo.with(
                                self.segments@,
                                actions@,
                            ).has(other) implies all.has(other) by {
                            assert(self.fifo.with(self.segments@, added).has(other));
                            assert(at.has(other));
                        }
                    }
                },
                Err(e) => {
                    proof {
                        self.fifo.lemma_segments(unread, actions@);
                        let after = self.fifo.with(self.segments@, actions@);
                        assert(after =~= cached_only(at, ident));
                        assert(after.has(ident) ==> at.has(ident));
                    }
                    return Err(e);
                },
            }
            i = i + 1;
        }
        assert(found@.take(i as int) =~= found@);
        Ok(())
    }
}

/// The lengths of the segments together.
pub open spec fn lengths(s: Seq<FileSegmentIdent>) -> int
    decreases s.len(),
{
    if s.len() == 0 {
        0
    } else {
        lengths(s.drop_last()) + s.last().len()
    }
}

proof fn lemma_lengths_grow(s: Seq<FileSegmentIdent>, n: int)
    requires
        0 <= n <= s.len(),
        forall|i: int| 0 <= i < s.len() ==> (#[trigger] s[i]).wf(),
    ensures
        lengths(s.take(n)) <= lengths(s),
    decreases s.len() - n,
{
    if n < s.len() {
        lemma_lengths_grow(s, n + 1);
        assert(s.take(n + 1).drop_last() =~= s.take(n));
        assert(s[n].wf());
    } else {
        assert(s.take(n) =~= s);
    }
}

/// A segment of the main store is in the cache; the queues stay as they are.
pub open spec fn cached_only(f: Fifo, ident: FileSegmentIdent) -> Fifo {
    Fifo {
        store: Store {
            segments: f.store.segments.insert(ident, FileSegmentData::InStore),
            ..f.store
        },
        ..f
    }
}

/// The queues after a segment of the main store was taken over. `limits` says how large
/// they are.
pub open spec fn taken_over(f: Fifo, ident: FileSegmentIdent, now: u64, limits: S3Fifo) -> Fifo {
    let read = (Fifo {
        store: Store {
            segments: f.store.segments.insert(ident, FileSegmentData::InStore),
            actions: Seq::empty(),
            ..f.store
        },
        ..f
    }).after_read(
        ident,
        true,
        now,
        limits.interval(),
        limits.small_cap(),
        limits.main_cap(),
    );
    Fifo {
        store: Store { actions: f.store.actions + read.store.actions, ..read.store },
        ..read
    }
}

/// The queues after segments of the main store were taken over, one behind the other.
pub open spec fn initialized(
    f: Fifo,
    found: Seq<FileSegmentIdent>,
    now: u64,
    limits: S3Fifo,
) -> Fifo
    decreases found.len(),
{
    if found.len() == 0 {
        f
    } else {
        taken_over(initialized(f, found.drop_last(), now, limits), found.last(), now, limits)
    }
}

/// What is to be done next to read a segment.
#[derive(Clone, Copy, Debug, PartialEq, Eq, Structural)]
pub enum SegmentReadStep {
    /// Look in the cache.
    Look,
    /// Wait until no other read loads the segment.
    Lock,
    /// Load the segment from remote.
    Load,
    /// The segment was read. It was cached or it was not.
    Finished {
        /// It was cached.
        cache_hit: bool,
    },
}

/// A read of a segment. What is not cached is looked for again once no other read loads
/// the segment: the other one may have brought it.
#[derive(Clone, Copy, Debug, PartialEq, Eq, Structural)]
pub struct SegmentRead {
    /// No other read loads the segment.
    pub locked: bool,
    /// What is to be done next.
    pub step: SegmentReadStep,
}

impl SegmentRead {
    /// A read that begins with a look in the cache.
    pub fn new() -> (res: Self)
        ensures
            res == (SegmentRead { locked: false, step: SegmentReadStep::Look }),
    {
        SegmentRead { locked: false, step: SegmentReadStep::Look }
    }

    /// The segment was found in the cache, or was not.
    pub fn on_look(&mut self, found: bool)
        requires
            old(self).step == SegmentReadStep::Look,
        ensures
            final(self).locked == old(self).locked,
            final(self).step == (if found {
                SegmentReadStep::Finished { cache_hit: true }
            } else if old(self).locked {
                SegmentReadStep::Load
            } else {
                SegmentReadStep::Lock
            }),
    {
        self.step = if found {
            SegmentReadStep::Finished { cache_hit: true }
        } else if self.locked {
            SegmentReadStep::Load
        } else {
            SegmentReadStep::Lock
        };
    }

    /// No other read loads the segment from now on.
    pub fn on_locked(&mut self)
        requires
            old(self).step == SegmentReadStep::Lock,
        ensures
            *final(self) == (SegmentRead { locked: true, step: SegmentReadStep::Look }),
    {
        self.locked = true;
        self.step = SegmentReadStep::Look;
    }

    /// The segment was loaded.
    pub fn on_load(&mut self)
        requires
            old(self).step == SegmentReadStep::Load,
        ensures
            final(self).locked == old(self).locked,
            final(self).step == (SegmentReadStep::Finished { cache_hit: false }),
    {
        self.step = SegmentReadStep::Finished { cache_hit: false };
    }
}

impl ReadAt {
    /// Takes what the main store gave: what keeps the segment at hand, if that is wanted,
    /// and the bytes. The result says whether the segment was there. Where no bytes are
    /// asked for that is not looked at.
    pub fn read_segment_from_local_store(
        &mut self,
        handle: Option<SegmentHandle>,
        data: Option<Vec<u8>>,
    ) -> (res: bool)
        requires
            old(self).wf(),
            old(self).wants_handle() ==> old(self).handle() is None,
            data is Some ==> data->0@.len() == old(self).read().len(),
        ensures
            final(self).wf(),
            final(self).start() == old(self).start(),
            final(self).wants_handle() == old(self).wants_handle(),
            final(self).handle() == (if old(self).wants_handle() && handle is Some {
                handle
            } else {
                old(self).handle()
            }),
            if old(self).wants_handle() && handle is None {
                !res && final(self).read() == old(self).read()
            } else if old(self).read().len() == 0 {
                res && final(self).read() == old(self).read()
            } else {
                &&& res == data is Some
                &&& final(self).read() == (if data is Some {
                    data->0@
                } else {
                    old(self).read()
                })
            },
    {
        if self.wants() {
            match handle {
                Some(handle) => self.set_handle(handle),
                None => {
                    return false;
                },
            }
        }
        if self.length() == 0 {
            return true;
        }
        match data {
            Some(data) => {
                self.set_read(data);
                true
            },
            None => false,
        }
    }
}

} // verus!

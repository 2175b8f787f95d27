//! Which segments stay cached: first in first out through a small queue, a main
//! queue, and a memory of what left the small one.
use bytes::Bytes;
use vstd::prelude::*;

use crate::codec::{le_bytes, put_u64_le};
use crate::fingerprint::{farm_fingerprint, fingerprint64};
use crate::ia::cache::{lookup, FileSegmentData, SegmentMap};
use crate::ia::queue::{
    bytes_of, idents_of, lemma_bytes_first, lemma_bytes_nonneg, lemma_bytes_same, lemma_rest_wf,
    lemma_turned, lemma_turned_len, place_of, queue_wf, queued, turned, unused, Entry, Queue,
    QueueItem, QueueItemPos, MAX_FREQ,
};
use crate::ia::segment::{FileSegmentIdent, IaError};

verus! {

/// The bytes of which the fingerprint of a segment is taken.
pub open spec fn ident_bytes(ident: FileSegmentIdent) -> Seq<u8> {
    le_bytes(ident.file_id as nat, 8) + le_bytes(ident.start_off as nat, 8) + le_bytes(
        ident.end_off as nat,
        8,
    )
}

/// Where a segment is remembered.
pub open spec fn ghost_place(ident: FileSegmentIdent, len: int) -> int {
    (farm_fingerprint(ident_bytes(ident)) as usize) as int % len
}

/// Something to be done in the main store.
#[derive(Debug)]
pub enum StoreAction {
    /// The segment is written.
    Save(FileSegmentIdent, Bytes),
    /// The segment is deleted.
    Remove(FileSegmentIdent),
}

/// The main queue, what is cached, and what is to be done in the main store.
#[verifier::ext_equal]
pub struct Store {
    /// The main queue.
    pub main: Seq<Entry>,
    /// The cached segments.
    pub segments: Map<FileSegmentIdent, FileSegmentData>,
    /// What is to be done in the main store.
    pub actions: Seq<StoreAction>,
}

/// The queues.
#[verifier::ext_equal]
pub struct Fifo {
    /// The small queue.
    pub small: Seq<Entry>,
    /// What left the small queue, by fingerprint.
    pub ghosts: Seq<Option<FileSegmentIdent>>,
    /// The main queue and the cache.
    pub store: Store,
}

/// What is to be done where a segment leaves the cache.
pub open spec fn removal(data: Option<FileSegmentData>, ident: FileSegmentIdent) -> Seq<StoreAction> {
    if data matches Some(FileSegmentData::InStore) {
        seq![StoreAction::Remove(ident)]
    } else {
        Seq::empty()
    }
}

impl Store {
    /// After a segment left the cache.
    pub open spec fn dropped(self, ident: FileSegmentIdent) -> Store {
        Store {
            main: self.main,
            segments: self.segments.remove(ident),
            actions: self.actions + removal(lookup(self.segments, ident), ident),
        }
    }

    /// After segments left until the main queue fits: each time the first of those
    /// that were used least.
    pub open spec fn evicted(self, cap: i64) -> Store
        decreases self.main.len(),
    {
        if bytes_of(self.main) > cap && self.main.len() > 0 {
            let t = turned(self.main);
            proof {
                lemma_turned_len(self.main);
            }
            (Store { main: t.drop_first(), ..self }).dropped(t[0].0).evicted(cap)
        } else {
            self
        }
    }

    /// After a segment came into the main queue. One that is not cached is skipped;
    /// one that is in memory is to be written.
    pub open spec fn inserted(self, ident: FileSegmentIdent, cap: i64) -> Store {
        match lookup(self.segments, ident) {
            Some(data) => (Store {
                main: self.main.push((ident, unused())),
                segments: self.segments,
                actions: self.actions + (match data {
                    FileSegmentData::InMem(b) => seq![StoreAction::Save(ident, b)],
                    FileSegmentData::InStore => Seq::empty(),
                }),
            }).evicted(cap),
            None => self,
        }
    }
}

/// The memory with one more segment.
pub open spec fn ghost_inserted(
    ghosts: Seq<Option<FileSegmentIdent>>,
    ident: FileSegmentIdent,
) -> Seq<Option<FileSegmentIdent>> {
    ghosts.update(ghost_place(ident, ghosts.len() as int), Some(ident))
}

impl Fifo {
    /// After segments left until the small queue fits: those that were used more
    /// than once go to the main queue, the others leave the cache and are
    /// remembered.
    pub open spec fn small_evicted(self, small_cap: i64, main_cap: i64) -> Fifo
        decreases self.small.len(),
    {
        if bytes_of(self.small) > small_cap && self.small.len() > 0 {
            let e = self.small[0];
            if e.1.freq > 1 {
                (Fifo {
                    small: self.small.drop_first(),
                    ghosts: self.ghosts,
                    store: self.store.inserted(e.0, main_cap),
                }).small_evicted(small_cap, main_cap)
            } else {
                (Fifo {
                    small: self.small.drop_first(),
                    ghosts: ghost_inserted(self.ghosts, e.0),
                    store: self.store.dropped(e.0),
                }).small_evicted(small_cap, main_cap)
            }
        } else {
            self
        }
    }

    /// The segment left the small queue not long ago.
    pub open spec fn remembers(self, ident: FileSegmentIdent) -> bool {
        self.ghosts[ghost_place(ident, self.ghosts.len() as int)] == Some(ident)
    }

    /// No segment is in both queues or twice in one, and there is a memory.
    pub open spec fn wf(self) -> bool {
        &&& queue_wf(self.small)
        &&& queue_wf(self.store.main)
        &&& self.ghosts.len() > 0
        &&& forall|i: FileSegmentIdent|
            !(#[trigger] queued(self.small, i) && queued(self.store.main, i))
    }

    /// After a segment was read.
    pub open spec fn after_read(
        self,
        ident: FileSegmentIdent,
        insert_main: bool,
        now: u64,
        interval_secs: u64,
        small_cap: i64,
        main_cap: i64,
    ) -> Fifo {
        if queued(self.small, ident) {
            let k = place_of(self.small, ident);
            Fifo {
                small: self.small.update(
                    k,
                    (ident, self.small[k].1.accessed(now, interval_secs)),
                ),
                ..self
            }
        } else if queued(self.store.main, ident) {
            let k = place_of(self.store.main, ident);
            Fifo {
                store: Store {
                    main: self.store.main.update(
                        k,
                        (ident, self.store.main[k].1.accessed(now, interval_secs)),
                    ),
                    ..self.store
                },
                ..self
            }
        } else if insert_main || small_cap == 0 || self.remembers(ident) {
            Fifo { store: self.store.inserted(ident, main_cap), ..self }
        } else {
            (Fifo { small: self.small.push((ident, unused())), ..self }).small_evicted(
                small_cap,
                main_cap,
            )
        }
    }

    /// Which queue the segment is read in.
    pub open spec fn read_in(self, ident: FileSegmentIdent, insert_main: bool, small_cap: i64) -> QueueItemPos {
        if queued(self.small, ident) {
            QueueItemPos::Small
        } else if queued(self.store.main, ident) || insert_main || small_cap == 0
            || self.remembers(ident) {
            QueueItemPos::Main
        } else {
            QueueItemPos::Small
        }
    }
}

/// The segments of `a` are among those of `b`.
pub open spec fn subset(a: Seq<Entry>, b: Seq<Entry>) -> bool {
    forall|i: FileSegmentIdent| #[trigger] queued(a, i) ==> queued(b, i)
}

proof fn lemma_queued_set(s: Seq<Entry>, ident: FileSegmentIdent)
    ensures
        queued(s, ident) == idents_of(s).to_set().contains(ident),
{
}

proof fn lemma_queued_push(s: Seq<Entry>, e: Entry, ident: FileSegmentIdent)
    ensures
        queued(s.push(e), ident) == (queued(s, ident) || ident == e.0),
{
    let a = idents_of(s);
    let b = idents_of(s.push(e));
    assert(b =~= a.push(e.0));
    if a.contains(ident) {
        let i = choose|i: int| 0 <= i < a.len() && a[i] == ident;
        assert(b[i] == ident);
    }
    assert(b[a.len() as int] == e.0);
}

/// Evicting keeps the queue well-formed and adds no segment; the queue then fits,
/// and what left it left the cache.
pub proof fn lemma_evicted(st: Store, cap: i64)
    requires
        queue_wf(st.main),
    ensures
        queue_wf(st.evicted(cap).main),
        subset(st.evicted(cap).main, st.main),
        bytes_of(st.evicted(cap).main) <= bytes_of(st.main),
        cap >= 0 ==> bytes_of(st.evicted(cap).main) <= cap,
        st.evicted(cap).segments.submap_of(st.segments),
        forall|i: FileSegmentIdent|
            queued(st.main, i) && !#[trigger] queued(st.evicted(cap).main, i)
                ==> !st.evicted(cap).segments.contains_key(i),
        forall|i: FileSegmentIdent|
            !queued(st.main, i) ==> #[trigger] lookup(st.evicted(cap).segments, i) == lookup(
                st.segments,
                i,
            ),
    decreases st.main.len(),
{
    lemma_bytes_nonneg(st.main);
    if bytes_of(st.main) > cap && st.main.len() > 0 {
        let t = turned(st.main);
        lemma_turned(st.main);
        lemma_rest_wf(t);
        let next = (Store { main: t.drop_first(), ..st }).dropped(t[0].0);
        lemma_bytes_first(t);
        lemma_bytes_nonneg(t.drop_first());
        assert(t[0].0.wf());
        lemma_evicted(next, cap);
        assert forall|i: FileSegmentIdent| #[trigger] queued(t.drop_first(), i) <==> queued(
            st.main,
            i,
        ) && i != t[0].0 by {
            lemma_queued_set(t.drop_first(), i);
            lemma_queued_set(t, i);
            lemma_queued_set(st.main, i);
        }
        assert forall|i: FileSegmentIdent|
            queued(st.main, i) && !#[trigger] queued(
                st.evicted(cap).main,
                i,
            ) implies !st.evicted(cap).segments.contains_key(i) by {
            if i == t[0].0 {
                assert(!next.segments.contains_key(i));
            } else {
                assert(queued(t.drop_first(), i));
            }
        }
        assert forall|i: FileSegmentIdent| !queued(st.main, i) implies #[trigger] lookup(
            st.evicted(cap).segments,
            i,
        ) == lookup(st.segments, i) by {
            lemma_queued_set(t, i);
            lemma_queued_set(st.main, i);
            assert(idents_of(t)[0] == t[0].0);
            assert(queued(t, t[0].0));
            assert(i != t[0].0);
            assert(lookup(next.segments, i) == lookup(st.segments, i));
        }
    }
}

/// The cache policy for segments.
pub struct S3Fifo {
    small_queue: Queue,
    main_queue: Queue,
    ghost_queue: Vec<Option<FileSegmentIdent>>,
    freq_update_interval_secs: u64,
}

impl S3Fifo {
    /// The queues with a cache and what is to be done in the main store.
    pub closed spec fn with(
        self,
        segments: Map<FileSegmentIdent, FileSegmentData>,
        actions: Seq<StoreAction>,
    ) -> Fifo {
        Fifo {
            small: self.small_queue@,
            ghosts: self.ghost_queue@,
            store: Store { main: self.main_queue@, segments, actions },
        }
    }

    /// How many bytes the small queue is to hold at most.
    pub closed spec fn small_cap(self) -> i64 {
        self.small_queue.limit()
    }

    /// How many bytes the main queue is to hold at most.
    pub closed spec fn main_cap(self) -> i64 {
        self.main_queue.limit()
    }

    /// How long a use is not counted after one that was.
    pub closed spec fn interval(self) -> u64 {
        self.freq_update_interval_secs
    }

    /// The bytes of all queued segments.
    pub closed spec fn bytes(self) -> int {
        bytes_of(self.small_queue@) + bytes_of(self.main_queue@)
    }

    /// No segment is in both queues or twice in one.
    pub closed spec fn wf(self) -> bool {
        &&& self.small_queue.wf()
        &&& self.main_queue.wf()
        &&& self.with(Map::empty(), Seq::empty()).wf()
    }

    /// What `wf` says of the queues.
    pub proof fn lemma_wf(
        self,
        segments: Map<FileSegmentIdent, FileSegmentData>,
        actions: Seq<StoreAction>,
    )
        requires
            self.wf(),
        ensures
            self.with(segments, actions).wf(),
            self.bytes() == bytes_of(self.with(segments, actions).small) + bytes_of(
                self.with(segments, actions).store.main,
            ),
    {
        let a = self.with(Map::empty(), Seq::empty());
        let b = self.with(segments, actions);
        assert(a.small == b.small && a.ghosts == b.ghosts && a.store.main == b.store.main);
    }

    /// What the queues, the cache and what is to be done are together.
    pub proof fn lemma_segments(
        self,
        segments: Map<FileSegmentIdent, FileSegmentData>,
        actions: Seq<StoreAction>,
    )
        ensures
            self.with(segments, actions).store.segments == segments,
            self.with(segments, actions).store.actions == actions,
            forall|m: Map<FileSegmentIdent, FileSegmentData>, a: Seq<StoreAction>|
                {
                    let f = self.with(segments, actions);
                    #[trigger] self.with(m, a) == (Fifo {
                        store: Store { segments: m, actions: a, ..f.store },
                        ..f
                    })
                },
    {
    }

    /// The queues may be as large as the others, and uses are counted alike.
    pub open spec fn same_limits(self, other: Self) -> bool {
        &&& self.small_cap() == other.small_cap()
        &&& self.main_cap() == other.main_cap()
        &&& self.interval() == other.interval()
    }

    /// The segment does not fit the small queue.
    pub open spec fn too_large(self, ident: FileSegmentIdent) -> bool {
        self.small_cap() > 0 && ident.len() > self.small_cap()
    }

    /// Empty queues. A capacity of zero leaves the small queue out.
    pub fn new(
        small_cap: i64,
        main_cap: i64,
        avg_item_size: i64,
        freq_update_interval_secs: u64,
    ) -> (res: Self)
        requires
            0 <= small_cap,
            0 < avg_item_size <= main_cap,
            main_cap <= usize::MAX,
        ensures
            res.wf(),
            res.small_cap() == small_cap,
            res.main_cap() == main_cap,
            res.interval() == freq_update_interval_secs,
            res.bytes() == 0,
            res.with(Map::empty(), Seq::empty()) == (Fifo {
                small: Seq::empty(),
                ghosts: Seq::new((main_cap / avg_item_size) as nat, |i: int| None),
                store: Store { main: Seq::empty(), segments: Map::empty(), actions: Seq::empty() },
            }),
    {
        let len = main_cap / avg_item_size;
        assert(1 <= len <= main_cap) by (nonlinear_arith)
            requires
                0 < avg_item_size <= main_cap,
                len == main_cap / avg_item_size,
        ;
        let mut ghost_queue: Vec<Option<FileSegmentIdent>> = Vec::new();
        let mut i: i64 = 0;
        while i < len
            invariant
                0 <= i <= len,
                ghost_queue@ =~= Seq::new(i as nat, |i: int| None::<FileSegmentIdent>),
            decreases len - i,
        {
            ghost_queue.push(None);
            i = i + 1;
        }
        let res = S3Fifo {
            small_queue: Queue::new(small_cap),
            main_queue: Queue::new(main_cap),
            ghost_queue,
            freq_update_interval_secs,
        };
        proof {
            res.small_queue.lemma_wf();
            res.main_queue.lemma_wf();
            assert(idents_of(res.small_queue@) =~= Seq::empty());
        }
        res
    }

    fn ghost_index(&self, ident: FileSegmentIdent) -> (res: usize)
        requires
            self.ghost_queue@.len() > 0,
        ensures
            res == ghost_place(ident, self.ghost_queue@.len() as int),
            res < self.ghost_queue@.len(),
    {
        let mut data: Vec<u8> = Vec::new();
        put_u64_le(&mut data, ident.file_id);
        put_u64_le(&mut data, ident.start_off);
        put_u64_le(&mut data, ident.end_off);
        assert(data@ =~= ident_bytes(ident));
        let fingerprint = fingerprint64(data.as_slice());
        fingerprint as usize % self.ghost_queue.len()
    }

    /// Whether the sizes can still be counted once the segment is queued too.
    pub fn has_room(&self, ident: FileSegmentIdent) -> (res: bool)
        requires
            self.wf(),
            ident.wf(),
        ensures
            res == (self.bytes() + ident.len() <= i64::MAX),
    {
        let queued: i128 = self.small_queue.size() as i128 + self.main_queue.size() as i128;
        queued + ident.size() as i128 <= i64::MAX as i128
    }

    /// Whether the segment left the small queue not long ago.
    pub fn is_in_ghost(&self, ident: FileSegmentIdent) -> (res: bool)
        requires
            self.wf(),
        ensures
            res == self.with(Map::empty(), Seq::empty()).remembers(ident),
    {
        let idx = self.ghost_index(ident);
        match self.ghost_queue[idx] {
            Some(x) => x == ident,
            None => false,
        }
    }

    /// Remembers a segment.
    fn insert_ghost(&mut self, ident: FileSegmentIdent)
        requires
            old(self).ghost_queue@.len() > 0,
        ensures
            final(self).ghost_queue@ == ghost_inserted(old(self).ghost_queue@, ident),
            final(self).small_queue == old(self).small_queue,
            final(self).main_queue == old(self).main_queue,
            final(self).freq_update_interval_secs == old(self).freq_update_interval_secs,
    {
        let idx = self.ghost_index(ident);
        self.ghost_queue.set(idx, Some(ident));
    }

    /// Takes a segment out of the cache.
    fn evict_item(
        ident: FileSegmentIdent,
        segments: &mut SegmentMap,
        actions: &mut Vec<StoreAction>,
    )
        ensures
            final(segments)@ == old(segments)@.remove(ident),
            final(actions)@ == old(actions)@ + removal(lookup(old(segments)@, ident), ident),
    {
        let ghost before = actions@;
        match segments.remove(ident) {
            Some(FileSegmentData::InStore) => {
                actions.push(StoreAction::Remove(ident));
                assert(actions@ =~= before + seq![StoreAction::Remove(ident)]);
            },
            Some(FileSegmentData::InMem(_)) => {
                assert(before + Seq::empty() =~= before);
            },
            None => {
                assert(before + Seq::empty() =~= before);
            },
        }
    }

    /// Evicts until the main queue fits.
    fn evict_main(&mut self, segments: &mut SegmentMap, actions: &mut Vec<StoreAction>)
        requires
            old(self).main_queue.wf(),
        ensures
            final(self).main_queue.wf(),
            final(self).small_queue == old(self).small_queue,
            final(self).ghost_queue == old(self).ghost_queue,
            final(self).freq_update_interval_secs == old(self).freq_update_interval_secs,
            final(self).main_cap() == old(self).main_cap(),
            (Store { main: final(self).main_queue@, segments: final(segments)@, actions: final(actions)@ })
                == (Store { main: old(self).main_queue@, segments: old(segments)@, actions: old(actions)@ }).evicted(
                old(self).main_cap(),
            ),
    {
        let ghost first = Store {
            main: self.main_queue@,
            segments: segments@,
            actions: actions@,
        };
        let ghost limit = self.main_cap();
        let mut cap: Option<i64> = None;
        while self.main_queue.is_oversize(&mut cap)
            invariant_except_break
                self.main_queue.wf(),
                self.small_queue == old(self).small_queue,
                self.ghost_queue == old(self).ghost_queue,
                self.freq_update_interval_secs == old(self).freq_update_interval_secs,
                self.main_cap() == limit,
                cap is None || cap == Some(limit),
                (Store { main: self.main_queue@, segments: segments@, actions: actions@ }).evicted(
                    limit,
                ) == first.evicted(limit),
            ensures
                self.main_queue.wf(),
                self.small_queue == old(self).small_queue,
                self.ghost_queue == old(self).ghost_queue,
                self.freq_update_interval_secs == old(self).freq_update_interval_secs,
                self.main_cap() == limit,
                (Store { main: self.main_queue@, segments: segments@, actions: actions@ })
                    == first.evicted(limit),
            decreases self.main_queue@.len(),
        {
            let ghost now = Store {
                main: self.main_queue@,
                segments: segments@,
                actions: actions@,
            };
            match self.main_queue.pop_with_zero_freq() {
                Some((tail, _meta)) => {
                    proof {
                        lemma_turned_len(now.main);
                    }
                    Self::evict_item(tail, segments, actions);
                },
                None => {
                    break;
                },
            }
        }
    }

    /// Puts a segment into the main queue, if it is cached.
    fn insert_main(
        &mut self,
        ident: FileSegmentIdent,
        segments: &mut SegmentMap,
        actions: &mut Vec<StoreAction>,
    )
        requires
            old(self).main_queue.wf(),
            ident.wf(),
            !queued(old(self).main_queue@, ident),
            bytes_of(old(self).main_queue@) + ident.len() <= i64::MAX,
        ensures
            final(self).main_queue.wf(),
            final(self).small_queue == old(self).small_queue,
            final(self).ghost_queue == old(self).ghost_queue,
            final(self).freq_update_interval_secs == old(self).freq_update_interval_secs,
            final(self).main_cap() == old(self).main_cap(),
            (Store { main: final(self).main_queue@, segments: final(segments)@, actions: final(actions)@ })
                == (Store { main: old(self).main_queue@, segments: old(segments)@, actions: old(actions)@ }).inserted(
                ident,
                old(self).main_cap(),
            ),
    {
        let ghost before = actions@;
        match segments.get_segment(ident) {
            Some(FileSegmentData::InMem(data)) => {
                actions.push(StoreAction::Save(ident, data));
                assert(actions@ =~= before + seq![StoreAction::Save(ident, data)]);
            },
            Some(FileSegmentData::InStore) => {
                assert(before + Seq::empty() =~= before);
            },
            None => {
                return ;
            },
        }
        self.main_queue.push(ident);
        self.evict_main(segments, actions);
    }

    /// Evicts until the small queue fits.
    #[verifier::rlimit(40)]
    fn evict_small(&mut self, segments: &mut SegmentMap, actions: &mut Vec<StoreAction>)
        requires
            old(self).wf(),
            old(self).bytes() <= i64::MAX,
        ensures
            final(self).wf(),
            final(self).bytes() <= old(self).bytes(),
            final(self).small_cap() == old(self).small_cap(),
            final(self).main_cap() == old(self).main_cap(),
            final(self).interval() == old(self).interval(),
            final(self).with(final(segments)@, final(actions)@) == old(self).with(
                old(segments)@,
                old(actions)@,
            ).small_evicted(old(self).small_cap(), old(self).main_cap()),
    {
        let ghost first = self.with(segments@, actions@);
        let ghost limit = self.small_cap();
        let ghost main_limit = self.main_cap();
        let mut cap: Option<i64> = None;
        while self.small_queue.is_oversize(&mut cap)
            invariant_except_break
                self.wf(),
                self.bytes() <= old(self).bytes() <= i64::MAX,
                self.small_cap() == limit,
                self.main_cap() == main_limit,
                self.interval() == old(self).interval(),
                cap is None || cap == Some(limit),
                self.with(segments@, actions@).small_evicted(limit, main_limit)
                    == first.small_evicted(limit, main_limit),
            ensures
                self.wf(),
                self.bytes() <= old(self).bytes(),
                self.small_cap() == limit,
                self.main_cap() == main_limit,
                self.interval() == old(self).interval(),
                self.with(segments@, actions@) == first.small_evicted(limit, main_limit),
            decreases self.small_queue@.len(),
        {
            let ghost now = self.with(segments@, actions@);
            proof {
                self.lemma_wf(segments@, actions@);
                self.small_queue.lemma_wf();
                self.main_queue.lemma_wf();
            }
            match self.small_queue.pop() {
                Some((tail, meta)) => {
                    proof {
                        lemma_rest_wf(now.small);
                        lemma_bytes_first(now.small);
                        lemma_bytes_nonneg(now.small.drop_first());
                        assert(idents_of(now.small)[0] == tail);
                        assert(queued(now.small, tail));
                        assert(now.small[0].0.wf());
                        assert forall|i: FileSegmentIdent| #[trigger] queued(
                            now.small.drop_first(),
                            i,
                        ) <==> queued(now.small, i) && i != tail by {
                            lemma_queued_set(now.small.drop_first(), i);
                            lemma_queued_set(now.small, i);
                        }
                    }
                    if meta.freq() > 1 {
                        self.insert_main(tail, segments, actions);
                        proof {
                            lemma_inserted(now.store, tail, main_limit);
                            assert(self.with(segments@, actions@) =~= Fifo {
                                small: now.small.drop_first(),
                                ghosts: now.ghosts,
                                store: now.store.inserted(tail, main_limit),
                            });
                        }
                    } else {
                        self.insert_ghost(tail);
                        Self::evict_item(tail, segments, actions);
                        proof {
                            assert(self.with(segments@, actions@) =~= Fifo {
                                small: now.small.drop_first(),
                                ghosts: ghost_inserted(now.ghosts, tail),
                                store: now.store.dropped(tail),
                            });
                        }
                    }
                },
                None => {
                    break;
                },
            }
        }
    }

    /// Puts a new segment into the small queue.
    fn insert_small(
        &mut self,
        ident: FileSegmentIdent,
        segments: &mut SegmentMap,
        actions: &mut Vec<StoreAction>,
    )
        requires
            old(self).wf(),
            ident.wf(),
            !queued(old(self).with(Map::empty(), Seq::empty()).small, ident),
            !queued(old(self).with(Map::empty(), Seq::empty()).store.main, ident),
            old(self).bytes() + ident.len() <= i64::MAX,
        ensures
            final(self).wf(),
            final(self).bytes() <= old(self).bytes() + ident.len(),
            final(self).small_cap() == old(self).small_cap(),
            final(self).main_cap() == old(self).main_cap(),
            final(self).interval() == old(self).interval(),
            ({
                let before = old(self).with(old(segments)@, old(actions)@);
                final(self).with(final(segments)@, final(actions)@) == (Fifo {
                    small: before.small.push((ident, unused())),
                    ..before
                }).small_evicted(old(self).small_cap(), old(self).main_cap())
            }),
    {
        let ghost before = self.with(segments@, actions@);
        proof {
            self.small_queue.lemma_wf();
            self.main_queue.lemma_wf();
        }
        self.small_queue.push(ident);
        proof {
            let pushed = before.small.push((ident, unused()));
            assert(pushed.drop_last() =~= before.small);
            self.small_queue.lemma_wf();
            assert forall|i: FileSegmentIdent|
                !(#[trigger] queued(pushed, i) && queued(before.store.main, i)) by {
                lemma_queued_push(before.small, (ident, unused()), i);
                assert(!(queued(before.small, i) && queued(before.store.main, i)));
            }
            assert(self.with(segments@, actions@) =~= Fifo { small: pushed, ..before });
        }
        self.evict_small(segments, actions);
    }

    /// A segment was read at `now`. The result says which queue it is in and what is
    /// to be done in the main store; `segments` loses what is evicted.
    pub fn read(
        &mut self,
        ident: FileSegmentIdent,
        insert_main: bool,
        now: u64,
        segments: &mut SegmentMap,
    ) -> (res: Result<(QueueItemPos, Vec<StoreAction>), IaError>)
        requires
            old(self).wf(),
            ident.wf(),
            old(self).bytes() + ident.len() <= i64::MAX,
        ensures
            final(self).wf(),
            final(self).bytes() <= old(self).bytes() + ident.len(),
            final(self).small_cap() == old(self).small_cap(),
            final(self).main_cap() == old(self).main_cap(),
            final(self).interval() == old(self).interval(),
            match res {
                Ok((pos, actions)) => {
                    let before = old(self).with(old(segments)@, Seq::empty());
                    &&& !(old(self).small_cap() > 0 && ident.len() > old(self).small_cap())
                    &&& pos == before.read_in(ident, insert_main, old(self).small_cap())
                    &&& final(self).with(final(segments)@, actions@) == before.after_read(
                        ident,
                        insert_main,
                        now,
                        old(self).interval(),
                        old(self).small_cap(),
                        old(self).main_cap(),
                    )
                },
                Err(e) => {
                    &&& old(self).small_cap() > 0 && ident.len() > old(self).small_cap()
                    &&& e == IaError::TooLargeItem(ident)
                    &&& *final(self) == *old(self)
                    &&& final(segments)@ == old(segments)@
                },
            },
    {
        let small_queue_cap = self.small_queue.capacity();
        if small_queue_cap > 0 && ident.size() > small_queue_cap as u64 {
            return Err(IaError::TooLargeItem(ident));
        }
        let mut actions: Vec<StoreAction> = Vec::new();
        let ghost before = self.with(segments@, actions@);
        assert(actions@ =~= Seq::<StoreAction>::empty());
        proof {
            self.lemma_wf(segments@, actions@);
            self.small_queue.lemma_wf();
            self.main_queue.lemma_wf();
        }
        let interval = self.freq_update_interval_secs;
        let pos: QueueItemPos;
        if self.small_queue.get(ident).is_some() {
            self.small_queue.access(ident, now, interval);
            proof {
                lemma_accessed(before.small, self.small_queue@, ident);
                self.small_queue.lemma_wf();
                assert(self.with(segments@, actions@) =~= before.after_read(
                    ident,
                    insert_main,
                    now,
                    interval,
                    small_queue_cap,
                    self.main_cap(),
                ));
            }
            pos = QueueItemPos::Small;
        } else if self.main_queue.get(ident).is_some() {
            self.main_queue.access(ident, now, interval);
            proof {
                lemma_accessed(before.store.main, self.main_queue@, ident);
                self.main_queue.lemma_wf();
                assert(self.with(segments@, actions@) =~= before.after_read(
                    ident,
                    insert_main,
                    now,
                    interval,
                    small_queue_cap,
                    self.main_cap(),
                ));
            }
            pos = QueueItemPos::Main;
        } else if insert_main || small_queue_cap == 0 || self.is_in_ghost(ident) {
            self.insert_main(ident, segments, &mut actions);
            proof {
                lemma_inserted(before.store, ident, self.main_cap());
                assert(self.with(segments@, actions@) =~= before.after_read(
                    ident,
                    insert_main,
                    now,
                    interval,
                    small_queue_cap,
                    self.main_cap(),
                ));
            }
            pos = QueueItemPos::Main;
        } else {
            self.insert_small(ident, segments, &mut actions);
            pos = QueueItemPos::Small;
        }
        Ok((pos, actions))
    }

    /// The segment was written to the main store. The result says whether it is to
    /// be deleted there again, because it left the cache meanwhile.
    pub fn post_move_item_to_store(ident: FileSegmentIdent, segments: &mut SegmentMap) -> (res: Option<
        StoreAction,
    >)
        ensures
            match lookup(old(segments)@, ident) {
                Some(FileSegmentData::InMem(_)) => {
                    &&& res is None
                    &&& final(segments)@ == old(segments)@.insert(ident, FileSegmentData::InStore)
                },
                Some(FileSegmentData::InStore) => res is None && final(segments)@ == old(segments)@,
                None => {
                    &&& res == Some(StoreAction::Remove(ident))
                    &&& final(segments)@ == old(segments)@
                },
            },
    {
        match segments.set_segment_data_from_mem_to_store(ident) {
            Ok(()) => None,
            Err(Some(_)) => None,
            Err(None) => Some(StoreAction::Remove(ident)),
        }
    }

    /// How a queued segment was used, and in which queue it is.
    pub fn get_item(&self, ident: FileSegmentIdent) -> (res: Option<QueueItem>)
        requires
            self.wf(),
        ensures
            ({
                let f = self.with(Map::empty(), Seq::empty());
                res == if queued(f.small, ident) {
                    Some(
                        QueueItem {
                            meta: f.small[place_of(f.small, ident)].1,
                            pos: QueueItemPos::Small,
                        },
                    )
                } else if queued(f.store.main, ident) {
                    Some(
                        QueueItem {
                            meta: f.store.main[place_of(f.store.main, ident)].1,
                            pos: QueueItemPos::Main,
                        },
                    )
                } else {
                    None
                }
            }),
    {
        match self.small_queue.get(ident) {
            Some(meta) => Some(QueueItem::from_small(meta)),
            None => match self.main_queue.get(ident) {
                Some(meta) => Some(QueueItem::from_main(meta)),
                None => None,
            },
        }
    }

    /// Changes how many bytes the queues are to hold at most.
    pub fn set_capacity(&mut self, small_cap: i64, main_cap: i64)
        requires
            old(self).wf(),
        ensures
            final(self).wf(),
            final(self).small_cap() == small_cap,
            final(self).main_cap() == main_cap,
            final(self).interval() == old(self).interval(),
            final(self).with(Map::empty(), Seq::empty()) == old(self).with(
                Map::empty(),
                Seq::empty(),
            ),
    {
        self.small_queue.set_capacity(small_cap);
        self.main_queue.set_capacity(main_cap);
    }
}

/// Counting a use keeps the segments and their size.
proof fn lemma_accessed(a: Seq<Entry>, b: Seq<Entry>, ident: FileSegmentIdent)
    requires
        queue_wf(a),
        queued(a, ident),
        exists|e: Entry| #[trigger] a.update(place_of(a, ident), e) == b && e.0 == ident,
    ensures
        idents_of(a) == idents_of(b),
        bytes_of(a) == bytes_of(b),
        forall|i: FileSegmentIdent| #[trigger] queued(b, i) == queued(a, i),
{
    let k = place_of(a, ident);
    assert(0 <= k < a.len() && idents_of(a)[k] == ident);
    assert(idents_of(a) =~= idents_of(b));
    lemma_bytes_same(a, b);
}

/// A queue with one more segment is well-formed.
proof fn lemma_pushed_wf(s: Seq<Entry>, ident: FileSegmentIdent)
    requires
        queue_wf(s),
        ident.wf(),
        !queued(s, ident),
    ensures
        queue_wf(s.push((ident, unused()))),
{
    let pushed = s.push((ident, unused()));
    let ids = idents_of(s);
    assert(idents_of(pushed) =~= ids.push(ident));
    assert forall|i: int, j: int|
        0 <= i < ids.len() + 1 && 0 <= j < ids.len() + 1 && i != j implies ids.push(ident)[i]
        != ids.push(ident)[j] by {
        if i == ids.len() {
            assert(ids[j] != ident);
        }
        if j == ids.len() {
            assert(ids[i] != ident);
        }
    }
    assert forall|j: int| 0 <= j < pushed.len() implies (#[trigger] pushed[j]).0.wf() by {
        if j < s.len() {
            assert(s[j].0.wf());
        }
    }
    assert forall|j: int| 0 <= j < pushed.len() implies (#[trigger] pushed[j]).1.freq
        <= MAX_FREQ by {
        if j < s.len() {
            assert(s[j].1.freq <= MAX_FREQ);
        }
    }
}

/// A segment that comes into the main queue keeps it well-formed.
pub proof fn lemma_inserted(st: Store, ident: FileSegmentIdent, cap: i64)
    requires
        queue_wf(st.main),
        ident.wf(),
        !queued(st.main, ident),
    ensures
        queue_wf(st.inserted(ident, cap).main),
        bytes_of(st.inserted(ident, cap).main) <= bytes_of(st.main) + ident.len(),
        forall|i: FileSegmentIdent|
            #[trigger] queued(st.inserted(ident, cap).main, i) ==> queued(st.main, i) || i == ident,
        st.inserted(ident, cap).segments.submap_of(st.segments),
        forall|i: FileSegmentIdent|
            queued(st.main, i) && !#[trigger] queued(st.inserted(ident, cap).main, i)
                ==> !st.inserted(ident, cap).segments.contains_key(i),
{
    if lookup(st.segments, ident) is Some {
        let pushed = st.main.push((ident, unused()));
        lemma_pushed_wf(st.main, ident);
        assert(pushed.drop_last() =~= st.main);
        let data = st.segments[ident];
        let next = Store {
            main: pushed,
            segments: st.segments,
            actions: st.actions + (match data {
                FileSegmentData::InMem(b) => seq![StoreAction::Save(ident, b)],
                FileSegmentData::InStore => Seq::empty(),
            }),
        };
        lemma_evicted(next, cap);
        assert forall|i: FileSegmentIdent|
            #[trigger] queued(st.inserted(ident, cap).main, i) implies queued(st.main, i) || i
            == ident by {
            lemma_queued_push(st.main, (ident, unused()), i);
        }
        assert forall|i: FileSegmentIdent|
            queued(st.main, i) && !#[trigger] queued(
                st.inserted(ident, cap).main,
                i,
            ) implies !st.inserted(ident, cap).segments.contains_key(i) by {
            lemma_queued_push(st.main, (ident, unused()), i);
        }
    }
}

impl Fifo {
    /// The segment is in one of the queues.
    pub open spec fn has(self, ident: FileSegmentIdent) -> bool {
        queued(self.small, ident) || queued(self.store.main, ident)
    }
}

/// The queues after one segment left the small one.
proof fn lemma_small_step(f: Fifo, main_cap: i64, next: Fifo)
    requires
        f.wf(),
        f.small.len() > 0,
        next == (if f.small[0].1.freq > 1 {
            Fifo {
                small: f.small.drop_first(),
                ghosts: f.ghosts,
                store: f.store.inserted(f.small[0].0, main_cap),
            }
        } else {
            Fifo {
                small: f.small.drop_first(),
                ghosts: ghost_inserted(f.ghosts, f.small[0].0),
                store: f.store.dropped(f.small[0].0),
            }
        }),
    ensures
        next.wf(),
        next.store.segments.submap_of(f.store.segments),
        forall|i: FileSegmentIdent|
            f.has(i) && !#[trigger] next.has(i) ==> !next.store.segments.contains_key(i),
        forall|i: FileSegmentIdent| #[trigger] next.has(i) ==> f.has(i),
{
    let tail = f.small[0].0;
    lemma_rest_wf(f.small);
    assert(idents_of(f.small)[0] == tail);
    assert(queued(f.small, tail));
    assert(f.small[0].0.wf());
    assert forall|i: FileSegmentIdent| #[trigger] queued(f.small.drop_first(), i) <==> queued(
        f.small,
        i,
    ) && i != tail by {
        lemma_queued_set(f.small.drop_first(), i);
        lemma_queued_set(f.small, i);
    }
    if f.small[0].1.freq > 1 {
        lemma_inserted(f.store, tail, main_cap);
        lemma_tail_cached(f.store, tail, main_cap);
    }
    assert forall|i: FileSegmentIdent|
        f.has(i) && !#[trigger] next.has(i) implies !next.store.segments.contains_key(i) by {
        if i != tail && queued(f.small, i) {
            assert(queued(f.small.drop_first(), i));
        }
    }
    assert forall|i: FileSegmentIdent| #[trigger] next.has(i) implies f.has(i) by {}
}

/// A segment that was to come into the main queue is there, or it is not cached.
proof fn lemma_tail_cached(st: Store, ident: FileSegmentIdent, cap: i64)
    requires
        queue_wf(st.main),
        ident.wf(),
        !queued(st.main, ident),
    ensures
        !queued(st.inserted(ident, cap).main, ident) ==> !st.inserted(
            ident,
            cap,
        ).segments.contains_key(ident),
{
    lemma_inserted(st, ident, cap);
    if lookup(st.segments, ident) is Some {
        let pushed = st.main.push((ident, unused()));
        lemma_queued_push(st.main, (ident, unused()), ident);
        lemma_pushed_wf(st.main, ident);
        let next = Store {
            main: pushed,
            segments: st.segments,
            actions: st.actions + (match st.segments[ident] {
                FileSegmentData::InMem(b) => seq![StoreAction::Save(ident, b)],
                FileSegmentData::InStore => Seq::empty(),
            }),
        };
        lemma_evicted(next, cap);
    }
}

/// After the small queue was evicted no segment is in both queues or twice in one,
/// no segment is new, and what left the queues left the cache.
pub proof fn law_what_leaves_the_queues_leaves_the_cache(f: Fifo, small_cap: i64, main_cap: i64)
    requires
        f.wf(),
    ensures
        ({
            let after = f.small_evicted(small_cap, main_cap);
            &&& after.wf()
            &&& after.store.segments.submap_of(f.store.segments)
            &&& forall|i: FileSegmentIdent| #[trigger] after.has(i) ==> f.has(i)
            &&& forall|i: FileSegmentIdent|
                f.has(i) && !#[trigger] after.has(i) ==> !after.store.segments.contains_key(i)
        }),
    decreases f.small.len(),
{
    if bytes_of(f.small) > small_cap && f.small.len() > 0 {
        let next = if f.small[0].1.freq > 1 {
            Fifo {
                small: f.small.drop_first(),
                ghosts: f.ghosts,
                store: f.store.inserted(f.small[0].0, main_cap),
            }
        } else {
            Fifo {
                small: f.small.drop_first(),
                ghosts: ghost_inserted(f.ghosts, f.small[0].0),
                store: f.store.dropped(f.small[0].0),
            }
        };
        lemma_small_step(f, main_cap, next);
        law_what_leaves_the_queues_leaves_the_cache(next, small_cap, main_cap);
        let after = f.small_evicted(small_cap, main_cap);
        assert(after == next.small_evicted(small_cap, main_cap));
        assert forall|k: FileSegmentIdent| #[trigger]
            after.store.segments.dom().contains(k) implies f.store.segments.dom().contains(k)
            && after.store.segments[k] == f.store.segments[k] by {
            assert(next.store.segments.dom().contains(k));
            assert(f.store.segments.dom().contains(k));
            assert(next.store.segments[k] == f.store.segments[k]);
        }
        assert forall|i: FileSegmentIdent|
            f.has(i) && !#[trigger] after.has(i) implies !after.store.segments.contains_key(i) by {
            if !next.has(i) {
                assert(!next.store.segments.contains_key(i));
            }
        }
        assert forall|i: FileSegmentIdent| #[trigger] after.has(i) implies f.has(i) by {
            assert(next.has(i));
        }
    }
}

/// A read brings nothing new into the cache and changes nothing that stays in it.
pub proof fn law_read_only_takes_out_of_the_cache(
    f: Fifo,
    ident: FileSegmentIdent,
    insert_main: bool,
    now: u64,
    interval_secs: u64,
    small_cap: i64,
    main_cap: i64,
)
    requires
        f.wf(),
        ident.wf(),
    ensures
        f.after_read(
            ident,
            insert_main,
            now,
            interval_secs,
            small_cap,
            main_cap,
        ).store.segments.submap_of(f.store.segments),
{
    if !f.has(ident) {
        if insert_main || small_cap == 0 || f.remembers(ident) {
            lemma_inserted(f.store, ident, main_cap);
        } else {
            let pushed = Fifo { small: f.small.push((ident, unused())), ..f };
            lemma_pushed_wf(f.small, ident);
            assert forall|i: FileSegmentIdent|
                !(#[trigger] queued(pushed.small, i) && queued(pushed.store.main, i)) by {
                lemma_queued_push(f.small, (ident, unused()), i);
            }
            law_what_leaves_the_queues_leaves_the_cache(pushed, small_cap, main_cap);
        }
    }
}

/// A read brings no segment into the queues but the one that is read.
pub proof fn law_read_queues_nothing_else(
    f: Fifo,
    ident: FileSegmentIdent,
    insert_main: bool,
    now: u64,
    interval_secs: u64,
    small_cap: i64,
    main_cap: i64,
)
    requires
        f.wf(),
        ident.wf(),
    ensures
        forall|i: FileSegmentIdent|
            #[trigger] f.after_read(
                ident,
                insert_main,
                now,
                interval_secs,
                small_cap,
                main_cap,
            ).has(i) ==> f.has(i) || i == ident,
{
    let after = f.after_read(ident, insert_main, now, interval_secs, small_cap, main_cap);
    if queued(f.small, ident) {
        lemma_accessed(f.small, after.small, ident);
    } else if queued(f.store.main, ident) {
        lemma_accessed(f.store.main, after.store.main, ident);
    } else if insert_main || small_cap == 0 || f.remembers(ident) {
        lemma_inserted(f.store, ident, main_cap);
    } else {
        let pushed = Fifo { small: f.small.push((ident, unused())), ..f };
        lemma_pushed_wf(f.small, ident);
        assert forall|i: FileSegmentIdent| #[trigger]
            queued(pushed.small, i) == (queued(f.small, i) || i == ident) by {
            lemma_queued_push(f.small, (ident, unused()), i);
        }
        law_what_leaves_the_queues_leaves_the_cache(pushed, small_cap, main_cap);
        assert forall|i: FileSegmentIdent| #[trigger] after.has(i) implies f.has(i) || i
            == ident by {
            assert(pushed.has(i));
        }
    }
}

/// The small queue fits after it was evicted.
pub proof fn law_small_queue_fits(f: Fifo, small_cap: i64, main_cap: i64)
    requires
        small_cap >= 0,
    ensures
        bytes_of(f.small_evicted(small_cap, main_cap).small) <= small_cap,
    decreases f.small.len(),
{
    if bytes_of(f.small) > small_cap && f.small.len() > 0 {
        let e = f.small[0];
        if e.1.freq > 1 {
            law_small_queue_fits(
                Fifo {
                    small: f.small.drop_first(),
                    ghosts: f.ghosts,
                    store: f.store.inserted(e.0, main_cap),
                },
                small_cap,
                main_cap,
            );
        } else {
            law_small_queue_fits(
                Fifo {
                    small: f.small.drop_first(),
                    ghosts: ghost_inserted(f.ghosts, e.0),
                    store: f.store.dropped(e.0),
                },
                small_cap,
                main_cap,
            );
        }
    }
}

/// The main queue fits after a cached segment came into it.
pub proof fn law_main_queue_fits(st: Store, ident: FileSegmentIdent, cap: i64)
    requires
        queue_wf(st.main),
        ident.wf(),
        !queued(st.main, ident),
        cap >= 0,
        st.segments.contains_key(ident),
    ensures
        bytes_of(st.inserted(ident, cap).main) <= cap,
{
    lemma_pushed_wf(st.main, ident);
    lemma_evicted(
        Store {
            main: st.main.push((ident, unused())),
            segments: st.segments,
            actions: st.actions + (match st.segments[ident] {
                FileSegmentData::InMem(b) => seq![StoreAction::Save(ident, b)],
                FileSegmentData::InStore => Seq::empty(),
            }),
        },
        cap,
    );
}

/// A segment that just left the small queue for good goes to the main queue if it
/// is read again.
pub proof fn law_remembered_segment_goes_to_main(
    f: Fifo,
    ident: FileSegmentIdent,
    small_cap: i64,
)
    requires
        f.ghosts.len() > 0,
        !queued(f.small, ident),
    ensures
        (Fifo { ghosts: ghost_inserted(f.ghosts, ident), ..f }).read_in(ident, false, small_cap)
            == QueueItemPos::Main,
{
}

} // verus!

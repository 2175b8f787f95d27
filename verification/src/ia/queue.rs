//! The queues in which cached segments wait for eviction.
use vstd::prelude::*;

use crate::ia::segment::FileSegmentIdent;

verus! {

/// How often a use is counted at most.
pub const MAX_FREQ: u8 = 3;

/// How a queued segment was used.
#[derive(Clone, Copy, Debug, PartialEq, Eq, Structural)]
pub struct QueueItemMeta {
    /// How often it was used.
    pub freq: u8,
    /// When a use was last counted, in seconds.
    pub access_time: u64,
}

/// A segment that was never used.
pub open spec fn unused() -> QueueItemMeta {
    QueueItemMeta { freq: 0, access_time: 0 }
}

impl Default for QueueItemMeta {
    fn default() -> (res: Self)
        ensures
            res == unused(),
    {
        QueueItemMeta { freq: 0, access_time: 0 }
    }
}

impl QueueItemMeta {
    /// After a use at `now`: it counts if the last that did is long enough ago.
    pub open spec fn accessed(self, now: u64, interval_secs: u64) -> QueueItemMeta {
        let past = if now >= self.access_time {
            now - self.access_time
        } else {
            0
        };
        if past >= interval_secs {
            QueueItemMeta {
                freq: if self.freq < MAX_FREQ {
                    (self.freq + 1) as u8
                } else {
                    MAX_FREQ
                },
                access_time: now,
            }
        } else {
            self
        }
    }

    /// After one use less.
    pub open spec fn lessened(self) -> QueueItemMeta {
        QueueItemMeta { freq: (self.freq - 1) as u8, ..self }
    }

    /// How often the segment was used.
    pub fn freq(&self) -> (res: u8)
        ensures
            res == self.freq,
    {
        self.freq
    }

    /// Counts one use less.
    pub fn freq_desc(&mut self)
        requires
            old(self).freq > 0,
        ensures
            *final(self) == old(self).lessened(),
    {
        self.freq = self.freq - 1;
    }

    /// Counts a use at `now`, if the last that was counted is long enough ago.
    pub fn access(&mut self, now: u64, freq_update_interval_secs: u64)
        requires
            old(self).freq < u8::MAX,
        ensures
            *final(self) == old(self).accessed(now, freq_update_interval_secs),
    {
        let past: u64 = if now >= self.access_time {
            now - self.access_time
        } else {
            0
        };
        if past >= freq_update_interval_secs {
            self.access_time = now;
            let more = self.freq + 1;
            self.freq = if more <= MAX_FREQ {
                more
            } else {
                MAX_FREQ
            };
        }
    }
}

/// Which queue a segment is in.
#[derive(Clone, Copy, Debug, PartialEq, Eq, Structural)]
pub enum QueueItemPos {
    /// That of segments that are new.
    Small,
    /// That of segments that were used again.
    Main,
}

/// A queued segment.
#[derive(Clone, Copy, Debug, PartialEq, Eq, Structural)]
pub struct QueueItem {
    /// How it was used.
    pub meta: QueueItemMeta,
    /// Which queue it is in.
    pub pos: QueueItemPos,
}

impl QueueItem {
    /// A segment of the small queue.
    pub fn from_small(meta: QueueItemMeta) -> (res: Self)
        ensures
            res == (QueueItem { meta, pos: QueueItemPos::Small }),
    {
        QueueItem { meta, pos: QueueItemPos::Small }
    }

    /// A segment of the main queue.
    pub fn from_main(meta: QueueItemMeta) -> (res: Self)
        ensures
            res == (QueueItem { meta, pos: QueueItemPos::Main }),
    {
        QueueItem { meta, pos: QueueItemPos::Main }
    }
}

/// A segment and how it was used.
pub type Entry = (FileSegmentIdent, QueueItemMeta);

/// The bytes of the segments.
pub open spec fn bytes_of(s: Seq<Entry>) -> int
    decreases s.len(),
{
    if s.len() == 0 {
        0
    } else {
        bytes_of(s.drop_last()) + s.last().0.len()
    }
}

/// How often all segments were used.
pub open spec fn uses_of(s: Seq<Entry>) -> nat
    decreases s.len(),
{
    if s.len() == 0 {
        0
    } else {
        uses_of(s.drop_last()) + s.last().1.freq as nat
    }
}

/// The segments.
pub open spec fn idents_of(s: Seq<Entry>) -> Seq<FileSegmentIdent> {
    Seq::new(s.len(), |i: int| s[i].0)
}

/// The segment is queued.
pub open spec fn queued(s: Seq<Entry>, ident: FileSegmentIdent) -> bool {
    idents_of(s).contains(ident)
}

/// Where the segment is.
pub open spec fn place_of(s: Seq<Entry>, ident: FileSegmentIdent) -> int {
    idents_of(s).index_of(ident)
}

/// No segment is there twice, and each ends where it begins or later.
pub open spec fn queue_wf(s: Seq<Entry>) -> bool {
    &&& idents_of(s).no_duplicates()
    &&& forall|i: int| 0 <= i < s.len() ==> (#[trigger] s[i]).0.wf()
    &&& forall|i: int| 0 <= i < s.len() ==> (#[trigger] s[i]).1.freq <= MAX_FREQ
}

/// The size, counted from the first segment.
pub proof fn lemma_bytes_first(s: Seq<Entry>)
    requires
        s.len() > 0,
    ensures
        bytes_of(s) == s[0].0.len() + bytes_of(s.drop_first()),
    decreases s.len(),
{
    if s.len() > 1 {
        lemma_bytes_first(s.drop_last());
        assert(s.drop_first().drop_last() =~= s.drop_last().drop_first());
    } else {
        assert(s.drop_last() =~= Seq::empty());
        assert(s.drop_first() =~= Seq::empty());
    }
}

proof fn lemma_uses_first(s: Seq<Entry>)
    requires
        s.len() > 0,
    ensures
        uses_of(s) == s[0].1.freq as nat + uses_of(s.drop_first()),
    decreases s.len(),
{
    if s.len() > 1 {
        lemma_uses_first(s.drop_last());
        assert(s.drop_first().drop_last() =~= s.drop_last().drop_first());
    } else {
        assert(s.drop_last() =~= Seq::empty());
        assert(s.drop_first() =~= Seq::empty());
    }
}

/// The size of segments that end where they begin or later is not negative.
pub proof fn lemma_bytes_nonneg(s: Seq<Entry>)
    requires
        forall|i: int| 0 <= i < s.len() ==> (#[trigger] s[i]).0.wf(),
    ensures
        bytes_of(s) >= 0,
    decreases s.len(),
{
    if s.len() > 0 {
        assert forall|i: int| 0 <= i < s.len() - 1 implies (#[trigger] s.drop_last()[i]).0.wf() by {
            assert(s[i].0.wf());
        }
        lemma_bytes_nonneg(s.drop_last());
        assert(s[s.len() - 1].0.wf());
    }
}

/// A segment with one use less.
pub open spec fn used_less(e: Entry) -> Entry {
    (e.0, e.1.lessened())
}

/// The queue, turned until its first segment is unused: each that passes the head
/// is counted one use less and goes to the end.
pub open spec fn turned(s: Seq<Entry>) -> Seq<Entry>
    decreases uses_of(s),
{
    if s.len() == 0 || s[0].1.freq == 0 {
        s
    } else {
        proof {
            lemma_turn_lessens(s);
        }
        turned(s.drop_first().push(used_less(s[0])))
    }
}

/// Turning one place takes one use away and keeps the size.
pub proof fn lemma_turn_lessens(s: Seq<Entry>)
    requires
        s.len() > 0,
        s[0].1.freq > 0,
    ensures
        uses_of(s.drop_first().push(used_less(s[0]))) == uses_of(s) - 1,
        bytes_of(s.drop_first().push(used_less(s[0]))) == bytes_of(s),
{
    let t = s.drop_first().push(used_less(s[0]));
    lemma_uses_first(s);
    lemma_bytes_first(s);
    assert(t.drop_last() =~= s.drop_first());
}

/// Turning one place keeps a queue well-formed and the same segments in it.
proof fn lemma_turn_one(s: Seq<Entry>)
    requires
        queue_wf(s),
        s.len() > 0,
        s[0].1.freq > 0,
    ensures
        queue_wf(s.drop_first().push(used_less(s[0]))),
        idents_of(s.drop_first().push(used_less(s[0]))).to_set() == idents_of(s).to_set(),
{
    let t = s.drop_first().push(used_less(s[0]));
    let a = idents_of(s);
    let b = idents_of(t);
    assert(b =~= a.drop_first().push(a[0]));
    assert forall|i: int, j: int| 0 <= i < b.len() && 0 <= j < b.len() && i != j implies b[i]
        != b[j] by {
        let x = if i == b.len() - 1 {
            0
        } else {
            i + 1
        };
        let y = if j == b.len() - 1 {
            0
        } else {
            j + 1
        };
        assert(b[i] == a[x] && b[j] == a[y]);
    }
    assert forall|i: int| 0 <= i < t.len() implies (#[trigger] t[i]).0.wf() by {
        if i < t.len() - 1 {
            assert(t[i] == s[i + 1]);
        } else {
            assert(s[0].0.wf());
        }
    }
    assert forall|i: int| 0 <= i < t.len() implies (#[trigger] t[i]).1.freq <= MAX_FREQ by {
        if i < t.len() - 1 {
            assert(t[i] == s[i + 1]);
        } else {
            assert(s[0].1.freq <= MAX_FREQ);
        }
    }
    assert forall|x: FileSegmentIdent| b.contains(x) <==> a.contains(x) by {
        if a.contains(x) {
            let i = choose|i: int| 0 <= i < a.len() && a[i] == x;
            if i == 0 {
                assert(b[b.len() - 1] == x);
            } else {
                assert(b[i - 1] == x);
            }
        }
        if b.contains(x) {
            let i = choose|i: int| 0 <= i < b.len() && b[i] == x;
            if i == b.len() - 1 {
                assert(a[0] == x);
            } else {
                assert(a[i + 1] == x);
            }
        }
    }
    assert(b.to_set() =~= a.to_set());
}

/// Turning keeps the segments and their size.
pub proof fn lemma_turned(s: Seq<Entry>)
    requires
        queue_wf(s),
    ensures
        queue_wf(turned(s)),
        turned(s).len() == s.len(),
        bytes_of(turned(s)) == bytes_of(s),
        idents_of(turned(s)).to_set() == idents_of(s).to_set(),
        s.len() > 0 ==> turned(s)[0].1.freq == 0,
    decreases uses_of(s),
{
    if s.len() > 0 && s[0].1.freq > 0 {
        lemma_turn_lessens(s);
        lemma_turn_one(s);
        lemma_turned(s.drop_first().push(used_less(s[0])));
    }
}

/// Turning does not change how many segments there are.
pub proof fn lemma_turned_len(s: Seq<Entry>)
    ensures
        turned(s).len() == s.len(),
    decreases uses_of(s),
{
    if s.len() > 0 && s[0].1.freq > 0 {
        lemma_turn_lessens(s);
        lemma_turned_len(s.drop_first().push(used_less(s[0])));
    }
}

/// The segment at place `k` was used least, and those before it more often.
pub open spec fn first_least_used(s: Seq<Entry>, k: int) -> bool {
    &&& 0 <= k < s.len()
    &&& forall|i: int| 0 <= i < s.len() ==> s[k].1.freq <= (#[trigger] s[i]).1.freq
    &&& forall|i: int| 0 <= i < k ==> s[k].1.freq < (#[trigger] s[i]).1.freq
}

/// The segment that turning brings to the head is the first of those that were
/// used least.
pub proof fn law_least_used_leaves_first(s: Seq<Entry>, k: int)
    requires
        first_least_used(s, k),
    ensures
        turned(s)[0].0 == s[k].0,
    decreases uses_of(s),
{
    if s[0].1.freq == 0 {
        if k > 0 {
            assert(s[k].1.freq < s[0].1.freq);
        }
    } else {
        lemma_turn_lessens(s);
        let t = s.drop_first().push(used_less(s[0]));
        let n = s.len();
        // A whole round is needed where the head itself is the least used.
        if k > 0 {
            assert(t[k - 1] == s[k]);
            assert forall|i: int| 0 <= i < t.len() implies t[k - 1].1.freq <= (
            #[trigger] t[i]).1.freq by {
                if i < n - 1 {
                    assert(t[i] == s[i + 1]);
                } else {
                    assert(s[k].1.freq < s[0].1.freq);
                }
            }
            assert forall|i: int| 0 <= i < k - 1 implies t[k - 1].1.freq < (
            #[trigger] t[i]).1.freq by {
                assert(t[i] == s[i + 1]);
            }
            law_least_used_leaves_first(t, k - 1);
        } else {
            assert forall|i: int| 0 <= i < t.len() implies t[n - 1].1.freq <= (
            #[trigger] t[i]).1.freq by {
                if i < n - 1 {
                    assert(t[i] == s[i + 1]);
                }
            }
            assert forall|i: int| 0 <= i < n - 1 implies t[n - 1].1.freq < (
            #[trigger] t[i]).1.freq by {
                assert(t[i] == s[i + 1]);
            }
            law_least_used_leaves_first(t, n - 1);
        }
    }
}

/// The queue after the segments were pushed, one after the other.
pub open spec fn pushed(s: Seq<Entry>, idents: Seq<FileSegmentIdent>) -> Seq<Entry>
    decreases idents.len(),
{
    if idents.len() == 0 {
        s
    } else {
        pushed(s, idents.drop_last()).push((idents.last(), unused()))
    }
}

/// The queue after `n` pops.
pub open spec fn popped(s: Seq<Entry>, n: nat) -> Seq<Entry>
    decreases n,
{
    if n == 0 {
        s
    } else {
        popped(s, (n - 1) as nat).drop_first()
    }
}

proof fn lemma_pushed(idents: Seq<FileSegmentIdent>)
    ensures
        pushed(Seq::empty(), idents) == Seq::new(
            idents.len(),
            |i: int| (idents[i], unused()),
        ),
    decreases idents.len(),
{
    if idents.len() > 0 {
        lemma_pushed(idents.drop_last());
    }
    assert(pushed(Seq::empty(), idents) =~= Seq::new(
        idents.len(),
        |i: int| (idents[i], unused()),
    ));
}

proof fn lemma_popped(s: Seq<Entry>, n: nat)
    requires
        n <= s.len(),
    ensures
        popped(s, n) == s.skip(n as int),
    decreases n,
{
    if n > 0 {
        lemma_popped(s, (n - 1) as nat);
        assert(s.skip(n - 1).drop_first() =~= s.skip(n as int));
    } else {
        assert(s.skip(0) =~= s);
    }
}

/// Segments leave an empty queue in the order in which they were pushed. Each can be pushed:
/// it is not there before. After `n` pops the next is the one that was pushed `n`th, counted
/// from zero; those that left are gone, and their sizes with them. In the end nothing is left.
pub proof fn law_first_in_first_out(idents: Seq<FileSegmentIdent>, n: nat)
    requires
        idents.no_duplicates(),
        n <= idents.len(),
    ensures
        ({
            let all = pushed(Seq::empty(), idents);
            let q = popped(all, n);
            &&& forall|i: int|
                0 <= i < idents.len() ==> !queued(
                    pushed(Seq::empty(), idents.take(i)),
                    #[trigger] idents[i],
                )
            &&& q.len() == idents.len() - n
            &&& n < idents.len() ==> {
                &&& q[0] == (idents[n as int], unused())
                &&& bytes_of(q) == idents[n as int].len() + bytes_of(popped(all, n + 1))
            }
            &&& forall|i: int| 0 <= i < n ==> !queued(q, #[trigger] idents[i])
            &&& n == idents.len() ==> bytes_of(q) == 0 && forall|ident: FileSegmentIdent|
                !queued(q, ident)
        }),
{
    let all = pushed(Seq::empty(), idents);
    lemma_pushed(idents);
    lemma_popped(all, n);
    let q = popped(all, n);
    assert forall|i: int| 0 <= i < idents.len() implies !queued(
        pushed(Seq::empty(), idents.take(i)),
        #[trigger] idents[i],
    ) by {
        lemma_pushed(idents.take(i));
        let s = pushed(Seq::empty(), idents.take(i));
        assert(idents_of(s) =~= idents.take(i));
        if idents.take(i).contains(idents[i]) {
            let j = idents.take(i).index_of(idents[i]);
            assert(idents[j] == idents[i]);
        }
    }
    assert(idents_of(q) =~= idents.skip(n as int));
    assert forall|i: int| 0 <= i < n implies !queued(q, #[trigger] idents[i]) by {
        if idents.skip(n as int).contains(idents[i]) {
            let j = idents.skip(n as int).index_of(idents[i]);
            assert(idents[n + j] == idents[i]);
        }
    }
    if n < idents.len() {
        lemma_bytes_first(q);
        assert(popped(all, n + 1) == q.drop_first());
    } else {
        assert(q =~= Seq::empty());
    }
}

/// Segments in the order in which they came.
pub struct Queue {
    entries: Vec<Entry>,
    cap: i64,
    total_size: i64,
}

impl View for Queue {
    type V = Seq<Entry>;

    closed spec fn view(&self) -> Seq<Entry> {
        self.entries@
    }
}

impl Queue {
    /// How many bytes the queue is to hold at most.
    pub closed spec fn limit(self) -> i64 {
        self.cap
    }

    /// The size is that of the segments.
    pub closed spec fn wf(self) -> bool {
        queue_wf(self.entries@) && self.total_size == bytes_of(self.entries@)
    }

    /// What `wf` says of the segments.
    pub proof fn lemma_wf(self)
        requires
            self.wf(),
        ensures
            queue_wf(self@),
            0 <= bytes_of(self@) <= i64::MAX,
    {
        lemma_bytes_nonneg(self@);
    }

    /// No segment yet.
    pub fn new(cap: i64) -> (res: Self)
        ensures
            res.wf(),
            res@ == Seq::<Entry>::empty(),
            res.limit() == cap,
    {
        let res = Queue { entries: Vec::new(), cap, total_size: 0 };
        assert(idents_of(res.entries@) =~= Seq::empty());
        res
    }

    /// How many bytes the queue is to hold at most.
    pub fn capacity(&self) -> (res: i64)
        ensures
            res == self.limit(),
    {
        self.cap
    }

    /// How many bytes the segments have.
    pub fn size(&self) -> (res: i64)
        requires
            self.wf(),
        ensures
            res == bytes_of(self@),
    {
        self.total_size
    }

    /// Changes how many bytes the queue is to hold at most.
    pub fn set_capacity(&mut self, cap: i64)
        requires
            old(self).wf(),
        ensures
            final(self).wf(),
            final(self)@ == old(self)@,
            final(self).limit() == cap,
    {
        self.cap = cap;
    }

    /// How the segment was used.
    pub fn get(&self, ident: FileSegmentIdent) -> (res: Option<QueueItemMeta>)
        requires
            self.wf(),
        ensures
            match res {
                Some(meta) => queued(self@, ident) && self@[place_of(self@, ident)].1 == meta,
                None => !queued(self@, ident),
            },
    {
        match self.find(ident) {
            Some(i) => Some(self.entries[i].1),
            None => None,
        }
    }

    fn find(&self, ident: FileSegmentIdent) -> (res: Option<usize>)
        requires
            self.wf(),
        ensures
            match res {
                Some(i) => queued(self@, ident) && i == place_of(self@, ident) && i < self@.len(),
                None => !queued(self@, ident),
            },
    {
        let ghost ids = idents_of(self@);
        let mut i: usize = 0;
        while i < self.entries.len()
            invariant
                i <= self.entries@.len(),
                self.wf(),
                ids == idents_of(self@),
                forall|j: int| 0 <= j < i ==> ids[j] != ident,
            decreases self.entries@.len() - i,
        {
            if self.entries[i].0 == ident {
                assert(ids[i as int] == ident);
                assert(ids.contains(ident));
                return Some(i);
            }
            i = i + 1;
        }
        None
    }

    /// Counts a use of a segment.
    pub fn access(&mut self, ident: FileSegmentIdent, now: u64, freq_update_interval_secs: u64)
        requires
            old(self).wf(),
            queued(old(self)@, ident),
        ensures
            final(self).wf(),
            final(self).limit() == old(self).limit(),
            ({
                let k = place_of(old(self)@, ident);
                let meta = old(self)@[k].1.accessed(now, freq_update_interval_secs);
                final(self)@ == old(self)@.update(k, (ident, meta))
            }),
    {
        let i = self.find(ident).unwrap();
        let ghost before = self@;
        let mut e = self.entries[i];
        proof {
            assert(before[i as int].1.freq <= MAX_FREQ);
        }
        e.1.access(now, freq_update_interval_secs);
        self.entries.set(i, e);
        proof {
            assert(idents_of(self@) =~= idents_of(before));
            assert forall|j: int| 0 <= j < self@.len() implies (#[trigger] self@[j]).0.wf() by {
                assert(before[j].0.wf());
            }
            assert forall|j: int| 0 <= j < self@.len() implies (#[trigger] self@[j]).1.freq
                <= MAX_FREQ by {
                assert(before[j].1.freq <= MAX_FREQ);
            }
            lemma_bytes_same(before, self@);
        }
    }

    /// Adds a segment that is not there, as one that was never used.
    pub fn push(&mut self, ident: FileSegmentIdent)
        requires
            old(self).wf(),
            ident.wf(),
            !queued(old(self)@, ident),
            bytes_of(old(self)@) + ident.len() <= i64::MAX,
        ensures
            final(self).wf(),
            final(self).limit() == old(self).limit(),
            final(self)@ == old(self)@.push((ident, unused())),
    {
        let ghost before = self@;
        proof {
            lemma_bytes_nonneg(before);
        }
        self.total_size = self.total_size + ident.size() as i64;
        let meta = QueueItemMeta::default();
        self.entries.push((ident, meta));
        proof {
            let ids = idents_of(before);
            assert(idents_of(self@) =~= ids.push(ident));
            assert forall|i: int, j: int|
                0 <= i < ids.len() + 1 && 0 <= j < ids.len() + 1 && i != j implies ids.push(
                ident,
            )[i] != ids.push(ident)[j] by {
                if i == ids.len() {
                    assert(ids[j] != ident);
                }
                if j == ids.len() {
                    assert(ids[i] != ident);
                }
            }
            assert(self@.drop_last() =~= before);
            assert forall|j: int| 0 <= j < self@.len() implies (#[trigger] self@[j]).0.wf() by {
                if j < before.len() {
                    assert(before[j].0.wf());
                }
            }
            assert forall|j: int| 0 <= j < self@.len() implies (#[trigger] self@[j]).1.freq
                <= MAX_FREQ by {
                if j < before.len() {
                    assert(before[j].1.freq <= MAX_FREQ);
                }
            }
        }
    }

    /// Takes the first segment out.
    pub fn pop(&mut self) -> (res: Option<Entry>)
        requires
            old(self).wf(),
        ensures
            final(self).wf(),
            final(self).limit() == old(self).limit(),
            match res {
                Some(e) => {
                    &&& old(self)@.len() > 0
                    &&& e == old(self)@[0]
                    &&& final(self)@ == old(self)@.drop_first()
                },
                None => old(self)@.len() == 0 && final(self)@ == old(self)@,
            },
    {
        if self.entries.len() == 0 {
            return None;
        }
        let ghost before = self@;
        let e = self.entries.remove(0);
        assert(self.entries@ =~= before.drop_first());
        proof {
            lemma_bytes_first(before);
            lemma_bytes_nonneg(before);
            lemma_rest_wf(before);
            lemma_bytes_nonneg(before.drop_first());
            assert(before[0].0.wf());
        }
        self.total_size = self.total_size - e.0.size() as i64;
        Some(e)
    }

    /// Takes the first unused segment out. Those before it are counted one use less
    /// and go to the end, again and again.
    pub fn pop_with_zero_freq(&mut self) -> (res: Option<Entry>)
        requires
            old(self).wf(),
        ensures
            final(self).wf(),
            final(self).limit() == old(self).limit(),
            match res {
                Some(e) => {
                    &&& old(self)@.len() > 0
                    &&& e == turned(old(self)@)[0]
                    &&& final(self)@ == turned(old(self)@).drop_first()
                },
                None => old(self)@.len() == 0 && final(self)@ == old(self)@,
            },
    {
        let ghost first = self@;
        while self.entries.len() > 0 && self.entries[0].1.freq() > 0
            invariant
                self.wf(),
                self.limit() == old(self).limit(),
                turned(self@) == turned(first),
                self@.len() == first.len(),
            decreases uses_of(self@),
        {
            let ghost before = self@;
            let mut e = self.entries.remove(0);
            e.1.freq_desc();
            self.entries.push(e);
            proof {
                assert(self@ =~= before.drop_first().push(used_less(before[0])));
                lemma_turn_lessens(before);
                lemma_turn_one(before);
            }
        }
        self.pop()
    }

    /// Whether there are more bytes than asked for. The capacity is looked up once,
    /// for as many calls as the caller passes the same `cap`.
    pub fn is_oversize(&self, cap: &mut Option<i64>) -> (res: bool)
        requires
            self.wf(),
        ensures
            *final(cap) == Some(match *old(cap) {
                Some(c) => c,
                None => self.limit(),
            }),
            res == (bytes_of(self@) > (*final(cap))->0),
    {
        let c: i64 = match *cap {
            Some(c) => c,
            None => self.capacity(),
        };
        *cap = Some(c);
        self.total_size > c
    }
}

/// The rest of a well-formed queue is well-formed.
pub proof fn lemma_rest_wf(s: Seq<Entry>)
    requires
        queue_wf(s),
        s.len() > 0,
    ensures
        queue_wf(s.drop_first()),
        !queued(s.drop_first(), s[0].0),
        idents_of(s.drop_first()).to_set() == idents_of(s).to_set().remove(s[0].0),
{
    let a = idents_of(s);
    let b = idents_of(s.drop_first());
    assert(b =~= a.drop_first());
    assert forall|i: int| 0 <= i < s.drop_first().len() implies (
    #[trigger] s.drop_first()[i]).0.wf() by {
        assert(s.drop_first()[i] == s[i + 1]);
    }
    assert forall|i: int| 0 <= i < s.drop_first().len() implies (
    #[trigger] s.drop_first()[i]).1.freq <= MAX_FREQ by {
        assert(s.drop_first()[i] == s[i + 1]);
    }
    assert forall|x: FileSegmentIdent| b.contains(x) <==> a.contains(x) && x != a[0] by {
        if a.contains(x) && x != a[0] {
            let i = choose|i: int| 0 <= i < a.len() && a[i] == x;
            assert(b[i - 1] == x);
        }
        if b.contains(x) {
            let i = choose|i: int| 0 <= i < b.len() && b[i] == x;
            assert(a[i + 1] == x);
        }
    }
    assert(b.to_set() =~= a.to_set().remove(a[0]));
}

/// The size is that of the segments alone.
pub proof fn lemma_bytes_same(a: Seq<Entry>, b: Seq<Entry>)
    requires
        idents_of(a) == idents_of(b),
    ensures
        bytes_of(a) == bytes_of(b),
    decreases a.len(),
{
    assert(a.len() == idents_of(a).len());
    assert(b.len() == idents_of(b).len());
    if a.len() > 0 {
        assert(idents_of(a.drop_last()) =~= idents_of(a).drop_last());
        assert(idents_of(b.drop_last()) =~= idents_of(b).drop_last());
        lemma_bytes_same(a.drop_last(), b.drop_last());
        assert(idents_of(a)[a.len() - 1] == a.last().0);
        assert(idents_of(b)[b.len() - 1] == b.last().0);
    }
}

} // verus!

//! How the cache of segments is set up and what it remembers.
use bytes::Bytes;
use dashmap::DashMap;
use vstd::prelude::*;
use vstd::slice::slice_subrange;

use crate::buf::content;
use crate::codec::{
    get_i64_le, i64_bits, le_bytes, le_value, lemma_le_roundtrip, lemma_pow256_values, put_i64_le,
};
use crate::ia::segment::{FileSegmentIdent, IaError};
use crate::ia::shared_map::{get_time, new_times, remove_time, set_time, times_in};

verus! {

/// How many segments the small queue holds at least.
pub const SMALL_QUEUE_MIN_SEGMENT_COUNT: i64 = 64;

/// How many segments the main queue holds at least.
pub const MAIN_QUEUE_MIN_SEGMENT_COUNT: i64 = 256;

/// Version of the manifest.
pub const MANIFEST_FORMAT_VER: u8 = 1;

/// How often the manifest is written at most, in seconds.
pub const MANIFEST_PERSIST_INTERVAL_SECS: u64 = 60;

/// Name of the manifest.
pub const MANIFEST_FILE_NAME: &'static str = "manifest";

/// A queue. Its capacity is not kept strictly, so some more room should be there.
#[derive(Debug)]
pub struct QueueOptions {
    /// Directories of its segments; they are in memory where there is none.
    pub paths: Vec<String>,
    /// How many bytes it is to hold at most.
    pub cap: i64,
}

impl Default for QueueOptions {
    fn default() -> (res: Self)
        ensures
            res.paths@.len() == 0,
            res.cap == 0,
    {
        QueueOptions { paths: Vec::new(), cap: 0 }
    }
}

/// How the cache of segments is set up.
#[derive(Debug)]
pub struct IaManagerOptions {
    /// The queue of new segments.
    pub small_queue: QueueOptions,
    /// The queue of segments that were used again.
    pub main_queue: QueueOptions,
    /// Number of bytes of a segment.
    pub segment_size: i64,
    /// How long a use is not counted after one that was, in seconds: one request
    /// may touch a segment several times.
    pub freq_update_interval_secs: u64,
    /// How many reads from remote there may be at a time.
    pub dfs_concurrency: usize,
    /// How many of them there may be for one keyspace.
    pub dfs_keyspace_concurrency: usize,
    /// How many files are kept open.
    pub fd_cache_capacity: usize,
    /// How often the modification time of table meta is set, in seconds.
    pub table_meta_mtime_interval_secs: u64,
    /// The capacity follows the size of the data.
    pub dynamic_capacity: bool,
    /// Blocking reads are not allowed.
    pub disable_sync_read: bool,
    /// How many blocking reads there may be at a time.
    pub sync_read_concurrency: usize,
    /// How long a blocking read may take, in seconds.
    pub sync_read_timeout_secs: u64,
}

/// The lower of two numbers.
pub open spec fn lower(a: int, b: int) -> int {
    if a <= b {
        a
    } else {
        b
    }
}

impl IaManagerOptions {
    /// The least capacity of a queue: that of some segments, if it is dynamic and
    /// that is less.
    pub open spec fn min_cap(self, cap: i64, segments: i64) -> int {
        if self.dynamic_capacity {
            lower(self.segment_size * segments, cap as int)
        } else {
            cap as int
        }
    }

    /// The capacity of both queues.
    pub fn total_capacity(&self) -> (res: i64)
        requires
            i64::MIN <= self.small_queue.cap + self.main_queue.cap <= i64::MAX,
        ensures
            res == self.small_queue.cap + self.main_queue.cap,
    {
        self.small_queue.cap + self.main_queue.cap
    }

    /// The least capacity of the small queue.
    pub fn small_queue_min_cap(&self) -> (res: i64)
        requires
            i64::MIN <= self.segment_size * SMALL_QUEUE_MIN_SEGMENT_COUNT <= i64::MAX,
        ensures
            res == self.min_cap(self.small_queue.cap, SMALL_QUEUE_MIN_SEGMENT_COUNT),
    {
        if self.dynamic_capacity {
            let least = self.segment_size * SMALL_QUEUE_MIN_SEGMENT_COUNT;
            if least <= self.small_queue.cap {
                least
            } else {
                self.small_queue.cap
            }
        } else {
            self.small_queue.cap
        }
    }

    /// The least capacity of the main queue.
    pub fn main_queue_min_cap(&self) -> (res: i64)
        requires
            i64::MIN <= self.segment_size * MAIN_QUEUE_MIN_SEGMENT_COUNT <= i64::MAX,
        ensures
            res == self.min_cap(self.main_queue.cap, MAIN_QUEUE_MIN_SEGMENT_COUNT),
    {
        if self.dynamic_capacity {
            let least = self.segment_size * MAIN_QUEUE_MIN_SEGMENT_COUNT;
            if least <= self.main_queue.cap {
                least
            } else {
                self.main_queue.cap
            }
        } else {
            self.main_queue.cap
        }
    }

    /// The capacity of the main queue that is nearest to the wanted one; none where
    /// the capacity is not dynamic.
    pub fn adjusted_main_cap(&self, main_queue_cap: i64) -> (res: Option<i64>)
        requires
            i64::MIN <= self.segment_size * MAIN_QUEUE_MIN_SEGMENT_COUNT <= i64::MAX,
        ensures
            match res {
                Some(cap) => {
                    let min = self.min_cap(self.main_queue.cap, MAIN_QUEUE_MIN_SEGMENT_COUNT);
                    &&& self.dynamic_capacity
                    &&& cap == (if main_queue_cap < min {
                        min
                    } else if main_queue_cap > self.main_queue.cap {
                        self.main_queue.cap as int
                    } else {
                        main_queue_cap as int
                    })
                },
                None => !self.dynamic_capacity,
            },
    {
        if !self.dynamic_capacity {
            return None;
        }
        let min = self.main_queue_min_cap();
        if main_queue_cap < min {
            Some(min)
        } else if main_queue_cap > self.main_queue.cap {
            Some(self.main_queue.cap)
        } else {
            Some(main_queue_cap)
        }
    }

    /// The capacity of the small queue, `share` being its part of what the main
    /// queue has.
    pub fn adjusted_small_cap(&self, share: i64) -> (res: i64)
        requires
            i64::MIN <= self.segment_size * SMALL_QUEUE_MIN_SEGMENT_COUNT <= i64::MAX,
        ensures
            ({
                let min = self.min_cap(self.small_queue.cap, SMALL_QUEUE_MIN_SEGMENT_COUNT);
                res == (if share >= min {
                    share as int
                } else {
                    min
                })
            }),
    {
        let min = self.small_queue_min_cap();
        if share >= min {
            share
        } else {
            min
        }
    }

    /// How long a blocking read may take, if there may be one; `others` are those
    /// that are under way.
    pub fn acquire_sync_read(&self, others: usize) -> (res: Result<u64, IaError>)
        ensures
            res == if self.disable_sync_read {
                Err(IaError::SyncReadDisabled)
            } else if others >= self.sync_read_concurrency {
                Err(IaError::SyncReadLimitExceeded)
            } else {
                Ok(self.sync_read_timeout_secs)
            },
    {
        if self.disable_sync_read {
            return Err(IaError::SyncReadDisabled);
        }
        if others >= self.sync_read_concurrency {
            Err(IaError::SyncReadLimitExceeded)
        } else {
            Ok(self.sync_read_timeout_secs)
        }
    }
}

/// The capacity that is asked for stays between the least and the greatest.
pub proof fn law_adjusted_cap_is_allowed(opts: IaManagerOptions, wanted: i64, cap: i64)
    requires
        ({
            let min = opts.min_cap(opts.main_queue.cap, MAIN_QUEUE_MIN_SEGMENT_COUNT);
            cap == (if wanted < min {
                min
            } else if wanted > opts.main_queue.cap {
                opts.main_queue.cap as int
            } else {
                wanted as int
            })
        }),
    ensures
        opts.min_cap(opts.main_queue.cap, MAIN_QUEUE_MIN_SEGMENT_COUNT) <= cap
            <= opts.main_queue.cap,
{
}

/// What the cache remembers over a restart.
#[derive(Clone, Copy, Debug, PartialEq, Eq, Structural)]
pub struct Manifest {
    /// Capacity of the main queue.
    pub main_queue_cap: i64,
}

impl Manifest {
    /// The manifest as bytes.
    pub open spec fn bytes(self) -> Seq<u8> {
        seq![MANIFEST_FORMAT_VER] + le_bytes(i64_bits(self.main_queue_cap), 8)
    }

    /// The manifest as bytes.
    pub fn marshal(&self) -> (res: Vec<u8>)
        ensures
            res@ == self.bytes(),
    {
        let mut buf: Vec<u8> = Vec::new();
        buf.push(MANIFEST_FORMAT_VER);
        put_i64_le(&mut buf, self.main_queue_cap);
        assert(buf@ =~= self.bytes());
        buf
    }

    /// The manifest that bytes hold. What comes behind it is of no account.
    pub fn unmarshal(data: &[u8]) -> (res: Result<Self, IaError>)
        ensures
            match res {
                Ok(manifest) => {
                    &&& data@.len() >= 9
                    &&& data@[0] == MANIFEST_FORMAT_VER
                    &&& i64_bits(manifest.main_queue_cap) == le_value(data@.subrange(1, 9))
                },
                Err(IaError::ManifestTooSmall) => data@.len() < 9,
                Err(IaError::ManifestVersionNotMatch(ver)) => {
                    &&& data@.len() >= 9
                    &&& ver == data@[0]
                    &&& ver != MANIFEST_FORMAT_VER
                },
                Err(_) => false,
            },
    {
        if data.len() < 9 {
            return Err(IaError::ManifestTooSmall);
        }
        let ver = data[0];
        if ver != MANIFEST_FORMAT_VER {
            return Err(IaError::ManifestVersionNotMatch(ver));
        }
        let rest = slice_subrange(data, 1, 9);
        assert(rest@.take(8) =~= data@.subrange(1, 9));
        Ok(Manifest { main_queue_cap: get_i64_le(rest) })
    }
}

/// Whether the manifest is to be written: there is a directory for it, and it was written
/// long enough ago.
pub fn should_persist_manifest(num_paths: usize, elapsed_secs: u64) -> (res: bool)
    ensures
        res == (num_paths > 0 && elapsed_secs >= MANIFEST_PERSIST_INTERVAL_SECS),
{
    num_paths > 0 && elapsed_secs >= MANIFEST_PERSIST_INTERVAL_SECS
}

/// A manifest is read back from its bytes, whatever comes behind them.
pub proof fn law_manifest_is_read_back(m: Manifest, rest: Seq<u8>, read: Manifest)
    requires
        i64_bits(read.main_queue_cap) == le_value((m.bytes() + rest).subrange(1, 9)),
    ensures
        (m.bytes() + rest).len() >= 9,
        (m.bytes() + rest)[0] == MANIFEST_FORMAT_VER,
        read == m,
{
    lemma_pow256_values();
    lemma_le_roundtrip(i64_bits(m.main_queue_cap), 8);
    assert((m.bytes() + rest).subrange(1, 9) =~= le_bytes(i64_bits(m.main_queue_cap), 8));
}

/// When the modification time of table meta was last set.
pub struct TableMetas {
    times: DashMap<u64, i64>,
}

impl View for TableMetas {
    type V = Map<u64, i64>;

    closed spec fn view(&self) -> Map<u64, i64> {
        times_in(self.times)
    }
}

impl TableMetas {
    /// None yet.
    pub fn new() -> (res: Self)
        ensures
            res@ == Map::<u64, i64>::empty(),
    {
        let res = TableMetas { times: new_times() };
        assert(res@ =~= Map::<u64, i64>::empty());
        res
    }

    /// The table meta of a file is used at `now`. The result says whether its
    /// modification time is to be set: not where it is used for the first time,
    /// and not where it was set less than the interval ago. `first` is when that
    /// of table meta that is new counts as set. All times are in seconds.
    pub fn access_table_meta(&mut self, file_id: u64, now: i64, interval_secs: u64, first: i64) -> (res:
        bool)
        ensures
            if !old(self)@.contains_key(file_id) {
                !res && final(self)@ == old(self)@.insert(file_id, first)
            } else {
                let last = old(self)@[file_id];
                let past = if now >= last {
                    now - last
                } else {
                    0
                };
                &&& res == (past >= interval_secs)
                &&& final(self)@ == (if res {
                    old(self)@.insert(file_id, now)
                } else {
                    old(self)@
                })
            },
    {
        match get_time(&self.times, file_id) {
            None => {
                set_time(&mut self.times, file_id, first);
                false
            },
            Some(last) => {
                let past: i128 = if now >= last {
                    now as i128 - last as i128
                } else {
                    0
                };
                if past >= interval_secs as i128 {
                    set_time(&mut self.times, file_id, now);
                    true
                } else {
                    false
                }
            },
        }
    }

    /// Forgets the table meta of a file.
    pub fn remove_table_meta(&mut self, file_id: u64)
        ensures
            final(self)@ == old(self)@.remove(file_id),
    {
        remove_time(&mut self.times, file_id);
    }
}

/// Keeps the data of a segment at hand.
#[derive(Debug)]
pub struct SegmentHandle {
    /// The file.
    pub file_id: u64,
    /// Its data, where it is in memory.
    pub data: Option<Bytes>,
}

/// A read of a part of a file. Where no bytes are asked for, the segment is only
/// fetched.
pub struct ReadAt {
    buf: Vec<u8>,
    offset: u64,
    need_segment_handle: bool,
    segment_handle: Option<SegmentHandle>,
}

impl ReadAt {
    /// The bytes that are read so far; zero before that.
    pub closed spec fn read(self) -> Seq<u8> {
        self.buf@
    }

    /// First byte.
    pub closed spec fn start(self) -> u64 {
        self.offset
    }

    /// The data of the segment is to be kept at hand.
    pub closed spec fn wants_handle(self) -> bool {
        self.need_segment_handle
    }

    /// What keeps the data of the segment at hand.
    pub closed spec fn handle(self) -> Option<SegmentHandle> {
        self.segment_handle
    }

    /// The end is not beyond what offsets can say.
    pub open spec fn wf(self) -> bool {
        self.start() + self.read().len() <= u64::MAX
    }

    /// A read of `length` bytes.
    pub fn new(length: usize, offset: u64, need_segment_handle: bool) -> (res: Self)
        requires
            offset + length <= u64::MAX,
        ensures
            res.wf(),
            res.read() == Seq::new(length as nat, |i: int| 0u8),
            res.start() == offset,
            res.wants_handle() == need_segment_handle,
            res.handle() is None,
    {
        let mut buf: Vec<u8> = Vec::new();
        let mut i: usize = 0;
        while i < length
            invariant
                i <= length,
                buf@ =~= Seq::new(i as nat, |i: int| 0u8),
            decreases length - i,
        {
            buf.push(0);
            i = i + 1;
        }
        ReadAt { buf, offset, need_segment_handle, segment_handle: None }
    }

    /// First byte.
    pub fn start_off(&self) -> (res: u64)
        ensures
            res == self.start(),
    {
        self.offset
    }

    /// Where the read ends.
    pub fn end_off(&self) -> (res: u64)
        requires
            self.wf(),
        ensures
            res == self.start() + self.read().len(),
    {
        self.offset + self.buf.len() as u64
    }

    /// Whether the read is inside the segment.
    pub fn check_range(&self, ident: FileSegmentIdent) -> (res: Result<(), IaError>)
        requires
            self.wf(),
        ensures
            res == if self.start() < ident.start_off || ident.end_off < self.start()
                + self.read().len() {
                Err(IaError::InvalidRange(ident))
            } else {
                Ok(())
            },
    {
        if self.start_off() < ident.start_off || ident.end_off < self.end_off() {
            return Err(IaError::InvalidRange(ident));
        }
        Ok(())
    }

    /// Whether the data of the segment is to be kept at hand.
    pub fn wants(&self) -> (res: bool)
        ensures
            res == self.wants_handle(),
    {
        self.need_segment_handle
    }

    /// How many bytes are read.
    pub fn length(&self) -> (res: usize)
        ensures
            res == self.read().len(),
    {
        self.buf.len()
    }

    /// Takes the bytes.
    pub fn set_read(&mut self, data: Vec<u8>)
        requires
            data@.len() == old(self).read().len(),
        ensures
            final(self).read() == data@,
            final(self).start() == old(self).start(),
            final(self).wants_handle() == old(self).wants_handle(),
            final(self).handle() == old(self).handle(),
    {
        self.buf = data;
    }

    /// Keeps the data of the segment at hand.
    pub fn set_handle(&mut self, handle: SegmentHandle)
        requires
            old(self).handle() is None,
        ensures
            final(self).handle() == Some(handle),
            final(self).read() == old(self).read(),
            final(self).start() == old(self).start(),
            final(self).wants_handle() == old(self).wants_handle(),
    {
        self.segment_handle = Some(handle);
    }

    /// Reads from the data of the segment.
    pub fn read_from_segment_bytes(&mut self, ident: FileSegmentIdent, seg_data: &Bytes)
        requires
            old(self).wf(),
            old(self).wants_handle() ==> old(self).handle() is None,
            ident.start_off <= old(self).start(),
            old(self).start() + old(self).read().len() <= ident.end_off,
            content(*seg_data).len() == ident.end_off - ident.start_off,
        ensures
            final(self).wf(),
            final(self).start() == old(self).start(),
            final(self).wants_handle() == old(self).wants_handle(),
            final(self).handle() == (if old(self).wants_handle() {
                Some(SegmentHandle { file_id: ident.file_id, data: Some(*seg_data) })
            } else {
                old(self).handle()
            }),
            ({
                let from = old(self).start() - ident.start_off;
                final(self).read() == content(*seg_data).subrange(
                    from,
                    from + old(self).read().len(),
                )
            }),
    {
        if self.need_segment_handle {
            let handle = SegmentHandle { file_id: ident.file_id, data: Some(seg_data.clone()) };
            self.set_handle(handle);
        }
        let len = self.buf.len();
        let data: &[u8] = seg_data;
        let data_len = data.len();
        let ghost from = self.offset - ident.start_off;
        if len > 0 {
            let at = (self.offset - ident.start_off) as usize;
            self.buf = vstd::slice::slice_to_vec(slice_subrange(data, at, at + len));
        }
        assert(self.buf@ =~= content(*seg_data).subrange(from, from + len));
    }

    /// The bytes and what keeps the data of the segment at hand.
    pub fn finish(self) -> (res: (Vec<u8>, Option<SegmentHandle>))
        ensures
            res.0@ == self.read(),
            res.1 == self.handle(),
    {
        (self.buf, self.segment_handle)
    }
}

} // verus!

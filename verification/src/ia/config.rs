//! Settings of the cache of segments.
use vstd::prelude::*;

use crate::ia::manager::{IaManagerOptions, QueueOptions};

verus! {

/// Number of bytes of a segment.
pub const IA_SEGMENT_SIZE_DEF: i64 = 0x10_0000;

/// How long a use is not counted after one that was, in seconds.
pub const IA_FREQ_UPDATE_INTERVAL_SECS_DEF: u64 = 60;

/// How many reads from remote there may be at a time.
pub const IA_DFS_CONCURRENCY_DEF: usize = 512;

/// How many reads from remote there may be for one keyspace.
pub const IA_DFS_KEYSPACE_CONCURRENCY_DEF: usize = 192;

/// How many files are kept open.
pub const IA_FD_CACHE_CAPACITY_DEF: usize = 102400;

/// How often the modification time of table meta is set, in seconds.
pub const IA_TABLE_META_MTIME_INTERVAL_SECS_DEF: u64 = 3600;

/// How many times larger all of the cache is than its small queue.
pub const MAIN_QUEUE_CAPACITY_FACTOR: i64 = 10;

/// How long a blocking read may take, in seconds.
pub const SYNC_READ_TIMEOUT_SECS: u64 = 3;

/// How often files are looked at that may become remote, in seconds.
pub const AUTO_IA_CHECK_INTERVAL_SECS_DEF: u64 = 3600;

/// How large the queues are. Sizes are in bytes.
pub enum IaCapacity {
    /// As said.
    Manual {
        /// The small queue.
        small_queue: QueueOptions,
        /// The main queue.
        main_queue: QueueOptions,
    },
    /// Both are in memory and take as much together.
    MemoryCap(u64),
    /// The small one is in memory, the main one on disk.
    MemoryAndDiskCap {
        /// Size of the small queue.
        mem_cap: u64,
        /// Directories of the main queue.
        local_dirs: Vec<String>,
        /// Size of the main queue.
        disk_cap: u64,
    },
}

impl IaCapacity {
    /// The sizes fit the queues.
    pub open spec fn fits(self) -> bool {
        match self {
            IaCapacity::Manual { .. } => true,
            IaCapacity::MemoryCap(cap) => cap <= i64::MAX,
            IaCapacity::MemoryAndDiskCap { mem_cap, disk_cap, .. } => {
                &&& mem_cap <= i64::MAX
                &&& disk_cap <= i64::MAX
            },
        }
    }

    /// The queues are set up so.
    pub open spec fn gives(self, small: QueueOptions, main: QueueOptions) -> bool {
        match self {
            IaCapacity::Manual { small_queue, main_queue } => {
                &&& small == small_queue
                &&& main == main_queue
            },
            IaCapacity::MemoryCap(cap) => {
                &&& small.paths@.len() == 0
                &&& small.cap == cap as int / MAIN_QUEUE_CAPACITY_FACTOR as int
                &&& main.paths@.len() == 0
                &&& main.cap == cap - small.cap
            },
            IaCapacity::MemoryAndDiskCap { mem_cap, local_dirs, disk_cap } => {
                &&& small.paths@.len() == 0
                &&& small.cap == mem_cap
                &&& main.paths == local_dirs
                &&& main.cap == disk_cap
            },
        }
    }

    /// Sets the queues up.
    pub fn build_options(self, options: &mut IaManagerOptions)
        requires
            self.fits(),
        ensures
            self.gives(final(options).small_queue, final(options).main_queue),
            *final(options) == (IaManagerOptions {
                small_queue: final(options).small_queue,
                main_queue: final(options).main_queue,
                ..*old(options)
            }),
    {
        match self {
            IaCapacity::Manual { small_queue, main_queue } => {
                options.small_queue = small_queue;
                options.main_queue = main_queue;
            },
            IaCapacity::MemoryCap(cap) => {
                let mem_cap = cap as i64;
                let small_cap = mem_cap / MAIN_QUEUE_CAPACITY_FACTOR;
                options.small_queue = QueueOptions { paths: Vec::new(), cap: small_cap };
                options.main_queue = QueueOptions { paths: Vec::new(), cap: mem_cap - small_cap };
            },
            IaCapacity::MemoryAndDiskCap { mem_cap, local_dirs, disk_cap } => {
                options.small_queue = QueueOptions { paths: Vec::new(), cap: mem_cap as i64 };
                options.main_queue = QueueOptions { paths: local_dirs, cap: disk_cap as i64 };
            },
        }
    }
}

/// Settings of which some may be left open.
pub struct IaManagerOptionsBuilder {
    capacity: Option<IaCapacity>,
    segment_size: Option<i64>,
    freq_update_interval_secs: Option<u64>,
    dfs_concurrency: Option<usize>,
    dfs_keyspace_concurrency: Option<usize>,
    fd_cache_capacity: Option<usize>,
    table_meta_mtime_interval_secs: Option<u64>,
    dynamic_capacity: bool,
    disable_sync_read: bool,
    sync_read_concurrency: Option<usize>,
    sync_read_timeout_secs: Option<u64>,
}

/// What is said of the settings so far.
pub struct Wanted {
    /// How large the queues are.
    pub capacity: Option<IaCapacity>,
    /// Number of bytes of a segment.
    pub segment_size: Option<i64>,
    /// How long a use is not counted after one that was.
    pub freq_update_interval_secs: Option<u64>,
    /// How many reads from remote there may be at a time.
    pub dfs_concurrency: Option<usize>,
    /// How many of them there may be for one keyspace.
    pub dfs_keyspace_concurrency: Option<usize>,
    /// How many files are kept open.
    pub fd_cache_capacity: Option<usize>,
    /// How often the modification time of table meta is set.
    pub table_meta_mtime_interval_secs: Option<u64>,
    /// The capacity follows the size of the data.
    pub dynamic_capacity: bool,
    /// Blocking reads are not allowed.
    pub disable_sync_read: bool,
    /// How many blocking reads there may be at a time.
    pub sync_read_concurrency: Option<usize>,
    /// How long a blocking read may take.
    pub sync_read_timeout_secs: Option<u64>,
}

/// A setting or what stands for it.
pub open spec fn or<T>(value: Option<T>, default: T) -> T {
    match value {
        Some(v) => v,
        None => default,
    }
}

impl View for IaManagerOptionsBuilder {
    type V = Wanted;

    closed spec fn view(&self) -> Wanted {
        Wanted {
            capacity: self.capacity,
            segment_size: self.segment_size,
            freq_update_interval_secs: self.freq_update_interval_secs,
            dfs_concurrency: self.dfs_concurrency,
            dfs_keyspace_concurrency: self.dfs_keyspace_concurrency,
            fd_cache_capacity: self.fd_cache_capacity,
            table_meta_mtime_interval_secs: self.table_meta_mtime_interval_secs,
            dynamic_capacity: self.dynamic_capacity,
            disable_sync_read: self.disable_sync_read,
            sync_read_concurrency: self.sync_read_concurrency,
            sync_read_timeout_secs: self.sync_read_timeout_secs,
        }
    }
}

impl Default for IaManagerOptionsBuilder {
    fn default() -> (res: Self)
        ensures
            res@ == (Wanted {
                capacity: None,
                segment_size: None,
                freq_update_interval_secs: None,
                dfs_concurrency: None,
                dfs_keyspace_concurrency: None,
                fd_cache_capacity: None,
                table_meta_mtime_interval_secs: None,
                dynamic_capacity: false,
                disable_sync_read: false,
                sync_read_concurrency: None,
                sync_read_timeout_secs: None,
            }),
    {
        IaManagerOptionsBuilder {
            capacity: None,
            segment_size: None,
            freq_update_interval_secs: None,
            dfs_concurrency: None,
            dfs_keyspace_concurrency: None,
            fd_cache_capacity: None,
            table_meta_mtime_interval_secs: None,
            dynamic_capacity: false,
            disable_sync_read: false,
            sync_read_concurrency: None,
            sync_read_timeout_secs: None,
        }
    }
}

impl IaManagerOptionsBuilder {
    /// Sets how large the queues are.
    pub fn capacity(self, capacity: IaCapacity) -> (res: Self)
        ensures
            res@ == (Wanted { capacity: Some(capacity), ..self@ }),
    {
        let mut res = self;
        res.capacity = Some(capacity);
        res
    }

    /// Sets the number of bytes of a segment.
    pub fn segment_size(self, size: i64) -> (res: Self)
        ensures
            res@ == (Wanted { segment_size: Some(size), ..self@ }),
    {
        let mut res = self;
        res.segment_size = Some(size);
        res
    }

    /// Sets how long a use is not counted after one that was.
    pub fn freq_update_interval(self, secs: u64) -> (res: Self)
        ensures
            res@ == (Wanted { freq_update_interval_secs: Some(secs), ..self@ }),
    {
        let mut res = self;
        res.freq_update_interval_secs = Some(secs);
        res
    }

    /// Sets how many reads from remote there may be, in all and for one keyspace.
    pub fn dfs_concurrency(self, concurrency: usize, keyspace_concurrency: usize) -> (res: Self)
        ensures
            res@ == (Wanted {
                dfs_concurrency: Some(concurrency),
                dfs_keyspace_concurrency: Some(keyspace_concurrency),
                ..self@
            }),
    {
        let mut res = self;
        res.dfs_concurrency = Some(concurrency);
        res.dfs_keyspace_concurrency = Some(keyspace_concurrency);
        res
    }

    /// Sets how many files are kept open.
    pub fn fd_cache_capacity(self, capacity: usize) -> (res: Self)
        ensures
            res@ == (Wanted { fd_cache_capacity: Some(capacity), ..self@ }),
    {
        let mut res = self;
        res.fd_cache_capacity = Some(capacity);
        res
    }

    /// Sets how often the modification time of table meta is set.
    pub fn table_meta_mtime_interval(self, secs: u64) -> (res: Self)
        ensures
            res@ == (Wanted { table_meta_mtime_interval_secs: Some(secs), ..self@ }),
    {
        let mut res = self;
        res.table_meta_mtime_interval_secs = Some(secs);
        res
    }

    /// Sets whether the capacity follows the size of the data.
    pub fn dynamic_capacity(self, enable: bool) -> (res: Self)
        ensures
            res@ == (Wanted { dynamic_capacity: enable, ..self@ }),
    {
        let mut res = self;
        res.dynamic_capacity = enable;
        res
    }

    /// Sets what is allowed of blocking reads.
    pub fn sync_read(self, disable: bool, concurrency: usize, timeout_secs: u64) -> (res: Self)
        ensures
            res@ == (Wanted {
                disable_sync_read: disable,
                sync_read_concurrency: Some(concurrency),
                sync_read_timeout_secs: Some(timeout_secs),
                ..self@
            }),
    {
        let mut res = self;
        res.disable_sync_read = disable;
        res.sync_read_concurrency = Some(concurrency);
        res.sync_read_timeout_secs = Some(timeout_secs);
        res
    }

    /// Says that blocking reads are not allowed.
    pub fn disable_sync_read(self) -> (res: Self)
        ensures
            res@ == (Wanted { disable_sync_read: true, ..self@ }),
    {
        let mut res = self;
        res.disable_sync_read = true;
        res
    }

    /// The settings. `default_mem_cap` is the memory that both queues take where
    /// nothing is said of it; `half_cores` how many blocking reads there may be
    /// where nothing is said.
    pub fn build(self, default_mem_cap: u64, half_cores: usize) -> (res: IaManagerOptions)
        requires
            or(self@.capacity, IaCapacity::MemoryCap(default_mem_cap)).fits(),
        ensures
            or(self@.capacity, IaCapacity::MemoryCap(default_mem_cap)).gives(
                res.small_queue,
                res.main_queue,
            ),
            res == (IaManagerOptions {
                small_queue: res.small_queue,
                main_queue: res.main_queue,
                segment_size: or(self@.segment_size, IA_SEGMENT_SIZE_DEF),
                freq_update_interval_secs: or(
                    self@.freq_update_interval_secs,
                    IA_FREQ_UPDATE_INTERVAL_SECS_DEF,
                ),
                dfs_concurrency: or(self@.dfs_concurrency, IA_DFS_CONCURRENCY_DEF),
                dfs_keyspace_concurrency: or(
                    self@.dfs_keyspace_concurrency,
                    IA_DFS_KEYSPACE_CONCURRENCY_DEF,
                ),
                fd_cache_capacity: or(self@.fd_cache_capacity, IA_FD_CACHE_CAPACITY_DEF),
                table_meta_mtime_interval_secs: or(
                    self@.table_meta_mtime_interval_secs,
                    IA_TABLE_META_MTIME_INTERVAL_SECS_DEF,
                ),
                dynamic_capacity: self@.dynamic_capacity,
                disable_sync_read: self@.disable_sync_read,
                sync_read_concurrency: or(self@.sync_read_concurrency, half_cores),
                sync_read_timeout_secs: or(self@.sync_read_timeout_secs, SYNC_READ_TIMEOUT_SECS),
            }),
    {
        let mut options = IaManagerOptions {
            small_queue: QueueOptions::default(),
            main_queue: QueueOptions::default(),
            segment_size: self.segment_size.unwrap_or(IA_SEGMENT_SIZE_DEF),
            freq_update_interval_secs: self.freq_update_interval_secs.unwrap_or(
                IA_FREQ_UPDATE_INTERVAL_SECS_DEF,
            ),
            dfs_concurrency: self.dfs_concurrency.unwrap_or(IA_DFS_CONCURRENCY_DEF),
            dfs_keyspace_concurrency: self.dfs_keyspace_concurrency.unwrap_or(
                IA_DFS_KEYSPACE_CONCURRENCY_DEF,
            ),
            fd_cache_capacity: self.fd_cache_capacity.unwrap_or(IA_FD_CACHE_CAPACITY_DEF),
            table_meta_mtime_interval_secs: self.table_meta_mtime_interval_secs.unwrap_or(
                IA_TABLE_META_MTIME_INTERVAL_SECS_DEF,
            ),
            dynamic_capacity: self.dynamic_capacity,
            disable_sync_read: self.disable_sync_read,
            sync_read_concurrency: self.sync_read_concurrency.unwrap_or(half_cores),
            sync_read_timeout_secs: self.sync_read_timeout_secs.unwrap_or(SYNC_READ_TIMEOUT_SECS),
        };
        let capacity = match self.capacity {
            Some(capacity) => capacity,
            None => IaCapacity::MemoryCap(default_mem_cap),
        };
        capacity.build_options(&mut options);
        options
    }
}

/// Settings of a cache with its small queue in memory and its main queue on disk.
#[derive(Clone, Copy, Debug, PartialEq, Eq, Structural)]
pub struct IaConfig {
    /// Number of bytes of a segment.
    pub segment_size: i64,
    /// How long a use is not counted after one that was, in seconds.
    pub freq_update_interval_secs: u64,
    /// How many reads from remote there may be at a time.
    pub dfs_concurrency: usize,
    /// How many of them there may be for one keyspace.
    pub dfs_keyspace_concurrency: usize,
    /// How many files are kept open.
    pub fd_cache_capacity: usize,
    /// How often the modification time of table meta is set, in seconds.
    pub table_meta_mtime_interval_secs: u64,
    /// The capacity follows the size of the data.
    pub dynamic_capacity: bool,
    /// Blocking reads are not allowed.
    pub disable_sync_read: bool,
    /// How long a blocking read may take, in seconds.
    pub sync_read_timeout_secs: u64,
    /// All files that can be are left remote.
    pub force_ia: bool,
    /// How often files are looked at that may become remote, in seconds.
    pub auto_ia_check_interval_secs: u64,
}

impl Default for IaConfig {
    fn default() -> (res: Self)
        ensures
            res == (IaConfig {
                segment_size: IA_SEGMENT_SIZE_DEF,
                freq_update_interval_secs: IA_FREQ_UPDATE_INTERVAL_SECS_DEF,
                dfs_concurrency: IA_DFS_CONCURRENCY_DEF,
                dfs_keyspace_concurrency: IA_DFS_KEYSPACE_CONCURRENCY_DEF,
                fd_cache_capacity: IA_FD_CACHE_CAPACITY_DEF,
                table_meta_mtime_interval_secs: IA_TABLE_META_MTIME_INTERVAL_SECS_DEF,
                dynamic_capacity: false,
                disable_sync_read: false,
                sync_read_timeout_secs: SYNC_READ_TIMEOUT_SECS,
                force_ia: false,
                auto_ia_check_interval_secs: AUTO_IA_CHECK_INTERVAL_SECS_DEF,
            }),
    {
        IaConfig {
            segment_size: IA_SEGMENT_SIZE_DEF,
            freq_update_interval_secs: IA_FREQ_UPDATE_INTERVAL_SECS_DEF,
            dfs_concurrency: IA_DFS_CONCURRENCY_DEF,
            dfs_keyspace_concurrency: IA_DFS_KEYSPACE_CONCURRENCY_DEF,
            fd_cache_capacity: IA_FD_CACHE_CAPACITY_DEF,
            table_meta_mtime_interval_secs: IA_TABLE_META_MTIME_INTERVAL_SECS_DEF,
            dynamic_capacity: false,
            disable_sync_read: false,
            sync_read_timeout_secs: SYNC_READ_TIMEOUT_SECS,
            force_ia: false,
            auto_ia_check_interval_secs: AUTO_IA_CHECK_INTERVAL_SECS_DEF,
        }
    }
}

impl IaConfig {
    /// The settings of the cache. `mem_cap` and `disk_cap` are the sizes of the
    /// queues in bytes; `half_cores` is how many blocking reads there may be.
    pub fn to_manager_options(
        &self,
        data_paths: Vec<String>,
        mem_cap: u64,
        disk_cap: u64,
        half_cores: usize,
    ) -> (res: IaManagerOptions)
        requires
            mem_cap <= i64::MAX,
            disk_cap <= i64::MAX,
        ensures
            res.small_queue.paths@.len() == 0,
            res.small_queue.cap == mem_cap,
            res.main_queue.paths == data_paths,
            res.main_queue.cap == disk_cap,
            res == (IaManagerOptions {
                small_queue: res.small_queue,
                main_queue: res.main_queue,
                segment_size: self.segment_size,
                freq_update_interval_secs: self.freq_update_interval_secs,
                dfs_concurrency: self.dfs_concurrency,
                dfs_keyspace_concurrency: self.dfs_keyspace_concurrency,
                fd_cache_capacity: self.fd_cache_capacity,
                table_meta_mtime_interval_secs: self.table_meta_mtime_interval_secs,
                dynamic_capacity: self.dynamic_capacity,
                disable_sync_read: self.disable_sync_read,
                sync_read_concurrency: if self.disable_sync_read {
                    0
                } else {
                    half_cores
                },
                sync_read_timeout_secs: self.sync_read_timeout_secs,
            }),
    {
        let capacity = IaCapacity::MemoryAndDiskCap { mem_cap, local_dirs: data_paths, disk_cap };
        let sync_read_concurrency = if self.disable_sync_read {
            0
        } else {
            half_cores
        };
        IaManagerOptionsBuilder::default().capacity(capacity).segment_size(
            self.segment_size,
        ).freq_update_interval(self.freq_update_interval_secs).dfs_concurrency(
            self.dfs_concurrency,
            self.dfs_keyspace_concurrency,
        ).fd_cache_capacity(self.fd_cache_capacity).table_meta_mtime_interval(
            self.table_meta_mtime_interval_secs,
        ).dynamic_capacity(self.dynamic_capacity).sync_read(
            self.disable_sync_read,
            sync_read_concurrency,
            self.sync_read_timeout_secs,
        ).build(mem_cap, half_cores)
    }
}

} // verus!

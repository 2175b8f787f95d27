//! Limiting how fast data is written.
use vstd::prelude::*;

verus! {

/// When and how writes are slowed down. Sizes are in bytes, speeds in bytes per
/// second.
#[derive(Clone, Copy, Debug, PartialEq, Eq, Structural)]
pub struct LimiterOptions {
    /// Writes are slowed down at all.
    pub enable: bool,
    /// Below this usage they are not.
    pub soft_limit: u64,
    /// From this usage on they are as slow as can be.
    pub hard_limit: u64,
    /// Highest speed.
    pub max_speed_limit: u64,
    /// Lowest speed.
    pub min_speed_limit: u64,
}

impl Default for LimiterOptions {
    fn default() -> (res: Self)
        ensures
            res == (LimiterOptions {
                enable: false,
                soft_limit: 0,
                hard_limit: 0,
                max_speed_limit: 0,
                min_speed_limit: 0,
            }),
    {
        LimiterOptions {
            enable: false,
            soft_limit: 0,
            hard_limit: 0,
            max_speed_limit: 0,
            min_speed_limit: 0,
        }
    }
}

/// What a limiter watches.
pub trait LimiterTypeTrait {
    /// Name of what is watched.
    const TAG: &'static str;
}

/// The memory tables of a store.
#[derive(Clone, Copy, Debug)]
pub struct StoreMemTable {}

impl LimiterTypeTrait for StoreMemTable {
    const TAG: &'static str = "store-memtable";
}

/// The memory tables of a region.
#[derive(Clone, Copy, Debug)]
pub struct RegionMemTable {}

impl LimiterTypeTrait for RegionMemTable {
    const TAG: &'static str = "region-memtable";
}

/// The tables of level 0 of a region.
#[derive(Clone, Copy, Debug)]
pub struct RegionL0Table {}

impl LimiterTypeTrait for RegionL0Table {
    const TAG: &'static str = "region-l0table";
}

/// How fast data may be written.
#[derive(Clone, Copy, Debug, PartialEq, Eq, Structural)]
pub enum Throttle {
    /// As fast as can be.
    Unlimited,
    /// At the speed.
    Speed(u64),
    /// At `base` and the part `numerator / denominator` of `range` more.
    Part {
        /// Speed that is always allowed.
        base: u64,
        /// Speed that is allowed in part.
        range: u64,
        /// Numerator of the part.
        numerator: u64,
        /// Denominator of the part.
        denominator: u64,
    },
}

/// How fast data may be written at the usage: not slowed down below the soft
/// limit, at the lowest speed from the hard limit on, and in between the slower the
/// nearer to it.
pub open spec fn throttle_at(
    usage: u64,
    soft_limit: u64,
    hard_limit: u64,
    max_speed_limit: u64,
    min_speed_limit: u64,
) -> Throttle {
    if usage < soft_limit {
        Throttle::Unlimited
    } else if usage >= hard_limit {
        Throttle::Speed(min_speed_limit)
    } else {
        Throttle::Part {
            base: min_speed_limit,
            range: (max_speed_limit - min_speed_limit) as u64,
            numerator: (hard_limit - usage) as u64,
            denominator: (hard_limit - soft_limit) as u64,
        }
    }
}

/// How fast data may be written at the usage.
pub fn calculate_throttle(
    usage: u64,
    soft_limit: u64,
    hard_limit: u64,
    max_speed_limit: u64,
    min_speed_limit: u64,
) -> (res: Throttle)
    requires
        hard_limit >= soft_limit,
        max_speed_limit >= min_speed_limit,
    ensures
        res == throttle_at(usage, soft_limit, hard_limit, max_speed_limit, min_speed_limit),
{
    if usage < soft_limit {
        Throttle::Unlimited
    } else if usage >= hard_limit {
        Throttle::Speed(min_speed_limit)
    } else {
        Throttle::Part {
            base: min_speed_limit,
            range: max_speed_limit - min_speed_limit,
            numerator: hard_limit - usage,
            denominator: hard_limit - soft_limit,
        }
    }
}

/// The speed to be set after the usage changed; none where writes are not slowed
/// down.
pub fn update_usage(options: &LimiterOptions, usage: u64) -> (res: Option<Throttle>)
    requires
        options.hard_limit >= options.soft_limit,
        options.max_speed_limit >= options.min_speed_limit,
    ensures
        res == if options.enable {
            Some(
                throttle_at(
                    usage,
                    options.soft_limit,
                    options.hard_limit,
                    options.max_speed_limit,
                    options.min_speed_limit,
                ),
            )
        } else {
            None
        },
{
    if !options.enable {
        return None;
    }
    Some(
        calculate_throttle(
            usage,
            options.soft_limit,
            options.hard_limit,
            options.max_speed_limit,
            options.min_speed_limit,
        ),
    )
}

/// Slows down writes as the usage of what it watches grows. The type says what that is.
pub struct WriteRateLimiter<Ty: LimiterTypeTrait> {
    /// When and how writes are slowed down.
    pub options: LimiterOptions,
    /// How fast data may be written now.
    pub throttle: Throttle,
    /// What is watched.
    pub watched: std::marker::PhantomData<Ty>,
}

impl LimiterOptions {
    /// No limit is below the one that comes before it.
    pub open spec fn wf(self) -> bool {
        self.hard_limit >= self.soft_limit && self.max_speed_limit >= self.min_speed_limit
    }

    /// How fast data may be written after the usage changed.
    pub open spec fn after_usage(self, before: Throttle, usage: u64) -> Throttle {
        if self.enable {
            throttle_at(
                usage,
                self.soft_limit,
                self.hard_limit,
                self.max_speed_limit,
                self.min_speed_limit,
            )
        } else {
            before
        }
    }
}

impl<Ty: LimiterTypeTrait> WriteRateLimiter<Ty> {
    /// A limiter that does not slow down anything yet.
    pub fn new(options: LimiterOptions) -> (res: Self)
        ensures
            res.options == options,
            res.throttle == Throttle::Unlimited,
    {
        WriteRateLimiter {
            options,
            throttle: Throttle::Unlimited,
            watched: std::marker::PhantomData,
        }
    }

    /// A limiter with the options and the speed of another.
    pub fn new_from(another: &WriteRateLimiter<Ty>) -> (res: Self)
        ensures
            res.options == another.options,
            res.throttle == another.throttle,
    {
        WriteRateLimiter {
            options: another.options,
            throttle: another.throttle,
            watched: std::marker::PhantomData,
        }
    }

    /// A limiter that never slows down anything.
    pub fn dummy() -> (res: Self)
        ensures
            !res.options.enable,
            res.throttle == Throttle::Unlimited,
    {
        Self::new(LimiterOptions::default())
    }

    /// Whether writes are slowed down at all.
    pub fn enabled(&self) -> (res: bool)
        ensures
            res == self.options.enable,
    {
        self.options.enable
    }

    /// Whether writes are dropped. They never are.
    pub fn should_drop(&self, region_id: u64) -> (res: bool)
        ensures
            !res,
    {
        false
    }

    /// Whether data may be written as fast as can be.
    pub fn is_unlimited(&self) -> (res: bool)
        ensures
            res == (self.throttle == Throttle::Unlimited),
    {
        match self.throttle {
            Throttle::Unlimited => true,
            _ => false,
        }
    }

    /// The usage of what is watched changed.
    pub fn update_usage(&mut self, usage: u64)
        requires
            old(self).options.wf(),
        ensures
            final(self).options == old(self).options,
            final(self).throttle == old(self).options.after_usage(old(self).throttle, usage),
    {
        match update_usage(&self.options, usage) {
            Some(throttle) => {
                self.throttle = throttle;
            },
            None => {},
        }
    }
}

/// Slows down the writes of a region by its memory tables and its level 0.
pub struct RegionLimiter {
    /// By the memory tables.
    pub memtable: WriteRateLimiter<RegionMemTable>,
    /// By the tables of level 0.
    pub l0table: WriteRateLimiter<RegionL0Table>,
}

impl RegionLimiter {
    /// A limiter that does not slow down anything yet.
    pub fn new(memtable_options: LimiterOptions, l0table_options: LimiterOptions) -> (res: Self)
        ensures
            res.memtable.options == memtable_options,
            res.memtable.throttle == Throttle::Unlimited,
            res.l0table.options == l0table_options,
            res.l0table.throttle == Throttle::Unlimited,
    {
        RegionLimiter {
            memtable: WriteRateLimiter::new(memtable_options),
            l0table: WriteRateLimiter::new(l0table_options),
        }
    }

    /// A limiter with the options and the speeds of another.
    pub fn new_from(another: &RegionLimiter) -> (res: Self)
        ensures
            res.memtable.options == another.memtable.options,
            res.memtable.throttle == another.memtable.throttle,
            res.l0table.options == another.l0table.options,
            res.l0table.throttle == another.l0table.throttle,
    {
        RegionLimiter {
            memtable: WriteRateLimiter::new_from(&another.memtable),
            l0table: WriteRateLimiter::new_from(&another.l0table),
        }
    }

    /// Whether writes are slowed down at all.
    pub fn enabled(&self) -> (res: bool)
        ensures
            res == (self.memtable.options.enable || self.l0table.options.enable),
    {
        self.memtable.enabled() || self.l0table.enabled()
    }

    /// Whether data may be written as fast as can be.
    pub fn is_unlimited(&self) -> (res: bool)
        ensures
            res == (self.memtable.throttle == Throttle::Unlimited && self.l0table.throttle
                == Throttle::Unlimited),
    {
        self.memtable.is_unlimited() && self.l0table.is_unlimited()
    }

    /// The sizes of the memory tables and of level 0 changed.
    pub fn update_usage(&mut self, memtable_usage: u64, l0table_usage: u64)
        requires
            old(self).memtable.options.wf(),
            old(self).l0table.options.wf(),
        ensures
            final(self).memtable.options == old(self).memtable.options,
            final(self).l0table.options == old(self).l0table.options,
            final(self).memtable.throttle == old(self).memtable.options.after_usage(
                old(self).memtable.throttle,
                memtable_usage,
            ),
            final(self).l0table.throttle == old(self).l0table.options.after_usage(
                old(self).l0table.throttle,
                l0table_usage,
            ),
    {
        self.memtable.update_usage(memtable_usage);
        self.l0table.update_usage(l0table_usage);
    }

    /// How long a write waits: as long as the slower of the two limiters asks for.
    pub fn longer_wait(memtable_ns: u64, l0table_ns: u64) -> (res: u64)
        ensures
            res == memtable_ns || res == l0table_ns,
            res >= memtable_ns,
            res >= l0table_ns,
    {
        if memtable_ns >= l0table_ns {
            memtable_ns
        } else {
            l0table_ns
        }
    }
}

/// How many files may be read from remote at a time: some for each core, of which there
/// is at least one.
pub fn dfs_load_concurrency(cores: usize, per_core: usize) -> (res: usize)
    requires
        (if cores == 0 {
            1int
        } else {
            cores as int
        }) * per_core <= usize::MAX,
    ensures
        res == (if cores == 0 {
            1int
        } else {
            cores as int
        }) * per_core,
{
    let cores: usize = if cores == 0 {
        1
    } else {
        cores
    };
    cores * per_core
}

impl Throttle {
    /// The speed is at least `speed`.
    pub open spec fn allows(self, speed: int) -> bool {
        match self {
            Throttle::Unlimited => true,
            Throttle::Speed(s) => s >= speed,
            Throttle::Part { base, range, numerator, denominator } => (speed - base) * denominator
                <= range * numerator,
        }
    }
}

/// The lowest speed is always allowed, and a speed above the highest only where
/// writes are not slowed down.
pub proof fn law_throttle_is_between_the_limits(
    usage: u64,
    soft: u64,
    hard: u64,
    max: u64,
    min: u64,
)
    requires
        hard >= soft,
        max >= min,
    ensures
        throttle_at(usage, soft, hard, max, min).allows(min as int),
        usage >= soft ==> !throttle_at(usage, soft, hard, max, min).allows(max + 1),
{
    if soft <= usage < hard {
        let range = max - min;
        let n = hard - usage;
        let d = hard - soft;
        assert((min - min) * d == 0) by (nonlinear_arith);
        assert(0 <= range * n) by (nonlinear_arith)
            requires
                range >= 0,
                n >= 0,
        ;
        assert((max + 1 - min) * d > range * n) by (nonlinear_arith)
            requires
                range == max - min,
                range >= 0,
                0 < n <= d,
        ;
    }
}

/// The more is used, the slower data may be written.
pub proof fn law_more_usage_is_slower(
    less: u64,
    more: u64,
    soft: u64,
    hard: u64,
    max: u64,
    min: u64,
    speed: int,
)
    requires
        hard >= soft,
        max >= min,
        less <= more,
        throttle_at(more, soft, hard, max, min).allows(speed),
    ensures
        throttle_at(less, soft, hard, max, min).allows(speed),
{
    let range = max - min;
    let d = hard - soft;
    if soft <= less < hard {
        if more < hard {
            assert(range * (hard - more) <= range * (hard - less)) by (nonlinear_arith)
                requires
                    range >= 0,
                    less <= more,
            ;
        } else {
            assert((speed - min) * d <= range * (hard - less)) by (nonlinear_arith)
                requires
                    speed <= min,
                    d >= 0,
                    range >= 0,
                    hard - less >= 0,
            ;
        }
    }
}

} // verus!

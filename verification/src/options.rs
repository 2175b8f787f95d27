//! Settings.
use vstd::prelude::*;

use crate::limiter::LimiterOptions;

verus! {

/// Settings of a column family.
#[derive(Clone, Copy, Debug, PartialEq, Eq, Structural)]
pub struct CfConfig {
    /// Old versions are collected.
    pub managed: bool,
    /// Number of levels.
    pub max_levels: usize,
}

impl Default for CfConfig {
    fn default() -> (res: Self)
        ensures
            res == (CfConfig { managed: false, max_levels: 0 }),
    {
        CfConfig { managed: false, max_levels: 0 }
    }
}

impl CfConfig {
    /// The settings.
    pub fn new(managed: bool, max_levels: usize) -> (res: Self)
        ensures
            res == (CfConfig { managed, max_levels }),
    {
        CfConfig { managed, max_levels }
    }
}

/// When and how writes of a region are slowed down. Sizes are in bytes, speeds in
/// bytes per second.
#[derive(Clone, Copy, Debug, PartialEq, Eq, Structural)]
pub struct FlowControlOptions {
    /// Writes are slowed down at all.
    pub enable: bool,
    /// Size of the memory tables below which they are not.
    pub soft_region_mem_limit: u64,
    /// Size of the memory tables from which on they are as slow as can be.
    pub hard_region_mem_limit: u64,
    /// Size of the tables of level 0 below which they are not.
    pub soft_region_l0table_size_limit: u64,
    /// Size of the tables of level 0 from which on they are as slow as can be.
    pub hard_region_l0table_size_limit: u64,
    /// Highest speed.
    pub max_region_speed_limit: u64,
    /// Lowest speed.
    pub min_region_speed_limit: u64,
}

impl FlowControlOptions {
    /// What is to be known of the memory tables.
    pub fn region_memtable_limiter_options(&self) -> (res: LimiterOptions)
        ensures
            res == (LimiterOptions {
                enable: self.enable,
                soft_limit: self.soft_region_mem_limit,
                hard_limit: self.hard_region_mem_limit,
                max_speed_limit: self.max_region_speed_limit,
                min_speed_limit: self.min_region_speed_limit,
            }),
    {
        LimiterOptions {
            enable: self.enable,
            soft_limit: self.soft_region_mem_limit,
            hard_limit: self.hard_region_mem_limit,
            max_speed_limit: self.max_region_speed_limit,
            min_speed_limit: self.min_region_speed_limit,
        }
    }

    /// What is to be known of the tables of level 0.
    pub fn region_l0table_limiter_options(&self) -> (res: LimiterOptions)
        ensures
            res == (LimiterOptions {
                enable: self.enable,
                soft_limit: self.soft_region_l0table_size_limit,
                hard_limit: self.hard_region_l0table_size_limit,
                max_speed_limit: self.max_region_speed_limit,
                min_speed_limit: self.min_region_speed_limit,
            }),
    {
        LimiterOptions {
            enable: self.enable,
            soft_limit: self.soft_region_l0table_size_limit,
            hard_limit: self.hard_region_l0table_size_limit,
            max_speed_limit: self.max_region_speed_limit,
            min_speed_limit: self.min_region_speed_limit,
        }
    }
}

/// Hands out ids of files.
pub trait IdAllocator {
    /// Why there is no id.
    type Error;

    /// `count` ids that were not handed out before.
    fn alloc_id(&self, count: usize) -> Result<Vec<u64>, Self::Error>;
}

} // verus!

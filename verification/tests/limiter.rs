//! How fast data may be written.
use kvengine::limiter::{
    calculate_throttle, dfs_load_concurrency, update_usage, LimiterOptions, RegionLimiter,
    StoreMemTable, Throttle, WriteRateLimiter,
};
use kvengine::options::FlowControlOptions;

fn speed_of(throttle: Throttle) -> f64 {
    match throttle {
        Throttle::Unlimited => f64::INFINITY,
        Throttle::Speed(speed) => speed as f64,
        Throttle::Part { base, range, numerator, denominator } => {
            base as f64 + range as f64 * numerator as f64 / denominator as f64
        }
    }
}

#[test]
fn test_calculate_throttle() {
    let cases = vec![
        (0, f64::INFINITY), // (usage, expected throttle)
        (200, f64::INFINITY),
        (255, f64::INFINITY),
        (256, 50.0),
        (300, 45.8),
        (512, 25.0),
        (600, 17.0),
        (700, 7.5),
        (767, 1.0),
        (768, 1.0),
        (800, 1.0),
    ];

    for (usage, throttle_mb) in cases {
        let result = speed_of(calculate_throttle(
            usage << 20,
            256 << 20,
            768 << 20,
            50 << 20,
            1 << 20,
        ));

        let throttle = throttle_mb * 1024.0 * 1024.0;
        let result_mb = result / 1024.0 / 1024.0;
        let diff = (result_mb - throttle_mb as f64).abs();
        assert!(
            result == throttle || diff < 1.0,
            "result: {}, throttle: {}, diff: {}",
            result_mb,
            throttle_mb,
            diff
        );
    }

    let corner_cases = vec![
        (
            512,  // usage
            256,  // soft_limit
            768,  // hard_limit
            50,   // max_speed_limit
            50,   // min_speed_limit
            50.0, // expected throttle
        ),
        (512, 512, 512, 50, 1, 1.0), // soft_limit == hard_limit
    ];
    for (usage, soft, hard, max, min, expected) in corner_cases {
        let result = speed_of(calculate_throttle(usage, soft, hard, max, min));
        assert_eq!(result, expected);
    }
}

fn options() -> LimiterOptions {
    LimiterOptions {
        enable: true,
        soft_limit: 100,
        hard_limit: 200,
        max_speed_limit: 50,
        min_speed_limit: 10,
    }
}

#[test]
fn half_way_between_the_limits_half_the_range_is_left() {
    assert_eq!(
        calculate_throttle(150, 100, 200, 50, 10),
        Throttle::Part { base: 10, range: 40, numerator: 50, denominator: 100 }
    );
    assert_eq!(speed_of(calculate_throttle(150, 100, 200, 50, 10)), 30.0);
}

#[test]
fn a_limiter_follows_the_usage() {
    assert_eq!(update_usage(&options(), 99), Some(Throttle::Unlimited));
    assert_eq!(update_usage(&options(), 200), Some(Throttle::Speed(10)));
    let off = LimiterOptions { enable: false, ..options() };
    assert_eq!(update_usage(&off, 500), None);

    let mut limiter: WriteRateLimiter<StoreMemTable> = WriteRateLimiter::new(options());
    assert!(limiter.enabled());
    assert!(limiter.is_unlimited());
    limiter.update_usage(250);
    assert!(!limiter.is_unlimited());
    limiter.update_usage(0);
    assert!(limiter.is_unlimited());

    let dummy: WriteRateLimiter<StoreMemTable> = WriteRateLimiter::dummy();
    assert!(!dummy.enabled());
    assert!(dummy.is_unlimited());
}

#[test]
fn a_region_is_limited_by_either_kind_of_table() {
    let mut limiter = RegionLimiter::new(options(), options());
    assert!(limiter.enabled());
    limiter.update_usage(0, 300);
    assert!(!limiter.is_unlimited());
    limiter.update_usage(0, 0);
    assert!(limiter.is_unlimited());
    assert_eq!(RegionLimiter::longer_wait(3, 5), 5);
    assert_eq!(RegionLimiter::longer_wait(8, 5), 8);
}

#[test]
fn remote_loads_grow_with_the_cores() {
    assert_eq!(dfs_load_concurrency(4, 8), 32);
}

#[test]
fn both_kinds_of_tables_have_limits_of_their_own() {
    let flow = FlowControlOptions {
        enable: true,
        soft_region_mem_limit: 1,
        hard_region_mem_limit: 2,
        soft_region_l0table_size_limit: 3,
        hard_region_l0table_size_limit: 4,
        max_region_speed_limit: 6,
        min_region_speed_limit: 5,
    };
    let mem = flow.region_memtable_limiter_options();
    let l0 = flow.region_l0table_limiter_options();
    assert_eq!((mem.soft_limit, mem.hard_limit), (1, 2));
    assert_eq!((l0.soft_limit, l0.hard_limit), (3, 4));
    assert_eq!((mem.max_speed_limit, l0.min_speed_limit), (6, 5));
}

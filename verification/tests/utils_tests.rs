use rust_llm::utils::{
    align_down, align_up, div_up, estimate_memory_for_kv_cache, estimate_model_memory,
    next_power_of_2, round_up, MemoryPool, PerfTimer,
};

#[test]
fn test_align() {
    assert_eq!(align_up(100, 64), 128);
    assert_eq!(align_up(128, 64), 128);
    assert_eq!(align_up(129, 64), 192);
}

#[test]
fn align_down_clears_low_bits() {
    assert_eq!(align_down(100, 64), 64);
    assert_eq!(align_down(128, 64), 128);
    assert_eq!(align_down(63, 64), 0);
}

#[test]
fn div_up_and_round_up() {
    assert_eq!(div_up(10, 3), 4);
    assert_eq!(div_up(9, 3), 3);
    assert_eq!(round_up(10, 3), 12);
    assert_eq!(round_up(12, 3), 12);
    assert_eq!(round_up(0, 5), 0);
}

#[test]
fn next_power_of_two_values() {
    assert_eq!(next_power_of_2(0), 1);
    assert_eq!(next_power_of_2(1), 1);
    assert_eq!(next_power_of_2(5), 8);
    assert_eq!(next_power_of_2(64), 64);
    assert_eq!(next_power_of_2(65), 128);
}

#[test]
fn kv_cache_estimate_formula() {
    // 8 heads * 128 dims * 2 (k and v) * 4 bytes = 8192 bytes per token.
    assert_eq!(estimate_memory_for_kv_cache(32, 8, 128, 2048, 1), 8192 * 2048 * 32);
    assert_eq!(estimate_memory_for_kv_cache(2, 1, 4, 10, 3), 32 * 10 * 2 * 3);
}

#[test]
fn model_memory_estimate_formula() {
    let embed = 2 * 1000 * 64 * 4;
    let attention = 2 * 64 * (64 + 2 * 64);
    let ffn = 2 * 64 * (2 * 256 + 256);
    assert_eq!(estimate_model_memory(2, 64, 256, 1000, false), embed + attention + ffn);
    assert_eq!(estimate_model_memory(2, 64, 256, 1000, true), (embed + attention + ffn) / 2);
}

#[test]
fn memory_pool_bump_allocation() {
    let mut pool = MemoryPool::new(256);
    assert_eq!(pool.available(), 256);
    assert_eq!(pool.allocate(10, 64), Some(0));
    assert_eq!(pool.allocate(64, 64), Some(64));
    assert_eq!(pool.available(), 128);
    assert_eq!(pool.allocate(200, 64), None);
    assert_eq!(pool.available(), 128);
    pool.reset();
    assert_eq!(pool.available(), 256);
    assert_eq!(pool.allocate(1, 1), Some(0));
}

#[test]
fn memory_pool_regions_do_not_overlap() {
    let mut pool = MemoryPool::new(1024);
    let a = pool.allocate(100, 16).unwrap();
    let b = pool.allocate(100, 16).unwrap();
    assert!(a + 112 <= b);
}

#[test]
fn perf_timer_runs() {
    let t = PerfTimer::new("load");
    let _ = t.elapsed();
}

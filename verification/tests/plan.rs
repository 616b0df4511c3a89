use rand::rngs::SmallRng;
use rand::SeedableRng;
use spot_check::{plan_blocks, shuffle_plan, spot_block, BlockIdx, ConfigurationError};

fn numbers(plan: &[BlockIdx]) -> Vec<u64> {
    plan.iter().map(|entry| entry.num).collect()
}

#[test]
fn plan_rounds_region_ends() {
    // Ten blocks in four regions end at 2.5, 5, 7.5 and 10 blocks.
    let plan = plan_blocks(10 * 512, 512, 4).unwrap();
    assert_eq!(numbers(&plan), vec![2, 4, 7, 9]);
    let slots: Vec<usize> = plan.iter().map(|entry| entry.idx).collect();
    assert_eq!(slots, vec![0, 1, 2, 3]);
}

#[test]
fn plan_of_one_slot_samples_last_block() {
    let plan = plan_blocks(4096 * 100, 4096, 1).unwrap();
    assert_eq!(plan, vec![BlockIdx { idx: 0, num: 99 }]);
}

#[test]
fn plan_of_every_block() {
    let plan = plan_blocks(8 * 1024, 1024, 8).unwrap();
    assert_eq!(numbers(&plan), vec![0, 1, 2, 3, 4, 5, 6, 7]);
}

#[test]
fn plan_without_slots_is_empty() {
    assert_eq!(plan_blocks(4096, 4096, 0), Ok(vec![]));
    assert_eq!(plan_blocks(0, 4096, 0), Ok(vec![]));
}

#[test]
fn plan_spans_device_with_distinct_blocks() {
    for (device_blocks, slots) in [(250u64, 10usize), (1000, 576), (577, 576), (576, 576), (7, 3)] {
        let plan = plan_blocks(device_blocks * 4096, 4096, slots).unwrap();
        assert_eq!(plan.len(), slots);
        for pair in plan.windows(2) {
            assert!(pair[0].num < pair[1].num);
        }
        for (slot, entry) in plan.iter().enumerate() {
            assert_eq!(entry.idx, slot);
            assert!(entry.num < device_blocks);
        }
        assert_eq!(plan[slots - 1].num, device_blocks - 1);
    }
}

#[test]
fn plan_default_sample_of_large_device() {
    // 64 GB in blocks of 4 KiB, 576 slots: 15_625_000 blocks.
    let plan = plan_blocks(64_000_000_000, 4096, 576).unwrap();
    assert_eq!(plan[0].num, 27126);
    assert_eq!(plan[1].num, 54252);
    assert_eq!(plan[287].num, 7_812_499);
    assert_eq!(plan[575].num, 15_624_999);
}

#[test]
fn plan_is_exact_beyond_float_precision() {
    // (2^63 - 1) blocks in two regions: the first ends at 2^62 - 0.5, which
    // rounds up to 2^62.
    let device_blocks = (1u64 << 63) - 1;
    assert_eq!(spot_block(0, device_blocks, 2), (1u64 << 62) - 1);
    assert_eq!(spot_block(1, device_blocks, 2), device_blocks - 1);
    assert_eq!(spot_block(0, u64::MAX, 1), u64::MAX - 1);
}

#[test]
fn plan_with_more_slots_than_blocks_repeats_blocks() {
    let plan = plan_blocks(3 * 512, 512, 4).unwrap();
    assert_eq!(numbers(&plan), vec![0, 1, 1, 2]);
    let plan = plan_blocks(3 * 512, 512, 6).unwrap();
    assert_eq!(numbers(&plan), vec![0, 0, 1, 1, 2, 2]);
}

#[test]
fn plan_refuses_size_that_is_no_multiple() {
    assert_eq!(
        plan_blocks(1_000_000, 4096, 16),
        Err(ConfigurationError::SizeNotMultiple { device_size: 1_000_000, block_size: 4096 })
    );
    assert_eq!(
        plan_blocks(4095, 4096, 0),
        Err(ConfigurationError::SizeNotMultiple { device_size: 4095, block_size: 4096 })
    );
}

#[test]
fn plan_refuses_too_many_slots() {
    assert_eq!(
        plan_blocks(3 * 512, 512, 7),
        Err(ConfigurationError::TooManySlots { device_blocks: 3, slots: 7 })
    );
    assert_eq!(
        plan_blocks(0, 512, 1),
        Err(ConfigurationError::TooManySlots { device_blocks: 0, slots: 1 })
    );
}

#[test]
fn spot_block_matches_formula() {
    assert_eq!(spot_block(0, 10, 4), 2);
    assert_eq!(spot_block(2, 10, 4), 7);
    assert_eq!(spot_block(0, 1, 2), 0);
    assert_eq!(spot_block(1, 1, 2), 0);
    assert_eq!(spot_block(4, 250, 10), 124);
}

#[test]
fn shuffle_keeps_entries_and_changes_order() {
    let sorted = plan_blocks(1000 * 4096, 4096, 200).unwrap();
    let mut shuffled = sorted.clone();
    let mut rng = SmallRng::seed_from_u64(17);
    shuffle_plan(&mut shuffled, &mut rng);
    assert_eq!(shuffled.len(), sorted.len());
    assert_ne!(shuffled, sorted);
    let mut back = shuffled.clone();
    back.sort_by_key(|entry| entry.idx);
    assert_eq!(back, sorted);
}

#[test]
fn shuffle_of_short_plans() {
    let mut rng = SmallRng::seed_from_u64(3);
    let mut empty: Vec<BlockIdx> = vec![];
    shuffle_plan(&mut empty, &mut rng);
    assert!(empty.is_empty());
    let mut one = vec![BlockIdx { idx: 0, num: 9 }];
    shuffle_plan(&mut one, &mut rng);
    assert_eq!(one, vec![BlockIdx { idx: 0, num: 9 }]);
}

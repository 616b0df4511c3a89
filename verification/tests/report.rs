use spot_check::{
    classify, contains_report, fill_validation_map, plan_blocks, record_original_reads,
    record_write_errors, same_bytes, unknown_map, validated_drive_size, validated_prefix,
    BlockIdx, BlockReport, Blocks, IoError,
};
use BlockReport::{NoStorage, ReadError, ReadSuccessful, Unknown, Validated, WriteError};

#[test]
fn write_failure_dominates() {
    for read_back in [IoError::NoError, IoError::ReadError, IoError::WriteError] {
        for matches in [false, true] {
            assert_eq!(classify(IoError::WriteError, read_back, matches), WriteError);
        }
    }
}

#[test]
fn classify_every_case() {
    assert_eq!(classify(IoError::NoError, IoError::NoError, true), Validated);
    assert_eq!(classify(IoError::NoError, IoError::NoError, false), NoStorage);
    assert_eq!(classify(IoError::NoError, IoError::ReadError, true), ReadError);
    assert_eq!(classify(IoError::NoError, IoError::ReadError, false), ReadError);
    assert_eq!(classify(IoError::ReadError, IoError::NoError, true), Validated);
    assert_eq!(classify(IoError::NoError, IoError::WriteError, false), NoStorage);
}

#[test]
fn same_bytes_compares_content() {
    assert!(same_bytes(&[], &[]));
    assert!(same_bytes(&[1, 2, 3], &[1, 2, 3]));
    assert!(!same_bytes(&[1, 2, 3], &[1, 2, 4]));
    assert!(!same_bytes(&[0, 2, 3], &[1, 2, 3]));
    assert!(!same_bytes(&[1, 2, 3], &[1, 2]));
    assert!(!same_bytes(&[], &[0]));
}

#[test]
fn unknown_map_is_all_unknown() {
    assert_eq!(unknown_map(3), vec![Unknown, Unknown, Unknown]);
    assert!(unknown_map(0).is_empty());
}

#[test]
fn contains_report_finds_state() {
    let map = vec![ReadSuccessful, ReadError, ReadSuccessful];
    assert!(contains_report(&map, ReadError));
    assert!(contains_report(&map, ReadSuccessful));
    assert!(!contains_report(&map, Validated));
    assert!(!contains_report(&vec![], Unknown));
}

fn shuffled_order() -> Vec<BlockIdx> {
    vec![
        BlockIdx { idx: 2, num: 74 },
        BlockIdx { idx: 0, num: 24 },
        BlockIdx { idx: 3, num: 99 },
        BlockIdx { idx: 1, num: 49 },
    ]
}

#[test]
fn original_reads_go_to_their_slots() {
    let order = shuffled_order();
    let mut original = Blocks::new(8, 4, 0);
    original.errors[0] = IoError::ReadError;
    original.errors[3] = IoError::ReadError;
    let mut map = unknown_map(4);
    record_original_reads(&order, &original, &mut map);
    assert_eq!(map, vec![ReadSuccessful, ReadError, ReadError, ReadSuccessful]);
}

#[test]
fn write_errors_go_to_their_slots() {
    let order = shuffled_order();
    let mut written = Blocks::new(8, 4, 0);
    written.errors[1] = IoError::WriteError;
    let mut map = vec![ReadSuccessful, ReadSuccessful, Unknown, ReadSuccessful];
    record_write_errors(&order, &written, &mut map);
    assert_eq!(map, vec![WriteError, ReadSuccessful, Unknown, ReadSuccessful]);
}

#[test]
fn final_outcomes_go_to_their_slots() {
    let order = shuffled_order();
    let mut written = Blocks::new(4, 4, 16);
    let mut read_back = Blocks::new(4, 4, 0);
    for i in 0..4 {
        written.block_mut(i).copy_from_slice(&[i as u8 + 1; 4]);
        read_back.block_mut(i).copy_from_slice(&[i as u8 + 1; 4]);
    }
    // Position 0 (slot 2): the write failed, though the bytes would match.
    written.errors[0] = IoError::WriteError;
    // Position 1 (slot 0): all well.
    // Position 2 (slot 3): the read-back failed.
    read_back.errors[2] = IoError::ReadError;
    // Position 3 (slot 1): something else came back.
    read_back.block_mut(3)[2] = 0;
    let mut map = unknown_map(4);
    fill_validation_map(&order, &written, &read_back, &mut map);
    assert_eq!(map, vec![Validated, NoStorage, WriteError, ReadError]);
}

#[test]
fn validated_prefix_is_longest_run_from_slot_zero() {
    assert_eq!(validated_prefix(&vec![Validated, Validated, NoStorage, Validated]), 2);
    assert_eq!(validated_prefix(&vec![NoStorage, Validated, Validated]), 0);
    assert_eq!(validated_prefix(&vec![Validated, Validated]), 2);
    assert_eq!(validated_prefix(&vec![]), 0);
    assert_eq!(validated_prefix(&vec![Validated, WriteError]), 1);
    assert_eq!(validated_prefix(&vec![Validated, ReadError]), 1);
    assert_eq!(validated_prefix(&vec![Unknown]), 0);
}

#[test]
fn validated_size_is_end_of_last_validated_block() {
    let order = shuffled_order();
    let map = vec![Validated, Validated, NoStorage, Validated];
    // Slot 1 samples block 49, which ends at byte 50 * 4096.
    assert_eq!(validated_drive_size(&map, &order, 4096), 50 * 4096);
}

#[test]
fn validated_size_is_zero_without_first_slot() {
    let order = shuffled_order();
    let map = vec![NoStorage, Validated, Validated, Validated];
    assert_eq!(validated_drive_size(&map, &order, 4096), 0);
    assert_eq!(validated_drive_size(&vec![], &vec![], 4096), 0);
}

#[test]
fn validated_size_of_full_map_is_device_size() {
    let order = plan_blocks(250 * 4000, 4000, 10).unwrap();
    let map = vec![Validated; 10];
    assert_eq!(validated_drive_size(&map, &order, 4000), 1_000_000);
    let map = vec![
        Validated, Validated, Validated, Validated, Validated, ReadError, Validated, Validated,
        Validated, Validated,
    ];
    assert_eq!(validated_drive_size(&map, &order, 4000), 500_000);
}

#[test]
fn validated_size_takes_highest_block_of_prefix() {
    // An order whose blocks do not rise with the slot.
    let order = vec![
        BlockIdx { idx: 0, num: 30 },
        BlockIdx { idx: 1, num: 10 },
        BlockIdx { idx: 2, num: 90 },
    ];
    assert_eq!(validated_drive_size(&vec![Validated, Validated, NoStorage], &order, 10), 310);
    assert_eq!(validated_drive_size(&vec![Validated, Validated, Validated], &order, 10), 910);
}

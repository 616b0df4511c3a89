use rand::rngs::SmallRng;
use rand::SeedableRng;
use spot_check::{
    buffers_fit, note_transfer, read_blocks, run, write_blocks, BlockIdx, BlockReport, Blocks,
    ConfigurationError, Device, DeviceError, DeviceInfo, IoError, Options, RunError, Transfers,
};
use std::time::Duration;

/// A device held in memory. It reports `size` bytes and stores `bytes.len()`
/// of them: a write beyond them is accepted and lost, and a read beyond them
/// gives what the start of the device holds. Transfers that touch a byte of
/// `bad_reads` or `bad_writes` fail.
struct Simulated {
    bytes: Vec<u8>,
    size: u64,
    alignment: usize,
    bad_reads: Vec<u64>,
    bad_writes: Vec<u64>,
    reads: Vec<u64>,
    writes: Vec<u64>,
    info: DeviceInfo,
}

impl Simulated {
    fn perfect(size: usize) -> Simulated {
        Simulated::counterfeit(size, size)
    }

    fn counterfeit(size: usize, stored: usize) -> Simulated {
        let bytes = (0..stored).map(|i| (i * 7 + i / 251) as u8).collect();
        Simulated {
            bytes,
            size: size as u64,
            alignment: 0,
            bad_reads: vec![],
            bad_writes: vec![],
            reads: vec![],
            writes: vec![],
            info: DeviceInfo::new(),
        }
    }

    fn touches(bad: &[u64], offset: u64, len: usize) -> bool {
        bad.iter().any(|byte| offset <= *byte && *byte < offset + len as u64)
    }
}

impl Device for Simulated {
    fn get_size(&self) -> u64 {
        self.size
    }

    fn get_device_info(&mut self) -> Result<&DeviceInfo, DeviceError> {
        self.info.size = self.size;
        Ok(&self.info)
    }

    fn read(&mut self, offset: u64, data: &mut [u8]) -> Result<Duration, DeviceError> {
        self.reads.push(offset);
        if offset + data.len() as u64 > self.size || Simulated::touches(&self.bad_reads, offset, data.len()) {
            return Err(DeviceError { message: format!("cannot read at {}", offset) });
        }
        let stored = self.bytes.len();
        let start = offset as usize;
        if start + data.len() <= stored {
            data.copy_from_slice(&self.bytes[start..start + data.len()]);
        } else {
            data.copy_from_slice(&self.bytes[..data.len()]);
        }
        Ok(Duration::from_micros(3))
    }

    fn write(&mut self, offset: u64, data: &[u8]) -> Result<Duration, DeviceError> {
        self.writes.push(offset);
        if offset + data.len() as u64 > self.size || Simulated::touches(&self.bad_writes, offset, data.len()) {
            return Err(DeviceError { message: format!("cannot write at {}", offset) });
        }
        let start = offset as usize;
        if start + data.len() <= self.bytes.len() {
            self.bytes[start..start + data.len()].copy_from_slice(data);
        }
        Ok(Duration::from_micros(5))
    }

    fn get_memory_alignment(&self) -> usize {
        self.alignment
    }
}

fn options(block_size: usize, num_blocks: usize) -> Options {
    Options { block_size, num_blocks, read_only: false, no_restore_original: false }
}

fn slot_of_block(order: &[BlockIdx], num: u64) -> usize {
    order.iter().find(|entry| entry.num == num).unwrap().idx
}

#[test]
fn perfect_device_is_validated_and_restored() {
    for seed in 0..8 {
        let mut device = Simulated::perfect(1_000_000);
        device.alignment = 512;
        let before = device.bytes.clone();
        let mut rng = SmallRng::seed_from_u64(seed);
        let report = run(&mut device, &mut rng, &options(4000, 25)).unwrap();
        assert_eq!(report.validation_map, vec![BlockReport::Validated; 25]);
        assert_eq!(report.validated_drive_size, 1_000_000);
        assert_eq!(report.device_size, 1_000_000);
        assert_eq!(device.bytes, before);
        assert_eq!(device.reads.len(), 50);
        assert_eq!(device.writes.len(), 50);
        let (original, transfers) = report.original.as_ref().unwrap();
        assert!(transfers.failures.is_empty());
        assert_eq!(transfers.durations.len(), 25);
        for (i, entry) in report.spot_blocks.iter().enumerate() {
            let start = entry.num as usize * 4000;
            assert_eq!(original.block(i), &before[start..start + 4000]);
        }
        assert!(report.restored.as_ref().unwrap().failures.is_empty());
    }
}

#[test]
fn perfect_device_without_restore_keeps_test_data() {
    let mut device = Simulated::perfect(40_000);
    let before = device.bytes.clone();
    let mut rng = SmallRng::seed_from_u64(5);
    let mut asked = options(1000, 8);
    asked.no_restore_original = true;
    let report = run(&mut device, &mut rng, &asked).unwrap();
    assert_eq!(report.validation_map, vec![BlockReport::Validated; 8]);
    assert_eq!(report.validated_drive_size, 40_000);
    assert!(report.original.is_none());
    assert!(report.restored.is_none());
    assert_eq!(device.reads.len(), 8);
    assert_eq!(device.writes.len(), 8);
    let (random, _) = report.random.as_ref().unwrap();
    for (i, entry) in report.spot_blocks.iter().enumerate() {
        let start = entry.num as usize * 1000;
        assert_eq!(random.block(i), &device.bytes[start..start + 1000]);
        assert_ne!(random.block(i), &before[start..start + 1000]);
    }
    // Bytes outside the sampled blocks are untouched.
    assert_eq!(&device.bytes[..4000], &before[..4000]);
}

#[test]
fn test_data_is_random() {
    let mut device = Simulated::perfect(64_000);
    let mut rng = SmallRng::seed_from_u64(11);
    let report = run(&mut device, &mut rng, &options(4000, 4)).unwrap();
    let (random, _) = report.random.as_ref().unwrap();
    assert!(random.data.iter().any(|byte| *byte != 0));
    assert_ne!(random.block(0), random.block(1));
}

#[test]
fn size_that_is_no_multiple_is_refused_before_any_transfer() {
    let mut device = Simulated::perfect(1_000_000);
    let mut rng = SmallRng::seed_from_u64(1);
    let outcome = run(&mut device, &mut rng, &options(4096, 16));
    match outcome {
        Err(RunError::Configuration(error)) => assert_eq!(
            error,
            ConfigurationError::SizeNotMultiple { device_size: 1_000_000, block_size: 4096 }
        ),
        other => panic!("unexpected outcome {:?}", other),
    }
    assert!(device.reads.is_empty());
    assert!(device.writes.is_empty());
}

#[test]
fn size_that_is_no_multiple_is_refused_in_every_mode() {
    for (read_only, no_restore_original) in [(true, false), (false, true), (true, true)] {
        let mut device = Simulated::perfect(1_000_000);
        let mut rng = SmallRng::seed_from_u64(1);
        let asked = Options { block_size: 4096, num_blocks: 4, read_only, no_restore_original };
        assert!(matches!(
            run(&mut device, &mut rng, &asked),
            Err(RunError::Configuration(ConfigurationError::SizeNotMultiple { .. }))
        ));
        assert!(device.reads.is_empty() && device.writes.is_empty());
    }
}

#[test]
fn too_many_slots_are_refused() {
    let mut device = Simulated::perfect(3 * 512);
    let mut rng = SmallRng::seed_from_u64(1);
    match run(&mut device, &mut rng, &options(512, 7)) {
        Err(RunError::Configuration(error)) => {
            assert_eq!(error, ConfigurationError::TooManySlots { device_blocks: 3, slots: 7 })
        }
        other => panic!("unexpected outcome {:?}", other),
    }
    assert!(device.reads.is_empty() && device.writes.is_empty());
}

#[test]
fn buffers_that_do_not_fit_are_refused() {
    let block_size = usize::MAX / 2 + 1;
    let mut device = Simulated::counterfeit(0, 0);
    device.size = block_size as u64;
    let mut rng = SmallRng::seed_from_u64(1);
    match run(&mut device, &mut rng, &options(block_size, 2)) {
        Err(RunError::BuffersTooLarge { mem_align }) => assert_eq!(mem_align, 0),
        other => panic!("unexpected outcome {:?}", other),
    }
    assert!(device.reads.is_empty() && device.writes.is_empty());
    assert!(!buffers_fit(2, block_size, 0));
    assert!(!buffers_fit(1, usize::MAX, 1));
    assert!(buffers_fit(1, usize::MAX, 0));
    assert!(buffers_fit(576, 4096, 4096));
    assert!(buffers_fit(0, usize::MAX, usize::MAX));
}

#[test]
fn counterfeit_device_loses_storage_past_boundary() {
    for seed in 0..8 {
        let mut device = Simulated::counterfeit(1_000_000, 500_000);
        let before = device.bytes.clone();
        let mut rng = SmallRng::seed_from_u64(seed);
        let report = run(&mut device, &mut rng, &options(4000, 10)).unwrap();
        let mut expected = vec![BlockReport::Validated; 5];
        expected.extend(vec![BlockReport::NoStorage; 5]);
        assert_eq!(report.validation_map, expected);
        assert_eq!(report.validated_drive_size, 500_000);
        assert_eq!(device.bytes, before);
    }
}

#[test]
fn counterfeit_boundary_inside_a_region_rounds_down_to_sampled_block() {
    let mut device = Simulated::counterfeit(1_000_000, 540_000);
    let mut rng = SmallRng::seed_from_u64(21);
    let report = run(&mut device, &mut rng, &options(4000, 10)).unwrap();
    assert_eq!(report.validated_drive_size, 500_000);
    assert_eq!(report.validation_map[4], BlockReport::Validated);
    assert_eq!(report.validation_map[5], BlockReport::NoStorage);
}

#[test]
fn failed_original_read_gives_run_up_without_writing() {
    let mut device = Simulated::perfect(1_000_000);
    let before = device.bytes.clone();
    // Slot 3 of 10 samples block 99.
    device.bad_reads = vec![99 * 4000 + 17];
    let mut rng = SmallRng::seed_from_u64(2);
    match run(&mut device, &mut rng, &options(4000, 10)) {
        Err(RunError::OriginalReadErrors(report)) => {
            let mut expected = vec![BlockReport::ReadSuccessful; 10];
            expected[3] = BlockReport::ReadError;
            assert_eq!(report.validation_map, expected);
            assert_eq!(report.validated_drive_size, 0);
            assert!(report.random.is_none() && report.read_back.is_none());
            assert!(report.restored.is_none());
            let (original, transfers) = report.original.as_ref().unwrap();
            assert_eq!(transfers.failures.len(), 1);
            assert_eq!(transfers.durations.len(), 9);
            let failure = &transfers.failures[0];
            assert_eq!(failure.idx, 3);
            assert_eq!(failure.offset, 99 * 4000);
            assert_eq!(report.spot_blocks[failure.position].idx, 3);
            assert_eq!(failure.message, "cannot read at 396000");
            assert_eq!(original.errors[failure.position], IoError::ReadError);
        }
        other => panic!("unexpected outcome {:?}", other),
    }
    assert_eq!(device.reads.len(), 10);
    assert!(device.writes.is_empty());
    assert_eq!(device.bytes, before);
}

#[test]
fn read_only_run_reports_reads_and_writes_nothing() {
    let mut device = Simulated::perfect(1_000_000);
    device.bad_reads = vec![0, 249 * 4000];
    let mut rng = SmallRng::seed_from_u64(2);
    let mut asked = options(4000, 10);
    asked.read_only = true;
    let report = run(&mut device, &mut rng, &asked).unwrap();
    let mut expected = vec![BlockReport::ReadSuccessful; 10];
    expected[9] = BlockReport::ReadError;
    assert_eq!(report.validation_map, expected);
    assert_eq!(report.validated_drive_size, 0);
    assert!(report.random.is_none());
    assert_eq!(device.reads.len(), 10);
    assert!(device.writes.is_empty());
}

#[test]
fn read_only_run_without_restore_goes_on_to_write() {
    let mut device = Simulated::perfect(40_000);
    device.bad_writes = (0..40).map(|block| block * 1000).collect();
    let mut rng = SmallRng::seed_from_u64(2);
    let asked = Options { block_size: 1000, num_blocks: 4, read_only: true, no_restore_original: true };
    let report = run(&mut device, &mut rng, &asked).unwrap();
    assert_eq!(report.validation_map, vec![BlockReport::WriteError; 4]);
    assert_eq!(report.validated_drive_size, 0);
    assert_eq!(device.writes.len(), 4);
    assert!(device.reads.is_empty());
}

#[test]
fn failed_write_is_a_write_error_and_is_not_read_back() {
    let mut device = Simulated::perfect(1_000_000);
    let before = device.bytes.clone();
    // Slot 1 of 10 samples block 49.
    device.bad_writes = vec![49 * 4000];
    let mut rng = SmallRng::seed_from_u64(9);
    let report = run(&mut device, &mut rng, &options(4000, 10)).unwrap();
    let mut expected = vec![BlockReport::Validated; 10];
    expected[1] = BlockReport::WriteError;
    assert_eq!(report.validation_map, expected);
    assert_eq!(report.validated_drive_size, 25 * 4000);
    let (random, written) = report.random.as_ref().unwrap();
    assert_eq!(written.failures.len(), 1);
    assert_eq!(written.failures[0].idx, 1);
    assert_eq!(written.failures[0].offset, 49 * 4000);
    assert_eq!(random.errors[written.failures[0].position], IoError::WriteError);
    // Ten original reads, nine reads back.
    assert_eq!(device.reads.len(), 19);
    assert_eq!(device.reads.iter().filter(|offset| **offset == 49 * 4000).count(), 1);
    // The restore tries every block again and fails at the same one.
    assert_eq!(device.writes.len(), 20);
    assert_eq!(report.restored.as_ref().unwrap().failures.len(), 1);
    assert_eq!(device.bytes, before);
}

#[test]
fn failed_read_back_is_a_read_error() {
    let mut device = Simulated::perfect(40_000);
    device.bad_reads = vec![19_999];
    let mut rng = SmallRng::seed_from_u64(4);
    let asked = Options { block_size: 1000, num_blocks: 4, read_only: false, no_restore_original: true };
    let report = run(&mut device, &mut rng, &asked).unwrap();
    let slot = slot_of_block(&report.spot_blocks, 19);
    assert_eq!(slot, 1);
    assert_eq!(
        report.validation_map,
        vec![BlockReport::Validated, BlockReport::ReadError, BlockReport::Validated, BlockReport::Validated]
    );
    assert_eq!(report.validated_drive_size, 10_000);
    let (_, read_back) = report.read_back.as_ref().unwrap();
    assert_eq!(read_back.failures.len(), 1);
    assert_eq!(read_back.durations.len(), 3);
}

#[test]
fn run_without_slots_does_nothing() {
    let mut device = Simulated::perfect(8000);
    let mut rng = SmallRng::seed_from_u64(4);
    let report = run(&mut device, &mut rng, &options(4000, 0)).unwrap();
    assert!(report.validation_map.is_empty());
    assert_eq!(report.validated_drive_size, 0);
    assert!(device.reads.is_empty() && device.writes.is_empty());
}

#[test]
fn repeated_blocks_are_not_all_validated() {
    // Four slots on three blocks: slots 1 and 2 sample the same block, and
    // only the one that is written last finds its data.
    let mut device = Simulated::perfect(3000);
    let before = device.bytes.clone();
    let mut rng = SmallRng::seed_from_u64(4);
    let report = run(&mut device, &mut rng, &options(1000, 4)).unwrap();
    let map = &report.validation_map;
    assert_eq!(map[0], BlockReport::Validated);
    assert_eq!(map[3], BlockReport::Validated);
    assert!(
        (map[1] == BlockReport::Validated && map[2] == BlockReport::NoStorage)
            || (map[1] == BlockReport::NoStorage && map[2] == BlockReport::Validated)
    );
    assert_eq!(device.bytes, before);
}

#[test]
fn read_blocks_reads_in_order_of_visit() {
    let mut device = Simulated::perfect(64);
    device.bad_reads = vec![40];
    let order = vec![
        BlockIdx { idx: 1, num: 5 },
        BlockIdx { idx: 0, num: 2 },
        BlockIdx { idx: 2, num: 7 },
    ];
    let (blocks, transfers) = read_blocks(&mut device, &order, 8, 16, None);
    assert_eq!(device.reads, vec![40, 16, 56]);
    assert_eq!(blocks.errors, vec![IoError::ReadError, IoError::NoError, IoError::NoError]);
    assert_eq!(blocks.block(1), &device.bytes[16..24]);
    assert_eq!(blocks.block(2), &device.bytes[56..64]);
    assert_eq!(transfers.durations.len(), 2);
    assert_eq!(transfers.failures.len(), 1);
    assert_eq!(transfers.failures[0].position, 0);
    assert_eq!(transfers.failures[0].idx, 1);
    assert_eq!(transfers.failures[0].offset, 40);
    assert_eq!(blocks.data.len(), 24 + 16);
}

#[test]
fn read_blocks_skips_failed_writes() {
    let mut device = Simulated::perfect(64);
    let order = vec![BlockIdx { idx: 0, num: 1 }, BlockIdx { idx: 1, num: 3 }];
    let mut written = Blocks::new(8, 2, 0);
    written.errors[0] = IoError::WriteError;
    let (blocks, transfers) = read_blocks(&mut device, &order, 8, 0, Some(&written));
    assert_eq!(device.reads, vec![24]);
    assert_eq!(blocks.errors, vec![IoError::NoError, IoError::NoError]);
    assert_eq!(blocks.block(0), &[0u8; 8]);
    assert_eq!(blocks.block(1), &device.bytes[24..32]);
    assert_eq!(transfers.durations.len(), 1);
}

#[test]
fn write_blocks_skips_read_errors_and_marks_failures() {
    let mut device = Simulated::perfect(64);
    device.bad_writes = vec![63];
    let order = vec![
        BlockIdx { idx: 2, num: 7 },
        BlockIdx { idx: 0, num: 0 },
        BlockIdx { idx: 1, num: 4 },
    ];
    let mut data = Blocks::new(8, 3, 8);
    for i in 0..3 {
        data.block_mut(i).copy_from_slice(&[0xa0 + i as u8; 8]);
    }
    data.errors[1] = IoError::ReadError;
    let kept = data.data.clone();
    let before = device.bytes.clone();
    let transfers = write_blocks(&mut device, &order, &mut data);
    assert_eq!(device.writes, vec![56, 32]);
    assert_eq!(data.errors, vec![IoError::WriteError, IoError::ReadError, IoError::NoError]);
    assert_eq!(data.data, kept);
    assert_eq!(&device.bytes[32..40], &[0xa2; 8]);
    assert_eq!(&device.bytes[..32], &before[..32]);
    assert_eq!(&device.bytes[40..], &before[40..]);
    assert_eq!(transfers.durations.len(), 1);
    assert_eq!(transfers.failures.len(), 1);
    assert_eq!(transfers.failures[0].position, 0);
    assert_eq!(transfers.failures[0].idx, 2);
    assert_eq!(transfers.failures[0].message, "cannot write at 56");
}

#[test]
fn device_info_of_simulated_device() {
    let mut device = Simulated::perfect(64);
    assert_eq!(device.get_device_info().unwrap().size, 64);
    assert_eq!(device.get_size(), 64);
    assert_eq!(device.get_memory_alignment(), 0);
}

#[test]
fn successful_transfer_is_timed_and_leaves_the_mark() {
    let mut transfers = Transfers { durations: vec![Duration::from_micros(1)], failures: vec![] };
    let mut mark = IoError::NoError;
    note_transfer(
        Ok(Duration::from_micros(7)),
        3,
        5,
        4096,
        IoError::WriteError,
        &mut mark,
        &mut transfers,
    );
    assert_eq!(mark, IoError::NoError);
    assert_eq!(transfers.durations, vec![Duration::from_micros(1), Duration::from_micros(7)]);
    assert!(transfers.failures.is_empty());
    let mut mark = IoError::WriteError;
    note_transfer(Ok(Duration::ZERO), 0, 0, 0, IoError::ReadError, &mut mark, &mut transfers);
    assert_eq!(mark, IoError::WriteError);
    assert_eq!(transfers.durations.len(), 3);
}

#[test]
fn failed_transfer_is_listed_and_marks_the_block() {
    let mut transfers = Transfers { durations: vec![Duration::from_micros(1)], failures: vec![] };
    let mut mark = IoError::NoError;
    note_transfer(
        Err(DeviceError { message: "no medium".to_string() }),
        3,
        5,
        4096,
        IoError::WriteError,
        &mut mark,
        &mut transfers,
    );
    assert_eq!(mark, IoError::WriteError);
    assert_eq!(transfers.durations, vec![Duration::from_micros(1)]);
    assert_eq!(transfers.failures.len(), 1);
    assert_eq!(transfers.failures[0].position, 3);
    assert_eq!(transfers.failures[0].idx, 5);
    assert_eq!(transfers.failures[0].offset, 4096);
    assert_eq!(transfers.failures[0].message, "no medium");
    let mut mark = IoError::NoError;
    note_transfer(
        Err(DeviceError { message: "timeout".to_string() }),
        4,
        0,
        8192,
        IoError::ReadError,
        &mut mark,
        &mut transfers,
    );
    assert_eq!(mark, IoError::ReadError);
    assert_eq!(transfers.failures.len(), 2);
    assert_eq!(transfers.failures[1].position, 4);
    assert_eq!(transfers.failures[1].message, "timeout");
}

#[test]
fn aligned_device_gets_aligned_buffers() {
    let mut device = Simulated::perfect(64_000);
    device.alignment = 4096;
    let mut rng = SmallRng::seed_from_u64(8);
    let report = run(&mut device, &mut rng, &options(4000, 4)).unwrap();
    for blocks in [&report.original.as_ref().unwrap().0, &report.random.as_ref().unwrap().0] {
        assert_eq!(blocks.data.len(), 4 * 4000 + 4096);
        assert_eq!(blocks.block(0).as_ptr() as usize % 4096, 0);
    }
    assert_eq!(report.read_back.as_ref().unwrap().0.data.len(), 4 * 4000 + 4096);
}

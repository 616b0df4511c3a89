use rand::rngs::SmallRng;
use rand::SeedableRng;
use spot_check::{run, BlockReport, Device, MemoryDevice, Options, RunError};

fn pattern(len: usize) -> Vec<u8> {
    (0..len).map(|i| (i * 13 + i / 256) as u8).collect()
}

#[test]
fn memory_device_reports_its_bytes() {
    let mut device = MemoryDevice::new(pattern(100));
    assert_eq!(device.get_size(), 100);
    assert_eq!(device.get_memory_alignment(), 0);
    assert_eq!(device.bytes(), &pattern(100));
    let info = device.get_device_info().unwrap();
    assert_eq!(info.size, 100);
    assert!(!info.is_block_device);
    assert!(info.vendor.is_empty());
}

#[test]
fn memory_device_reads_what_was_written() {
    let mut device = MemoryDevice::new(pattern(64));
    let mut data = [0u8; 8];
    device.read(16, &mut data).unwrap();
    assert_eq!(&data, &pattern(64)[16..24]);
    device.write(20, &[1, 2, 3]).unwrap();
    device.read(16, &mut data).unwrap();
    let mut expected = pattern(64)[16..24].to_vec();
    expected[4..7].copy_from_slice(&[1, 2, 3]);
    assert_eq!(&data[..], &expected[..]);
    device.read(56, &mut data).unwrap();
    device.write(64, &[]).unwrap();
    device.read(64, &mut []).unwrap();
}

#[test]
fn memory_device_refuses_transfers_beyond_its_end() {
    let mut device = MemoryDevice::new(pattern(64));
    let mut data = [9u8; 8];
    assert!(device.read(57, &mut data).is_err());
    assert_eq!(data, [9u8; 8]);
    assert!(device.read(u64::MAX, &mut data).is_err());
    assert!(device.write(57, &data).is_err());
    assert!(device.write(65, &[]).is_err());
    assert!(device.write(u64::MAX - 3, &data).is_err());
    assert_eq!(device.bytes(), &pattern(64));
    assert_eq!(
        device.read(60, &mut data).unwrap_err().message,
        "read beyond the end of the device"
    );
    assert_eq!(
        device.write(60, &data).unwrap_err().message,
        "write beyond the end of the device"
    );
}

#[test]
fn run_on_memory_device_validates_everything_and_restores() {
    let mut device = MemoryDevice::new(pattern(576 * 2 * 512));
    let mut rng = SmallRng::seed_from_u64(42);
    let options =
        Options { block_size: 512, num_blocks: 576, read_only: false, no_restore_original: false };
    let report = run(&mut device, &mut rng, &options).unwrap();
    assert_eq!(report.validation_map, vec![BlockReport::Validated; 576]);
    assert_eq!(report.validated_drive_size, 576 * 2 * 512);
    assert_eq!(device.bytes(), &pattern(576 * 2 * 512));
    let mut visited: Vec<usize> = report.spot_blocks.iter().map(|entry| entry.idx).collect();
    assert_ne!(visited, (0..576).collect::<Vec<usize>>());
    visited.sort();
    assert_eq!(visited, (0..576).collect::<Vec<usize>>());
}

#[test]
fn run_on_empty_memory_device() {
    let mut device = MemoryDevice::new(vec![]);
    let mut rng = SmallRng::seed_from_u64(42);
    let options =
        Options { block_size: 512, num_blocks: 0, read_only: false, no_restore_original: false };
    let report = run(&mut device, &mut rng, &options).unwrap();
    assert!(report.validation_map.is_empty());
    assert_eq!(report.validated_drive_size, 0);
    let options =
        Options { block_size: 512, num_blocks: 1, read_only: false, no_restore_original: false };
    assert!(matches!(run(&mut device, &mut rng, &options), Err(RunError::Configuration(_))));
}

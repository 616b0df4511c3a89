use spot_check::{alignment_offset, Blocks, IoError};

fn address(blocks: &Blocks) -> usize {
    blocks.data.as_ptr() as usize
}

#[test]
fn alignment_offset_reaches_next_multiple() {
    assert_eq!(alignment_offset(4096, 4096), 0);
    assert_eq!(alignment_offset(4097, 4096), 4095);
    assert_eq!(alignment_offset(8191, 4096), 1);
    assert_eq!(alignment_offset(0, 512), 0);
    assert_eq!(alignment_offset(1000, 512), 24);
    assert_eq!(alignment_offset(7, 3), 2);
}

#[test]
fn alignment_offset_without_alignment_is_zero() {
    assert_eq!(alignment_offset(0, 0), 0);
    assert_eq!(alignment_offset(12345, 0), 0);
    assert_eq!(alignment_offset(12345, 1), 0);
}

#[test]
fn alignment_offset_is_least() {
    for alignment in [1usize, 2, 8, 512, 4096, 1000] {
        for address in [0usize, 1, 511, 512, 513, 4095, 99_999, usize::MAX - 5000] {
            let offset = alignment_offset(address, alignment);
            assert!(offset < alignment);
            assert_eq!((address + offset) % alignment, 0);
            for smaller in 0..offset {
                assert_ne!((address + smaller) % alignment, 0);
            }
        }
    }
}

#[test]
fn new_buffer_is_zeroed_padded_and_aligned() {
    for alignment in [1usize, 2, 16, 512, 4096] {
        let blocks = Blocks::new(4096, 3, alignment);
        assert_eq!(blocks.data.len(), 3 * 4096 + alignment);
        assert!(blocks.data.iter().all(|byte| *byte == 0));
        assert_eq!(blocks.errors, vec![IoError::NoError; 3]);
        assert_eq!(blocks.block_size, 4096);
        assert_eq!(blocks.num_blocks, 3);
        assert!(blocks.start_offset < alignment);
        assert_eq!(blocks.base_address, address(&blocks));
        assert_eq!((address(&blocks) + blocks.start_offset) % alignment, 0);
        assert_eq!(blocks.block(0).as_ptr() as usize % alignment, 0);
    }
}

#[test]
fn new_buffer_without_alignment_starts_at_zero() {
    let blocks = Blocks::new(512, 4, 0);
    assert_eq!(blocks.data.len(), 2048);
    assert_eq!(blocks.start_offset, 0);
    assert_eq!(blocks.errors.len(), 4);
}

#[test]
fn new_buffer_without_blocks() {
    let blocks = Blocks::new(4096, 0, 512);
    assert_eq!(blocks.data.len(), 512);
    assert!(blocks.errors.is_empty());
    assert!(blocks.start_offset < 512);
    let blocks = Blocks::new(0, 5, 0);
    assert!(blocks.data.is_empty());
    assert_eq!(blocks.block(4), &[0u8; 0]);
}

#[test]
fn block_offsets_and_ranges() {
    let blocks = Blocks::new(100, 4, 64);
    let start = blocks.start_offset;
    assert_eq!(blocks.block_offset(0), start);
    assert_eq!(blocks.block_offset(3), start + 300);
    assert_eq!(blocks.block_offset(4), start + 400);
    assert_eq!(blocks.block_range(0), start..start + 100);
    assert_eq!(blocks.block_range(3), start + 300..start + 400);
    assert!(blocks.block_range(3).end <= blocks.data.len());
}

#[test]
fn block_mut_fills_one_block_only() {
    let mut blocks = Blocks::new(8, 3, 16);
    blocks.block_mut(1).copy_from_slice(&[1, 2, 3, 4, 5, 6, 7, 8]);
    assert_eq!(blocks.block(0), &[0u8; 8]);
    assert_eq!(blocks.block(1), &[1, 2, 3, 4, 5, 6, 7, 8]);
    assert_eq!(blocks.block(2), &[0u8; 8]);
    let start = blocks.start_offset;
    assert_eq!(&blocks.data[start + 8..start + 16], &[1, 2, 3, 4, 5, 6, 7, 8]);
    assert!(blocks.data[..start + 8].iter().all(|byte| *byte == 0));
    assert!(blocks.data[start + 16..].iter().all(|byte| *byte == 0));
    assert_eq!(blocks.block_mut(2).len(), 8);
}

#[test]
fn data_mut_is_the_whole_storage() {
    let mut blocks = Blocks::new(4, 2, 8);
    assert_eq!(blocks.data_mut().len(), 16);
    blocks.data_mut().fill(9);
    assert_eq!(blocks.data, vec![9u8; 16]);
    assert_eq!(blocks.block(0), &[9u8; 4]);
    assert_eq!(blocks.block(1), &[9u8; 4]);
    assert_eq!(blocks.errors, vec![IoError::NoError; 2]);
}

//! The outcome of every slot, and the capacity that the outcomes confirm.
use vstd::prelude::*;
use crate::buffer::{Blocks, IoError};
use crate::plan::{
    block_number, is_plan, is_visiting_order, lemma_block_number_never_falls, offsets_fit, visits,
    BlockIdx,
};

verus! {

/// What is known of the block that a slot samples.
#[derive(Clone, Copy, Debug, PartialEq, Eq, Structural)]
pub enum BlockReport {
    /// Nothing yet.
    Unknown,
    /// What was written came back unchanged.
    Validated,
    /// The block could not be read.
    ReadError,
    /// The original content was read.
    ReadSuccessful,
    /// The block could not be written.
    WriteError,
    /// The write succeeded and the read succeeded, but something else came
    /// back: no storage stands behind the block.
    NoStorage,
}

/// The state of a slot after its original content was asked for.
pub open spec fn original_report(read: IoError) -> BlockReport {
    if read == IoError::ReadError {
        BlockReport::ReadError
    } else {
        BlockReport::ReadSuccessful
    }
}

/// The state of a slot after the write of the test data.
pub open spec fn written_report(before: BlockReport, written: IoError) -> BlockReport {
    if written == IoError::WriteError {
        BlockReport::WriteError
    } else {
        before
    }
}

/// The final state of a slot. A failed write decides before a failed
/// read-back, and a failed read-back before the comparison.
pub open spec fn final_report(written: IoError, read_back: IoError, matches: bool) -> BlockReport {
    if written == IoError::WriteError {
        BlockReport::WriteError
    } else if read_back == IoError::ReadError {
        BlockReport::ReadError
    } else if matches {
        BlockReport::Validated
    } else {
        BlockReport::NoStorage
    }
}

/// A failed write dominates: the slot is a write error whatever the read-back
/// would have given.
pub proof fn lemma_write_failure_dominates(read_back: IoError, matches: bool)
    ensures
        final_report(IoError::WriteError, read_back, matches) == BlockReport::WriteError,
        final_report(IoError::WriteError, read_back, matches) != BlockReport::Validated,
        final_report(IoError::WriteError, read_back, matches) != BlockReport::NoStorage,
{
}

/// A slot is validated only where the write succeeded, the read-back
/// succeeded and the bytes match.
pub proof fn lemma_validated_needs_all(written: IoError, read_back: IoError, matches: bool)
    ensures
        final_report(written, read_back, matches) == BlockReport::Validated <==> written
            != IoError::WriteError && read_back != IoError::ReadError && matches,
        final_report(written, read_back, matches) != BlockReport::Unknown,
        final_report(written, read_back, matches) != BlockReport::ReadSuccessful,
{
}

/// Computes [`final_report`].
pub fn classify(written: IoError, read_back: IoError, matches: bool) -> (report: BlockReport)
    ensures
        report == final_report(written, read_back, matches),
{
    if written == IoError::WriteError {
        BlockReport::WriteError
    } else if read_back == IoError::ReadError {
        BlockReport::ReadError
    } else if matches {
        BlockReport::Validated
    } else {
        BlockReport::NoStorage
    }
}

/// Whether two blocks hold the same bytes.
pub fn same_bytes(left: &[u8], right: &[u8]) -> (same: bool)
    ensures
        same == (left@ == right@),
{
    if left.len() != right.len() {
        return false;
    }
    let mut k: usize = 0;
    while k < left.len()
        invariant
            k <= left@.len(),
            left@.len() == right@.len(),
            forall|j: int| 0 <= j < k ==> left@[j] == right@[j],
        decreases left@.len() - k,
    {
        if left[k] != right[k] {
            return false;
        }
        k += 1;
    }
    assert(left@ =~= right@);
    true
}

/// A validation map of `slots` slots of which nothing is known.
pub fn unknown_map(slots: usize) -> (validation_map: Vec<BlockReport>)
    ensures
        validation_map@.len() == slots,
        forall|slot: int| 0 <= slot < slots ==> validation_map@[slot] == BlockReport::Unknown,
{
    vec![BlockReport::Unknown; slots]
}

/// Whether some slot of `validation_map` is in state `report`.
pub fn contains_report(validation_map: &Vec<BlockReport>, report: BlockReport) -> (found: bool)
    ensures
        found == validation_map@.contains(report),
{
    let mut slot: usize = 0;
    while slot < validation_map.len()
        invariant
            slot <= validation_map@.len(),
            forall|j: int| 0 <= j < slot ==> validation_map@[j] != report,
        decreases validation_map@.len() - slot,
    {
        if validation_map[slot] == report {
            return true;
        }
        slot += 1;
    }
    false
}

/// Enters the outcome of reading the original content: for every entry of
/// the order of visit, the slot it belongs to becomes a read error where the
/// read failed, and successfully read where it did not.
pub fn record_original_reads(
    spot_blocks: &Vec<BlockIdx>,
    original: &Blocks,
    validation_map: &mut Vec<BlockReport>,
)
    requires
        is_visiting_order(spot_blocks@),
        original.errors@.len() == spot_blocks@.len(),
        old(validation_map)@.len() == spot_blocks@.len(),
    ensures
        final(validation_map)@.len() == spot_blocks@.len(),
        forall|i: int|
            0 <= i < spot_blocks@.len() ==> final(validation_map)@[(
            #[trigger] spot_blocks@[i]).idx as int] == original_report(original.errors@[i]),
{
    let mut i: usize = 0;
    while i < spot_blocks.len()
        invariant
            i <= spot_blocks@.len(),
            is_visiting_order(spot_blocks@),
            original.errors@.len() == spot_blocks@.len(),
            validation_map@.len() == spot_blocks@.len(),
            forall|k: int|
                0 <= k < i ==> validation_map@[(#[trigger] spot_blocks@[k]).idx as int]
                    == original_report(original.errors@[k]),
        decreases spot_blocks@.len() - i,
    {
        let slot = spot_blocks[i].idx;
        if original.errors[i] == IoError::ReadError {
            validation_map[slot] = BlockReport::ReadError;
        } else {
            validation_map[slot] = BlockReport::ReadSuccessful;
        }
        i += 1;
    }
}

/// Enters the outcome of writing the test data: the slot of every entry
/// whose write failed becomes a write error, and every other slot stays as
/// it is.
pub fn record_write_errors(
    spot_blocks: &Vec<BlockIdx>,
    written: &Blocks,
    validation_map: &mut Vec<BlockReport>,
)
    requires
        is_visiting_order(spot_blocks@),
        written.errors@.len() == spot_blocks@.len(),
        old(validation_map)@.len() == spot_blocks@.len(),
    ensures
        final(validation_map)@.len() == spot_blocks@.len(),
        forall|i: int|
            0 <= i < spot_blocks@.len() ==> final(validation_map)@[(
            #[trigger] spot_blocks@[i]).idx as int] == written_report(
                old(validation_map)@[spot_blocks@[i].idx as int],
                written.errors@[i],
            ),
{
    let mut i: usize = 0;
    while i < spot_blocks.len()
        invariant
            i <= spot_blocks@.len(),
            is_visiting_order(spot_blocks@),
            written.errors@.len() == spot_blocks@.len(),
            validation_map@.len() == spot_blocks@.len(),
            forall|k: int|
                0 <= k < i ==> validation_map@[(#[trigger] spot_blocks@[k]).idx as int]
                    == written_report(
                    old(validation_map)@[spot_blocks@[k].idx as int],
                    written.errors@[k],
                ),
            forall|k: int|
                i <= k < spot_blocks@.len() ==> validation_map@[(
                #[trigger] spot_blocks@[k]).idx as int] == old(
                    validation_map,
                )@[spot_blocks@[k].idx as int],
        decreases spot_blocks@.len() - i,
    {
        if written.errors[i] == IoError::WriteError {
            let slot = spot_blocks[i].idx;
            validation_map[slot] = BlockReport::WriteError;
        }
        i += 1;
    }
}

/// Enters the final outcome of every slot: what [`final_report`] makes of
/// the write, the read-back and the comparison of what was read with what
/// was written.
pub fn fill_validation_map(
    spot_blocks: &Vec<BlockIdx>,
    written: &Blocks,
    read_back: &Blocks,
    validation_map: &mut Vec<BlockReport>,
)
    requires
        is_visiting_order(spot_blocks@),
        written.wf(),
        read_back.wf(),
        written.num_blocks == spot_blocks@.len(),
        read_back.num_blocks == spot_blocks@.len(),
        old(validation_map)@.len() == spot_blocks@.len(),
    ensures
        final(validation_map)@.len() == spot_blocks@.len(),
        forall|i: int|
            0 <= i < spot_blocks@.len() ==> final(validation_map)@[(
            #[trigger] spot_blocks@[i]).idx as int] == final_report(
                written.errors@[i],
                read_back.errors@[i],
                read_back.block_view(i) == written.block_view(i),
            ),
{
    let mut i: usize = 0;
    while i < spot_blocks.len()
        invariant
            i <= spot_blocks@.len(),
            is_visiting_order(spot_blocks@),
            written.wf(),
            read_back.wf(),
            written.num_blocks == spot_blocks@.len(),
            read_back.num_blocks == spot_blocks@.len(),
            validation_map@.len() == spot_blocks@.len(),
            forall|k: int|
                0 <= k < i ==> validation_map@[(#[trigger] spot_blocks@[k]).idx as int]
                    == final_report(
                    written.errors@[k],
                    read_back.errors@[k],
                    read_back.block_view(k) == written.block_view(k),
                ),
        decreases spot_blocks@.len() - i,
    {
        let slot = spot_blocks[i].idx;
        let matches = same_bytes(read_back.block(i), written.block(i));
        validation_map[slot] = classify(written.errors[i], read_back.errors[i], matches);
        i += 1;
    }
}

/// `prefix` is the length of the longest run of validated slots that starts
/// at slot 0.
pub open spec fn is_validated_prefix(validation_map: Seq<BlockReport>, prefix: int) -> bool {
    &&& 0 <= prefix <= validation_map.len()
    &&& forall|slot: int| 0 <= slot < prefix ==> validation_map[slot] == BlockReport::Validated
    &&& prefix < validation_map.len() ==> validation_map[prefix] != BlockReport::Validated
}

/// The length of the longest run of validated slots that starts at slot 0.
pub fn validated_prefix(validation_map: &Vec<BlockReport>) -> (prefix: usize)
    ensures
        is_validated_prefix(validation_map@, prefix as int),
{
    let mut prefix: usize = 0;
    while prefix < validation_map.len() && validation_map[prefix] == BlockReport::Validated
        invariant
            prefix <= validation_map@.len(),
            forall|slot: int|
                0 <= slot < prefix ==> validation_map@[slot] == BlockReport::Validated,
        decreases validation_map@.len() - prefix,
    {
        prefix += 1;
    }
    prefix
}

/// `highest` is the highest block number among the entries of `order` whose
/// slot lies below `prefix`.
pub open spec fn is_highest_block(order: Seq<BlockIdx>, prefix: int, highest: int) -> bool {
    &&& exists|i: int|
        0 <= i < order.len() && (#[trigger] order[i]).idx < prefix && order[i].num == highest
    &&& forall|i: int|
        0 <= i < order.len() && (#[trigger] order[i]).idx < prefix ==> order[i].num <= highest
}

/// `size` is the capacity that `validation_map` confirms: nothing where slot
/// 0 is not validated, and else the end of the highest block among the slots
/// of the validated prefix.
pub open spec fn is_validated_size(
    validation_map: Seq<BlockReport>,
    order: Seq<BlockIdx>,
    block_size: int,
    size: int,
) -> bool {
    exists|prefix: int| #[trigger]
        is_validated_prefix(validation_map, prefix) && if forall|i: int|
            0 <= i < order.len() ==> (#[trigger] order[i]).idx >= prefix {
            size == 0
        } else {
            exists|highest: int| #[trigger]
                is_highest_block(order, prefix, highest) && size == (highest + 1) * block_size
        }
}

/// For a plan, the validated size is the end of the block that the last slot
/// of the validated prefix samples.
pub proof fn lemma_validated_size_of_plan(
    validation_map: Seq<BlockReport>,
    order: Seq<BlockIdx>,
    blocks: int,
    block_size: int,
    prefix: int,
    size: int,
)
    requires
        0 <= blocks,
        is_plan(order, blocks, validation_map.len() as int),
        is_validated_prefix(validation_map, prefix),
        is_validated_size(validation_map, order, block_size, size),
    ensures
        prefix == 0 ==> size == 0,
        prefix > 0 ==> size == (block_number(prefix - 1, blocks, validation_map.len() as int) + 1)
            * block_size,
{
    let slots = validation_map.len() as int;
    let chosen = choose|chosen: int| #[trigger]
        is_validated_prefix(validation_map, chosen) && if forall|i: int|
            0 <= i < order.len() ==> (#[trigger] order[i]).idx >= chosen {
            size == 0
        } else {
            exists|highest: int| #[trigger]
                is_highest_block(order, chosen, highest) && size == (highest + 1) * block_size
        };
    assert(chosen == prefix) by {
        if chosen < prefix {
            assert(validation_map[chosen] == BlockReport::Validated);
        } else if prefix < chosen {
            assert(validation_map[prefix] == BlockReport::Validated);
        }
    }
    if prefix > 0 {
        assert(visits(order, prefix - 1));
        let last = choose|i: int| 0 <= i < order.len() && (#[trigger] order[i]).idx == prefix - 1;
        assert(order[last].idx < prefix);
        let highest = choose|highest: int| #[trigger]
            is_highest_block(order, prefix, highest) && size == (highest + 1) * block_size;
        let top = choose|i: int|
            0 <= i < order.len() && (#[trigger] order[i]).idx < prefix && order[i].num == highest;
        lemma_block_number_never_falls(order[top].idx as int, prefix - 1, blocks, slots);
        assert(order[last].num <= highest);
        assert(order[top].num == block_number(order[top].idx as int, blocks, slots));
        assert(order[last].num == block_number(prefix - 1, blocks, slots));
    }
}

/// The capacity that the validation map confirms, in bytes.
pub fn validated_drive_size(
    validation_map: &Vec<BlockReport>,
    spot_blocks: &Vec<BlockIdx>,
    block_size: u64,
) -> (size: u64)
    requires
        offsets_fit(spot_blocks@, block_size as int),
    ensures
        is_validated_size(validation_map@, spot_blocks@, block_size as int, size as int),
{
    let prefix = validated_prefix(validation_map);
    let mut found = false;
    let mut highest: u64 = 0;
    let mut i: usize = 0;
    while i < spot_blocks.len()
        invariant
            i <= spot_blocks@.len(),
            offsets_fit(spot_blocks@, block_size as int),
            !found ==> forall|k: int| 0 <= k < i ==> (#[trigger] spot_blocks@[k]).idx >= prefix,
            found ==> is_highest_block(spot_blocks@.take(i as int), prefix as int, highest as int),
        decreases spot_blocks@.len() - i,
    {
        let entry = spot_blocks[i];
        proof {
            let shorter = spot_blocks@.take(i as int);
            let longer = spot_blocks@.take(i + 1);
            assert(longer[i as int] == entry);
            assert forall|k: int| 0 <= k < i implies longer[k] == shorter[k] by {}
            if found {
                let w = choose|w: int|
                    0 <= w < shorter.len() && (#[trigger] shorter[w]).idx < prefix && shorter[w].num
                        == highest;
                assert(longer[w].idx < prefix && longer[w].num == highest);
            }
        }
        if entry.idx < prefix {
            if !found || entry.num > highest {
                highest = entry.num;
            }
            found = true;
        }
        i += 1;
    }
    proof {
        assert(spot_blocks@.take(spot_blocks@.len() as int) =~= spot_blocks@);
        assert(is_validated_prefix(validation_map@, prefix as int));
    }
    if found {
        proof {
            let w = choose|w: int|
                0 <= w < spot_blocks@.len() && (#[trigger] spot_blocks@[w]).idx < prefix
                    && spot_blocks@[w].num == highest;
            assert(spot_blocks@[w].num < u64::MAX && (spot_blocks@[w].num + 1) * block_size
                <= u64::MAX);
            assert(is_highest_block(spot_blocks@, prefix as int, highest as int));
        }
        (highest + 1) * block_size
    } else {
        0
    }
}

} // verus!

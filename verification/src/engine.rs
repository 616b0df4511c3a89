//! The transfers of one phase of the protocol: reading or writing every
//! block of the plan, in the order of visit.
use vstd::prelude::*;
use std::time::Duration;
use crate::buffer::{Blocks, IoError};
use crate::device::{stored, Access, Device, DeviceError};
use crate::plan::{offsets_fit, BlockIdx};

verus! {

/// A transfer that failed.
#[derive(Debug)]
pub struct Failure {
    /// Position of the block in the order of visit.
    pub position: usize,
    /// Slot of the block.
    pub idx: usize,
    /// Offset of the block on the device, in bytes.
    pub offset: u64,
    /// What the device said.
    pub message: String,
}

/// What the transfers of one phase took and which of them failed.
#[derive(Debug)]
pub struct Transfers {
    /// The time that each successful transfer took, in the order of visit.
    pub durations: Vec<Duration>,
    /// The failed transfers, in the order of visit.
    pub failures: Vec<Failure>,
}

/// The transfer at `position` is among `failures`.
pub open spec fn failed_at(failures: Seq<Failure>, position: int) -> bool {
    exists|k: int| 0 <= k < failures.len() && (#[trigger] failures[k]).position == position
}

/// Every failure names a block of `order` by its position, slot and offset,
/// and the failures are in the order of visit.
pub open spec fn failures_name_blocks(
    failures: Seq<Failure>,
    order: Seq<BlockIdx>,
    block_size: int,
) -> bool {
    &&& forall|k: int|
        0 <= k < failures.len() ==> {
            let failure = #[trigger] failures[k];
            &&& failure.position < order.len()
            &&& failure.idx == order[failure.position as int].idx
            &&& failure.offset == order[failure.position as int].num * block_size
        }
    &&& forall|j: int, k: int|
        0 <= j < k < failures.len() ==> (#[trigger] failures[j]).position < (
        #[trigger] failures[k]).position
}

/// The block at position `i` of `order` lies inside a device of
/// `device_size` bytes.
pub open spec fn block_in_device(
    order: Seq<BlockIdx>,
    i: int,
    block_size: int,
    device_size: int,
) -> bool {
    (order[i].num + 1) * block_size <= device_size
}

/// Every block of `order` lies inside a device of `device_size` bytes.
pub open spec fn blocks_in_device(order: Seq<BlockIdx>, block_size: int, device_size: int) -> bool {
    forall|i: int|
        0 <= i < order.len() ==> #[trigger] block_in_device(order, i, block_size, device_size)
}

/// The bytes of the block at position `i` of `order` in `contents`.
pub open spec fn device_block(
    contents: Seq<u8>,
    order: Seq<BlockIdx>,
    i: int,
    block_size: int,
) -> Seq<u8> {
    contents.subrange(order[i].num * block_size, order[i].num * block_size + block_size)
}

/// The positions below `upto` that a phase does not skip: they have no mark
/// `skip` in `marks`.
pub open spec fn attempts(marks: Seq<IoError>, skip: IoError, upto: int) -> nat
    decreases upto,
{
    if upto <= 0 {
        0
    } else if marks[upto - 1] == skip {
        attempts(marks, skip, upto - 1)
    } else {
        attempts(marks, skip, upto - 1) + 1
    }
}

/// No marks: every block takes part.
pub open spec fn no_marks(len: nat) -> Seq<IoError> {
    Seq::new(len, |i: int| IoError::NoError)
}

/// The reads that a phase asks for at the positions below `upto`: one of
/// `block_size` bytes for every block of `order`, in the order of visit, but
/// for the positions that `marks` marks as write errors. The device failed
/// the reads that `failures` lists, and no others.
pub open spec fn read_trace(
    order: Seq<BlockIdx>,
    block_size: nat,
    marks: Seq<IoError>,
    failures: Seq<Failure>,
    upto: int,
) -> Seq<Access>
    decreases upto,
{
    if upto <= 0 {
        Seq::empty()
    } else if marks[upto - 1] == IoError::WriteError {
        read_trace(order, block_size, marks, failures, upto - 1)
    } else {
        read_trace(order, block_size, marks, failures, upto - 1).push(
            Access::Read {
                offset: (order[upto - 1].num * block_size) as u64,
                len: block_size,
                failed: failed_at(failures, upto - 1),
            },
        )
    }
}

/// The writes that a phase asks for at the positions below `upto`: one for
/// every block of `order`, in the order of visit, of the bytes that `data`
/// holds for it, but for the positions that `data` marks as read errors. The
/// device failed the writes that `failures` lists, and no others.
pub open spec fn write_trace(
    order: Seq<BlockIdx>,
    data: Blocks,
    failures: Seq<Failure>,
    upto: int,
) -> Seq<Access>
    decreases upto,
{
    if upto <= 0 {
        Seq::empty()
    } else if data.errors@[upto - 1] == IoError::ReadError {
        write_trace(order, data, failures, upto - 1)
    } else {
        write_trace(order, data, failures, upto - 1).push(
            Access::Write {
                offset: (order[upto - 1].num * data.block_size) as u64,
                data: data.block_view(upto - 1),
                failed: failed_at(failures, upto - 1),
            },
        )
    }
}

/// The reads depend on the failures at their own positions only.
pub proof fn lemma_read_trace_same(
    order: Seq<BlockIdx>,
    block_size: nat,
    marks: Seq<IoError>,
    left: Seq<Failure>,
    right: Seq<Failure>,
    upto: int,
)
    requires
        forall|i: int| 0 <= i < upto ==> failed_at(left, i) == failed_at(right, i),
    ensures
        read_trace(order, block_size, marks, left, upto) == read_trace(
            order,
            block_size,
            marks,
            right,
            upto,
        ),
    decreases upto,
{
    if upto > 0 {
        lemma_read_trace_same(order, block_size, marks, left, right, upto - 1);
    }
}

/// The writes depend on the bytes of the blocks, on which of them are marked
/// as read errors and on the failures at their own positions, and on nothing
/// else.
pub proof fn lemma_write_trace_same(
    order: Seq<BlockIdx>,
    left: Blocks,
    right: Blocks,
    failed_left: Seq<Failure>,
    failed_right: Seq<Failure>,
    upto: int,
)
    requires
        left.block_size == right.block_size,
        left.start_offset == right.start_offset,
        left.data@ == right.data@,
        forall|i: int|
            0 <= i < upto ==> (left.errors@[i] == IoError::ReadError) == (right.errors@[i]
                == IoError::ReadError),
        forall|i: int| 0 <= i < upto ==> failed_at(failed_left, i) == failed_at(failed_right, i),
    ensures
        write_trace(order, left, failed_left, upto) == write_trace(
            order,
            right,
            failed_right,
            upto,
        ),
    decreases upto,
{
    if upto > 0 {
        lemma_write_trace_same(order, left, right, failed_left, failed_right, upto - 1);
        assert(left.block_view(upto - 1) == right.block_view(upto - 1));
    }
}

/// What a device holds after the blocks of `data` at the positions below
/// `upto` have been stored at their places, one after the other, but for the
/// positions that `data` marks as read errors.
pub open spec fn contents_after_writes(
    contents: Seq<u8>,
    order: Seq<BlockIdx>,
    data: Blocks,
    upto: int,
) -> Seq<u8>
    decreases upto,
{
    if upto <= 0 {
        contents
    } else if data.errors@[upto - 1] == IoError::ReadError {
        contents_after_writes(contents, order, data, upto - 1)
    } else {
        stored(
            contents_after_writes(contents, order, data, upto - 1),
            order[upto - 1].num * data.block_size,
            data.block_view(upto - 1),
        )
    }
}

/// What the device holds after the writes depends on the bytes of the blocks
/// and on which of them are marked as read errors, and on nothing else.
pub proof fn lemma_contents_after_writes_same(
    contents: Seq<u8>,
    order: Seq<BlockIdx>,
    left: Blocks,
    right: Blocks,
    upto: int,
)
    requires
        left.block_size == right.block_size,
        left.start_offset == right.start_offset,
        left.data@ == right.data@,
        forall|i: int|
            0 <= i < upto ==> (left.errors@[i] == IoError::ReadError) == (right.errors@[i]
                == IoError::ReadError),
    ensures
        contents_after_writes(contents, order, left, upto) == contents_after_writes(
            contents,
            order,
            right,
            upto,
        ),
    decreases upto,
{
    if upto > 0 {
        lemma_contents_after_writes_same(contents, order, left, right, upto - 1);
        assert(left.block_view(upto - 1) == right.block_view(upto - 1));
    }
}

/// Writing blocks changes no length.
pub proof fn lemma_contents_after_writes_len(
    contents: Seq<u8>,
    order: Seq<BlockIdx>,
    data: Blocks,
    upto: int,
)
    ensures
        contents_after_writes(contents, order, data, upto).len() == contents.len(),
    decreases upto,
{
    if upto > 0 {
        lemma_contents_after_writes_len(contents, order, data, upto - 1);
    }
}

/// Byte `x` of the device belongs to the block at position `i` of `order`.
pub open spec fn covers(order: Seq<BlockIdx>, i: int, block_size: int, x: int) -> bool {
    order[i].num * block_size <= x < order[i].num * block_size + block_size
}

/// No two positions of `order` sample the same block.
pub open spec fn distinct_blocks(order: Seq<BlockIdx>) -> bool {
    forall|i: int, j: int|
        0 <= i < j < order.len() ==> (#[trigger] order[i]).num != (#[trigger] order[j]).num
}

/// Different blocks share no byte.
pub proof fn lemma_blocks_disjoint(order: Seq<BlockIdx>, i: int, j: int, block_size: int, x: int)
    requires
        0 <= i < order.len(),
        0 <= j < order.len(),
        order[i].num != order[j].num,
        covers(order, i, block_size, x),
    ensures
        !covers(order, j, block_size, x),
{
    let a = order[i].num as int;
    let b = order[j].num as int;
    if covers(order, j, block_size, x) {
        assert(0 < block_size);
        if a < b {
            assert(a * block_size + block_size <= b * block_size) by (nonlinear_arith)
                requires
                    a + 1 <= b,
                    0 < block_size,
            ;
        } else {
            assert(b * block_size + block_size <= a * block_size) by (nonlinear_arith)
                requires
                    b + 1 <= a,
                    0 < block_size,
            ;
        }
    }
}

/// After the blocks of `data` have been written to distinct places, every
/// byte of a written block is the byte of `data` that was put there, and
/// every byte outside the written blocks is what it was.
pub proof fn lemma_contents_after_writes(
    contents: Seq<u8>,
    order: Seq<BlockIdx>,
    data: Blocks,
    upto: int,
    x: int,
)
    requires
        data.wf(),
        data.num_blocks == order.len(),
        0 <= upto <= order.len(),
        distinct_blocks(order),
        blocks_in_device(order, data.block_size as int, contents.len() as int),
        forall|i: int| 0 <= i < upto ==> data.errors@[i] != IoError::ReadError,
        0 <= x < contents.len(),
    ensures
        forall|i: int|
            0 <= i < upto && #[trigger] covers(order, i, data.block_size as int, x)
                ==> contents_after_writes(contents, order, data, upto)[x] == data.block_view(i)[x
                - order[i].num * data.block_size],
        (forall|i: int| 0 <= i < upto ==> !#[trigger] covers(order, i, data.block_size as int, x))
            ==> contents_after_writes(contents, order, data, upto)[x] == contents[x],
    decreases upto,
{
    if upto > 0 {
        let block_size = data.block_size as int;
        let last = upto - 1;
        let earlier = contents_after_writes(contents, order, data, last);
        lemma_contents_after_writes(contents, order, data, last, x);
        lemma_contents_after_writes_len(contents, order, data, last);
        data.lemma_block_bounds(last);
        assert(block_in_device(order, last, block_size, contents.len() as int));
        assert((order[last].num + 1) * block_size == order[last].num * block_size + block_size)
            by (nonlinear_arith);
        assert forall|i: int| 0 <= i < upto && #[trigger] covers(order, i, block_size, x) implies
            contents_after_writes(contents, order, data, upto)[x] == data.block_view(i)[x
            - order[i].num * data.block_size] by {
            if i != last {
                assert(order[i].num != order[last].num);
                lemma_blocks_disjoint(order, i, last, block_size, x);
            }
        }
        if forall|i: int| 0 <= i < upto ==> !#[trigger] covers(order, i, block_size, x) {
            assert(!covers(order, last, block_size, x));
        }
    }
}

/// After the blocks of `data` have been written to distinct places inside
/// the device, each of them is found at its place.
pub proof fn lemma_written_blocks_are_stored(contents: Seq<u8>, order: Seq<BlockIdx>, data: Blocks)
    requires
        data.wf(),
        data.num_blocks == order.len(),
        distinct_blocks(order),
        blocks_in_device(order, data.block_size as int, contents.len() as int),
        forall|i: int| 0 <= i < order.len() ==> data.errors@[i] != IoError::ReadError,
    ensures
        forall|i: int|
            0 <= i < order.len() ==> #[trigger] device_block(
                contents_after_writes(contents, order, data, order.len() as int),
                order,
                i,
                data.block_size as int,
            ) == data.block_view(i),
{
    let block_size = data.block_size as int;
    let after = contents_after_writes(contents, order, data, order.len() as int);
    lemma_contents_after_writes_len(contents, order, data, order.len() as int);
    assert forall|i: int| 0 <= i < order.len() implies #[trigger] device_block(
        after,
        order,
        i,
        block_size,
    ) == data.block_view(i) by {
        data.lemma_block_bounds(i);
        assert(block_in_device(order, i, block_size, contents.len() as int));
        let start = order[i].num * block_size;
        assert((order[i].num + 1) * block_size == start + block_size) by (nonlinear_arith)
            requires
                start == order[i].num * block_size,
        ;
        assert(0 <= start) by (nonlinear_arith)
            requires
                start == order[i].num * block_size,
                0 <= block_size,
        ;
        assert forall|k: int| 0 <= k < block_size implies device_block(
            after,
            order,
            i,
            block_size,
        )[k] == data.block_view(i)[k] by {
            lemma_contents_after_writes(contents, order, data, order.len() as int, start + k);
            assert(covers(order, i, block_size, start + k));
        }
        assert(device_block(after, order, i, block_size) =~= data.block_view(i));
    }
}

/// Writing back what was read from distinct places restores the device: if
/// `original` holds the blocks that `contents` had at those places, and
/// `changed` differs from `contents` in those blocks at most, then writing
/// `original` over `changed` gives `contents` again.
pub proof fn lemma_restore_gives_original(
    contents: Seq<u8>,
    changed: Seq<u8>,
    order: Seq<BlockIdx>,
    original: Blocks,
)
    requires
        original.wf(),
        original.num_blocks == order.len(),
        distinct_blocks(order),
        blocks_in_device(order, original.block_size as int, contents.len() as int),
        forall|i: int| 0 <= i < order.len() ==> original.errors@[i] != IoError::ReadError,
        forall|i: int|
            0 <= i < order.len() ==> #[trigger] original.block_view(i) == device_block(
                contents,
                order,
                i,
                original.block_size as int,
            ),
        changed.len() == contents.len(),
        forall|x: int|
            0 <= x < contents.len() && (forall|i: int|
                0 <= i < order.len() ==> !#[trigger] covers(
                    order,
                    i,
                    original.block_size as int,
                    x,
                )) ==> changed[x] == contents[x],
    ensures
        contents_after_writes(changed, order, original, order.len() as int) == contents,
{
    let block_size = original.block_size as int;
    let restored = contents_after_writes(changed, order, original, order.len() as int);
    lemma_contents_after_writes_len(changed, order, original, order.len() as int);
    assert forall|x: int| 0 <= x < contents.len() implies restored[x] == contents[x] by {
        lemma_contents_after_writes(changed, order, original, order.len() as int, x);
        if exists|i: int| 0 <= i < order.len() && #[trigger] covers(order, i, block_size, x) {
            let i = choose|i: int|
                0 <= i < order.len() && #[trigger] covers(order, i, block_size, x);
            assert(block_in_device(order, i, block_size, contents.len() as int));
            assert((order[i].num + 1) * block_size == order[i].num * block_size + block_size)
                by (nonlinear_arith);
            assert(original.block_view(i) == device_block(contents, order, i, block_size));
            assert(device_block(contents, order, i, block_size)[x - order[i].num * block_size]
                == contents[x]);
        }
    }
    assert(restored =~= contents);
}

/// The offset in bytes of the block at position `i`.
fn block_offset_on_device(spot_blocks: &Vec<BlockIdx>, i: usize, block_size: usize) -> (offset:
    u64)
    requires
        i < spot_blocks@.len(),
        offsets_fit(spot_blocks@, block_size as int),
    ensures
        offset == spot_blocks@[i as int].num * block_size,
        offset + block_size <= u64::MAX,
        forall|device_size: int|
            #[trigger] block_in_device(spot_blocks@, i as int, block_size as int, device_size)
                ==> offset + block_size <= device_size,
{
    let num = spot_blocks[i].num;
    proof {
        assert(spot_blocks@[i as int].num < u64::MAX && (spot_blocks@[i as int].num + 1)
            * block_size <= u64::MAX);
        assert((num + 1) * block_size == num * block_size + block_size) by (nonlinear_arith);
        assert(0 <= num * block_size) by (nonlinear_arith);
    }
    num * (block_size as u64)
}

/// The failures before and after a transfer at position `i` agree on every
/// earlier position.
proof fn lemma_failed_at_earlier(before: Seq<Failure>, after: Seq<Failure>, i: int)
    requires
        after == before || (after.len() == before.len() + 1 && after.drop_last() == before
            && after.last().position == i),
        forall|k: int| 0 <= k < before.len() ==> (#[trigger] before[k]).position < i,
    ensures
        forall|p: int| 0 <= p < i ==> failed_at(after, p) == failed_at(before, p),
        failed_at(after, i) == (after != before),
        forall|k: int| 0 <= k < after.len() ==> (#[trigger] after[k]).position < i + 1,
{
    if after != before {
        assert(after.last() == after[after.len() - 1]);
        assert forall|k: int| 0 <= k < before.len() implies after[k] == before[k] by {
            assert(after.drop_last()[k] == after[k]);
        }
    }
    assert forall|p: int| 0 <= p < i implies failed_at(after, p) == failed_at(before, p) by {
        if failed_at(after, p) {
            let k = choose|k: int| 0 <= k < after.len() && (#[trigger] after[k]).position == p;
            assert(before[k].position == p);
        }
        if failed_at(before, p) {
            let k = choose|k: int| 0 <= k < before.len() && (#[trigger] before[k]).position == p;
            assert(after[k].position == p);
        }
    }
    if failed_at(after, i) {
        let k = choose|k: int| 0 <= k < after.len() && (#[trigger] after[k]).position == i;
        if after == before {
            assert(before[k].position < i);
        }
    }
}

/// A failure that is listed for the block at position `i`, behind failures
/// at earlier positions, keeps the list in the order of visit.
proof fn lemma_failure_listed(
    before: Seq<Failure>,
    after: Seq<Failure>,
    order: Seq<BlockIdx>,
    block_size: int,
    i: int,
)
    requires
        0 <= i < order.len(),
        failures_name_blocks(before, order, block_size),
        forall|k: int| 0 <= k < before.len() ==> (#[trigger] before[k]).position < i,
        after == before || {
            &&& after.len() == before.len() + 1
            &&& after.drop_last() == before
            &&& after.last().position == i
            &&& after.last().idx == order[i].idx
            &&& after.last().offset == order[i].num * block_size
        },
    ensures
        failures_name_blocks(after, order, block_size),
{
    if after != before {
        assert forall|k: int| 0 <= k < before.len() implies after[k] == before[k] by {
            assert(after.drop_last()[k] == after[k]);
        }
        assert(after.last() == after[after.len() - 1]);
    }
}

/// Takes the answer of the device to the transfer of one block. The time of
/// a transfer that succeeded is added to the durations, and nothing else
/// changes. A transfer that failed is added to the failures, with the
/// position, the slot and the offset of its block and with what the device
/// said, and the block gets the mark `failed`.
pub fn note_transfer(
    result: Result<Duration, DeviceError>,
    position: usize,
    idx: usize,
    offset: u64,
    failed: IoError,
    mark: &mut IoError,
    transfers: &mut Transfers,
)
    ensures
        match result {
            Ok(duration) => {
                &&& final(transfers).durations@ == old(transfers).durations@.push(duration)
                &&& final(transfers).failures@ == old(transfers).failures@
                &&& *final(mark) == *old(mark)
            },
            Err(error) => {
                &&& final(transfers).durations@ == old(transfers).durations@
                &&& final(transfers).failures@.len() == old(transfers).failures@.len() + 1
                &&& final(transfers).failures@.drop_last() == old(transfers).failures@
                &&& final(transfers).failures@.last().position == position
                &&& final(transfers).failures@.last().idx == idx
                &&& final(transfers).failures@.last().offset == offset
                &&& final(transfers).failures@.last().message@ == error.message@
                &&& *final(mark) == failed
            },
        },
{
    match result {
        Ok(duration) => {
            transfers.durations.push(duration);
        },
        Err(error) => {
            let ghost listed = transfers.failures@;
            transfers.failures.push(Failure { position, idx, offset, message: error.message });
            *mark = failed;
            proof {
                assert(transfers.failures@.drop_last() =~= listed);
            }
        },
    }
}

/// Reads the blocks of `spot_blocks` from `drive`, in that order, into a
/// fresh buffer aligned to `mem_align`. Where `written` is given, the blocks
/// that it marks as write errors are not read. A read that fails marks its
/// block as a read error and is listed; the others go on.
pub fn read_blocks<D: Device>(
    drive: &mut D,
    spot_blocks: &Vec<BlockIdx>,
    block_size: usize,
    mem_align: usize,
    written: Option<&Blocks>,
) -> (read: (Blocks, Transfers))
    requires
        spot_blocks@.len() * block_size + mem_align <= usize::MAX,
        offsets_fit(spot_blocks@, block_size as int),
        written matches Some(blocks) ==> blocks.errors@.len() == spot_blocks@.len(),
    ensures
        read.0.wf(),
        read.0.block_size == block_size,
        read.0.num_blocks == spot_blocks@.len(),
        read.0.padding() == mem_align,
        failures_name_blocks(read.1.failures@, spot_blocks@, block_size as int),
        read.1.durations@.len() + read.1.failures@.len() == attempts(
            read_marks(written, spot_blocks@.len()),
            IoError::WriteError,
            spot_blocks@.len() as int,
        ),
        forall|i: int|
            0 <= i < spot_blocks@.len() ==> #[trigger] read.0.errors@[i] == if failed_at(
                read.1.failures@,
                i,
            ) {
                IoError::ReadError
            } else {
                IoError::NoError
            },
        forall|i: int|
            0 <= i < spot_blocks@.len() && failed_at(read.1.failures@, i) ==> read_marks(
                written,
                spot_blocks@.len(),
            )[i] != IoError::WriteError,
        old(drive).traced() ==> final(drive).traced() && final(drive).trace() == old(
            drive,
        ).trace() + read_trace(
            spot_blocks@,
            block_size as nat,
            read_marks(written, spot_blocks@.len()),
            read.1.failures@,
            spot_blocks@.len() as int,
        ),
        old(drive).faithful() && blocks_in_device(
            spot_blocks@,
            block_size as int,
            old(drive).contents().len() as int,
        ) ==> {
            &&& final(drive).faithful()
            &&& final(drive).contents() == old(drive).contents()
            &&& read.1.failures@.len() == 0
            &&& forall|i: int|
                0 <= i < spot_blocks@.len() && read_marks(written, spot_blocks@.len())[i]
                    != IoError::WriteError ==> #[trigger] read.0.block_view(i) == device_block(
                    old(drive).contents(),
                    spot_blocks@,
                    i,
                    block_size as int,
                )
        },
{
    let mut blocks = Blocks::new(block_size, spot_blocks.len(), mem_align);
    let mut transfers = Transfers { durations: Vec::new(), failures: Vec::new() };
    let ghost marks = read_marks(written, spot_blocks@.len());
    let ghost contents = drive.contents();
    let ghost trace = drive.trace();
    let ghost traced = drive.traced();
    let ghost perfect = drive.faithful() && blocks_in_device(
        spot_blocks@,
        block_size as int,
        contents.len() as int,
    );
    let mut i: usize = 0;
    while i < spot_blocks.len()
        invariant
            i <= spot_blocks@.len(),
            offsets_fit(spot_blocks@, block_size as int),
            written matches Some(blocks) ==> blocks.errors@.len() == spot_blocks@.len(),
            marks == read_marks(written, spot_blocks@.len()),
            blocks.wf(),
            blocks.block_size == block_size,
            blocks.num_blocks == spot_blocks@.len(),
            blocks.padding() == mem_align,
            failures_name_blocks(transfers.failures@, spot_blocks@, block_size as int),
            transfers.durations@.len() + transfers.failures@.len() == attempts(
                marks,
                IoError::WriteError,
                i as int,
            ),
            forall|k: int|
                0 <= k < transfers.failures@.len() ==> (#[trigger] transfers.failures@[k]).position
                    < i,
            forall|p: int|
                0 <= p < i ==> #[trigger] blocks.errors@[p] == if failed_at(
                    transfers.failures@,
                    p,
                ) {
                    IoError::ReadError
                } else {
                    IoError::NoError
                },
            forall|p: int|
                0 <= p < i && failed_at(transfers.failures@, p) ==> marks[p] != IoError::WriteError,
            forall|p: int| i <= p < spot_blocks@.len() ==> blocks.errors@[p] == IoError::NoError,
            traced ==> drive.traced() && drive.trace() == trace + read_trace(
                spot_blocks@,
                block_size as nat,
                marks,
                transfers.failures@,
                i as int,
            ),
            perfect ==> blocks_in_device(spot_blocks@, block_size as int, contents.len() as int),
            perfect ==> {
                &&& drive.faithful()
                &&& drive.contents() == contents
                &&& transfers.failures@.len() == 0
                &&& forall|p: int|
                    0 <= p < i && marks[p] != IoError::WriteError ==> #[trigger] blocks.block_view(
                        p,
                    ) == device_block(contents, spot_blocks@, p, block_size as int)
            },
        decreases spot_blocks@.len() - i,
    {
        let ghost failed_before = transfers.failures@;
        let ghost before = blocks;
        if is_marked(written, i, IoError::WriteError) {
            proof {
                lemma_failed_at_earlier(failed_before, transfers.failures@, i as int);
            }
        } else {
            let offset = block_offset_on_device(spot_blocks, i, block_size);
            proof {
                assert(perfect ==> block_in_device(
                    spot_blocks@,
                    i as int,
                    block_size as int,
                    contents.len() as int,
                ));
            }
            let data = blocks.block_mut(i);
            let result = drive.read(offset, data);
            let ghost bytes = data@;
            let ghost refused = result is Err;
            proof {
                Blocks::lemma_block_replaced(before, blocks, i as int, bytes);
            }
            let ghost filled = blocks;
            let mut mark = blocks.errors[i];
            note_transfer(
                result,
                i,
                spot_blocks[i].idx,
                offset,
                IoError::ReadError,
                &mut mark,
                &mut transfers,
            );
            blocks.errors[i] = mark;
            proof {
                lemma_failure_listed(
                    failed_before,
                    transfers.failures@,
                    spot_blocks@,
                    block_size as int,
                    i as int,
                );
                lemma_failed_at_earlier(failed_before, transfers.failures@, i as int);
                lemma_read_trace_same(
                    spot_blocks@,
                    block_size as nat,
                    marks,
                    failed_before,
                    transfers.failures@,
                    i as int,
                );
                let earlier = read_trace(
                    spot_blocks@,
                    block_size as nat,
                    marks,
                    failed_before,
                    i as int,
                );
                let read = Access::Read { offset, len: block_size as nat, failed: refused };
                assert(trace + earlier.push(read) =~= (trace + earlier).push(read));
                assert forall|p: int| 0 <= p < blocks.num_blocks implies #[trigger]
                    blocks.block_view(p) == (if p == i {
                    bytes
                } else {
                    before.block_view(p)
                }) by {
                    assert(blocks.block_view(p) == filled.block_view(p));
                }
            }
        }
        i += 1;
    }
    (blocks, transfers)
}

/// The marks that decide which blocks are read: those of `written` where it
/// is given, and none where it is not.
pub open spec fn read_marks(written: Option<&Blocks>, len: nat) -> Seq<IoError> {
    match written {
        Some(blocks) => blocks.errors@,
        None => no_marks(len),
    }
}

/// Whether `written` is given and marks position `i` with `mark`.
fn is_marked(written: Option<&Blocks>, i: usize, mark: IoError) -> (marked: bool)
    requires
        written matches Some(blocks) ==> i < blocks.errors@.len(),
    ensures
        written is None ==> !marked,
        written matches Some(blocks) ==> marked == (blocks.errors@[i as int] == mark),
{
    match written {
        Some(blocks) => blocks.errors[i] == mark,
        None => false,
    }
}

/// Writes the blocks of `data` to `drive` at the places that `spot_blocks`
/// gives, in that order. The blocks that `data` marks as read errors are not
/// written. A write that fails marks its block as a write error and is
/// listed; the others go on. The bytes of `data` stay as they are.
pub fn write_blocks<D: Device>(
    drive: &mut D,
    spot_blocks: &Vec<BlockIdx>,
    data: &mut Blocks,
) -> (written: Transfers)
    requires
        old(data).wf(),
        old(data).num_blocks == spot_blocks@.len(),
        offsets_fit(spot_blocks@, old(data).block_size as int),
    ensures
        final(data).wf(),
        final(data).data@ == old(data).data@,
        final(data).block_size == old(data).block_size,
        final(data).start_offset == old(data).start_offset,
        final(data).base_address == old(data).base_address,
        final(data).num_blocks == old(data).num_blocks,
        failures_name_blocks(written.failures@, spot_blocks@, old(data).block_size as int),
        written.durations@.len() + written.failures@.len() == attempts(
            old(data).errors@,
            IoError::ReadError,
            spot_blocks@.len() as int,
        ),
        forall|i: int|
            0 <= i < spot_blocks@.len() ==> #[trigger] final(data).errors@[i] == if failed_at(
                written.failures@,
                i,
            ) {
                IoError::WriteError
            } else {
                old(data).errors@[i]
            },
        forall|i: int|
            0 <= i < spot_blocks@.len() && failed_at(written.failures@, i) ==> old(data).errors@[i]
                != IoError::ReadError,
        old(drive).traced() ==> final(drive).traced() && final(drive).trace() == old(
            drive,
        ).trace() + write_trace(
            spot_blocks@,
            *old(data),
            written.failures@,
            spot_blocks@.len() as int,
        ),
        old(drive).faithful() && blocks_in_device(
            spot_blocks@,
            old(data).block_size as int,
            old(drive).contents().len() as int,
        ) ==> {
            &&& final(drive).faithful()
            &&& written.failures@.len() == 0
            &&& final(drive).contents() == contents_after_writes(
                old(drive).contents(),
                spot_blocks@,
                *old(data),
                spot_blocks@.len() as int,
            )
        },
{
    let mut transfers = Transfers { durations: Vec::new(), failures: Vec::new() };
    let block_size = data.block_size;
    let ghost given = *data;
    let ghost contents = drive.contents();
    let ghost trace = drive.trace();
    let ghost traced = drive.traced();
    let ghost perfect = drive.faithful() && blocks_in_device(
        spot_blocks@,
        block_size as int,
        contents.len() as int,
    );
    let mut i: usize = 0;
    while i < spot_blocks.len()
        invariant
            i <= spot_blocks@.len(),
            given.wf(),
            given.num_blocks == spot_blocks@.len(),
            given.block_size == block_size,
            offsets_fit(spot_blocks@, block_size as int),
            data.wf(),
            data.data@ == given.data@,
            data.block_size == given.block_size,
            data.start_offset == given.start_offset,
            data.base_address == given.base_address,
            data.num_blocks == given.num_blocks,
            failures_name_blocks(transfers.failures@, spot_blocks@, block_size as int),
            transfers.durations@.len() + transfers.failures@.len() == attempts(
                given.errors@,
                IoError::ReadError,
                i as int,
            ),
            forall|k: int|
                0 <= k < transfers.failures@.len() ==> (#[trigger] transfers.failures@[k]).position
                    < i,
            forall|p: int|
                0 <= p < i ==> #[trigger] data.errors@[p] == if failed_at(
                    transfers.failures@,
                    p,
                ) {
                    IoError::WriteError
                } else {
                    given.errors@[p]
                },
            forall|p: int|
                0 <= p < i && failed_at(transfers.failures@, p) ==> given.errors@[p]
                    != IoError::ReadError,
            forall|p: int| i <= p < spot_blocks@.len() ==> data.errors@[p] == given.errors@[p],
            traced ==> drive.traced() && drive.trace() == trace + write_trace(
                spot_blocks@,
                given,
                transfers.failures@,
                i as int,
            ),
            perfect ==> blocks_in_device(spot_blocks@, block_size as int, contents.len() as int),
            perfect ==> {
                &&& drive.faithful()
                &&& transfers.failures@.len() == 0
                &&& drive.contents() == contents_after_writes(
                    contents,
                    spot_blocks@,
                    given,
                    i as int,
                )
            },
        decreases spot_blocks@.len() - i,
    {
        let ghost failed_before = transfers.failures@;
        if data.errors[i] == IoError::ReadError {
            proof {
                lemma_failed_at_earlier(failed_before, transfers.failures@, i as int);
            }
        } else {
            let offset = block_offset_on_device(spot_blocks, i, block_size);
            proof {
                lemma_contents_after_writes_len(contents, spot_blocks@, given, i as int);
                assert(data.block_view(i as int) == given.block_view(i as int));
                assert(perfect ==> block_in_device(
                    spot_blocks@,
                    i as int,
                    block_size as int,
                    contents.len() as int,
                ));
            }
            let result = drive.write(offset, data.block(i));
            let ghost refused = result is Err;
            let mut mark = data.errors[i];
            note_transfer(
                result,
                i,
                spot_blocks[i].idx,
                offset,
                IoError::WriteError,
                &mut mark,
                &mut transfers,
            );
            data.errors[i] = mark;
            proof {
                lemma_failure_listed(
                    failed_before,
                    transfers.failures@,
                    spot_blocks@,
                    block_size as int,
                    i as int,
                );
                lemma_failed_at_earlier(failed_before, transfers.failures@, i as int);
                lemma_write_trace_same(
                    spot_blocks@,
                    given,
                    given,
                    failed_before,
                    transfers.failures@,
                    i as int,
                );
                let earlier = write_trace(spot_blocks@, given, failed_before, i as int);
                let write = Access::Write {
                    offset,
                    data: given.block_view(i as int),
                    failed: refused,
                };
                assert(trace + earlier.push(write) =~= (trace + earlier).push(write));
            }
        }
        i += 1;
    }
    transfers
}

} // verus!

//! The spot-check protocol: read the original content, write test data, read
//! it back, compare, derive the confirmed capacity, and restore.
use vstd::prelude::*;
use rand::rngs::SmallRng;
use rand::RngCore;
use crate::buffer::{Blocks, IoError};
use crate::device::{Access, Device};
use crate::engine::{
    block_in_device, blocks_in_device, contents_after_writes, covers, distinct_blocks,
    lemma_contents_after_writes, lemma_contents_after_writes_len,
    lemma_contents_after_writes_same, no_marks,
    lemma_restore_gives_original, lemma_write_trace_same, lemma_written_blocks_are_stored,
    read_blocks, read_marks, read_trace, write_blocks, write_trace, Transfers,
};
use crate::plan::{
    is_plan, is_visiting_order, lemma_block_number_in_range,
    lemma_block_number_increases, lemma_last_slot_samples_last_block, lemma_sorted_plan_is_plan,
    offsets_fit, plan_blocks, shuffle_plan, visits, BlockIdx, ConfigurationError,
};
use crate::report::{
    contains_report, fill_validation_map, final_report, is_highest_block, is_validated_prefix,
    is_validated_size, original_report, record_original_reads, record_write_errors, unknown_map,
    validated_drive_size, BlockReport,
};

verus! {

/// What a run is asked to do.
#[derive(Clone, Copy, Debug)]
pub struct Options {
    /// Size of a block in bytes; not zero.
    pub block_size: usize,
    /// Number of slots, that is of blocks to test.
    pub num_blocks: usize,
    /// Only read: stop once the original content has been read.
    pub read_only: bool,
    /// Neither read the original content first nor restore it at the end.
    pub no_restore_original: bool,
}

/// Everything that a run observed and derived.
#[derive(Debug)]
pub struct Report {
    /// The size that the device reported, in bytes.
    pub device_size: u64,
    /// The plan, in the order in which the blocks were visited.
    pub spot_blocks: Vec<BlockIdx>,
    /// The outcome of every slot.
    pub validation_map: Vec<BlockReport>,
    /// The capacity in bytes that the outcomes confirm.
    pub validated_drive_size: u64,
    /// The original content and how reading it went, where it was read. After
    /// a restore the blocks carry the marks of the writes that failed then.
    pub original: Option<(Blocks, Transfers)>,
    /// The test data and how writing it went.
    pub random: Option<(Blocks, Transfers)>,
    /// What was read back and how reading it went.
    pub read_back: Option<(Blocks, Transfers)>,
    /// How writing the original content back went.
    pub restored: Option<Transfers>,
}

/// Why a run ended without a result.
#[derive(Debug)]
pub enum RunError {
    /// No plan can be made for the device. Nothing was transferred.
    Configuration(ConfigurationError),
    /// The blocks and the padding for `mem_align` do not fit into one buffer.
    /// Nothing was transferred.
    BuffersTooLarge { mem_align: usize },
    /// Original content could not be read and a restore was asked for.
    /// Nothing was written. The report holds the reads.
    OriginalReadErrors(Report),
}

/// The plan of `report` is one for the device size that it names.
pub open spec fn report_has_plan(report: Report, options: Options) -> bool {
    &&& report.device_size % (options.block_size as u64) == 0
    &&& options.num_blocks <= 2 * (report.device_size / (options.block_size as u64))
    &&& is_plan(
        report.spot_blocks@,
        (report.device_size / (options.block_size as u64)) as int,
        options.num_blocks as int,
    )
    &&& report.validation_map@.len() == options.num_blocks
}

/// `report` is that of a run which stopped once the original content had
/// been read: every slot tells how its read went, and nothing else was done.
pub open spec fn stopped_after_reads(report: Report, options: Options) -> bool {
    &&& report.original matches Some(original)
    &&& original.0.errors@.len() == options.num_blocks
    &&& forall|i: int|
        0 <= i < report.spot_blocks@.len() ==> report.validation_map@[(
        #[trigger] report.spot_blocks@[i]).idx as int] == original_report(original.0.errors@[i])
    &&& report.random is None
    &&& report.read_back is None
    &&& report.restored is None
    &&& report.validated_drive_size == 0
}

/// `report` is that of a run which went through: every slot tells how the
/// write, the read-back and the comparison went, and the validated size is
/// what these outcomes confirm.
pub open spec fn completed(report: Report, options: Options) -> bool {
    &&& report.random matches Some(random)
    &&& report.read_back matches Some(read_back)
    &&& random.0.wf()
    &&& read_back.0.wf()
    &&& random.0.num_blocks == options.num_blocks
    &&& read_back.0.num_blocks == options.num_blocks
    &&& random.0.block_size == options.block_size
    &&& read_back.0.block_size == options.block_size
    &&& forall|i: int|
        0 <= i < report.spot_blocks@.len() ==> report.validation_map@[(
        #[trigger] report.spot_blocks@[i]).idx as int] == final_report(
            random.0.errors@[i],
            read_back.0.errors@[i],
            read_back.0.block_view(i) == random.0.block_view(i),
        )
    &&& is_validated_size(
        report.validation_map@,
        report.spot_blocks@,
        options.block_size as int,
        report.validated_drive_size as int,
    )
    &&& report.original is Some <==> !options.no_restore_original
    &&& report.restored is Some <==> !options.no_restore_original
    &&& report.original matches Some(original) ==> original.1.failures@.len() == 0
}

/// The transfers that the run of `report` asked for, each with the answer
/// that the report lists for it: the reads of the original content where it
/// was read, and, where the run went on, the writes of the test data, the
/// reads back of the blocks whose write succeeded and, where the original
/// content was read, the writes that restore it.
pub open spec fn run_trace(report: Report, options: Options) -> Seq<Access> {
    let order = report.spot_blocks@;
    let block_size = options.block_size as nat;
    let slots = order.len() as int;
    let reads = match report.original {
        Some(original) => read_trace(
            order,
            block_size,
            no_marks(order.len()),
            original.1.failures@,
            slots,
        ),
        None => Seq::empty(),
    };
    match (report.random, report.read_back) {
        (Some(random), Some(read_back)) => {
            let tested = reads + write_trace(order, random.0, random.1.failures@, slots)
                + read_trace(order, block_size, random.0.errors@, read_back.1.failures@, slots);
            match (report.original, report.restored) {
                (Some(original), Some(restored)) => tested + write_trace(
                    order,
                    original.0,
                    restored.failures@,
                    slots,
                ),
                _ => tested,
            }
        },
        _ => reads,
    }
}

/// Every slot of `validation_map` is validated.
pub open spec fn all_validated(validation_map: Seq<BlockReport>) -> bool {
    forall|slot: int|
        0 <= slot < validation_map.len() ==> validation_map[slot] == BlockReport::Validated
}

/// A plan for a device lies inside the device, and where it has no more
/// slots than the device has blocks, no block is sampled twice.
pub proof fn lemma_plan_fits_device(
    order: Seq<BlockIdx>,
    device_size: int,
    block_size: int,
    slots: int,
)
    requires
        0 < block_size,
        0 <= device_size <= u64::MAX,
        device_size % block_size == 0,
        slots <= 2 * (device_size / block_size),
        is_plan(order, device_size / block_size, slots),
    ensures
        offsets_fit(order, block_size),
        blocks_in_device(order, block_size, device_size),
        slots <= device_size / block_size ==> distinct_blocks(order),
{
    let blocks = device_size / block_size;
    vstd::arithmetic::div_mod::lemma_fundamental_div_mod(device_size, block_size);
    vstd::arithmetic::mul::lemma_mul_is_commutative(block_size, blocks);
    assert forall|i: int| 0 <= i < order.len() implies (#[trigger] order[i]).num < blocks by {
        lemma_block_number_in_range(order[i].idx as int, blocks, slots);
    }
    assert forall|i: int| 0 <= i < order.len() implies ((#[trigger] order[i]).num + 1) * block_size
        <= device_size by {
        assert(order[i].num < blocks);
        vstd::arithmetic::mul::lemma_mul_inequality(order[i].num + 1, blocks, block_size);
    }
    assert forall|i: int| 0 <= i < order.len() implies #[trigger] block_in_device(
        order,
        i,
        block_size,
        device_size,
    ) by {
        assert((order[i].num + 1) * block_size <= device_size);
    }
    assert(offsets_fit(order, block_size)) by {
        assert forall|i: int| 0 <= i < order.len() implies (#[trigger] order[i]).num < u64::MAX && (
        order[i].num + 1) * block_size <= u64::MAX by {
            assert(order[i].num < blocks);
            assert((order[i].num + 1) * block_size <= device_size);
            assert(blocks <= device_size) by (nonlinear_arith)
                requires
                    device_size == blocks * block_size,
                    0 < block_size,
                    0 <= blocks,
            ;
        }
    }
    if slots <= blocks {
        assert forall|i: int, j: int| 0 <= i < j < order.len() implies (
        #[trigger] order[i]).num != (#[trigger] order[j]).num by {
            let a = order[i].idx as int;
            let b = order[j].idx as int;
            assert(a != b);
            if a < b {
                lemma_block_number_increases(a, b, blocks, slots);
            } else {
                lemma_block_number_increases(b, a, blocks, slots);
            }
        }
    }
}

/// `RngCore::fill_bytes` of the rand crate for its `SmallRng`: overwrites
/// `dest` with bytes from the generator. The contract claims nothing of the
/// bytes, only that `dest` keeps its length.
#[verifier::external_body]
fn fill_bytes(rng: &mut SmallRng, dest: &mut [u8])
    ensures
        final(dest)@.len() == old(dest)@.len(),
{
    rng.fill_bytes(dest);
}

/// Whether `num_blocks` blocks of `block_size` bytes and `mem_align` bytes of
/// padding fit into one buffer.
pub fn buffers_fit(num_blocks: usize, block_size: usize, mem_align: usize) -> (fit: bool)
    ensures
        fit == (num_blocks * block_size + mem_align <= usize::MAX),
{
    proof {
        assert(num_blocks * block_size <= 0xffff_ffff_ffff_ffff * 0xffff_ffff_ffff_ffff)
            by (nonlinear_arith)
            requires
                0 <= num_blocks <= 0xffff_ffff_ffff_ffff,
                0 <= block_size <= 0xffff_ffff_ffff_ffff,
        ;
        assert(0 <= num_blocks * block_size) by (nonlinear_arith);
    }
    let need: u128 = (num_blocks as u128) * (block_size as u128) + (mem_align as u128);
    need <= usize::MAX as u128
}

/// What the outcome of a run on a faithful device is, where `before` is
/// what the device held at first and `after` what it holds at the end.
///
/// Whether a plan can be made is decided by the size of the device alone.
/// No read fails, so the run is never given up after the reads. Where the
/// plan has no more slots than the device has blocks, every slot of a run
/// that went through is validated, the validated size is the size of the
/// device, and the device holds at the end what it held at first unless the
/// restore was switched off. Where it was switched off, the device holds the
/// test data in the blocks of the plan and what it held at first elsewhere.
pub open spec fn faithful_outcome(
    before: Seq<u8>,
    after: Seq<u8>,
    outcome: Result<Report, RunError>,
    options: Options,
) -> bool {
    let size = before.len() as int;
    let block_size = options.block_size as int;
    let slots = options.num_blocks as int;
    match outcome {
        Err(RunError::Configuration(error)) => {
            &&& after == before
            &&& if size % block_size != 0 {
                error == (ConfigurationError::SizeNotMultiple {
                    device_size: size as u64,
                    block_size: block_size as u64,
                })
            } else {
                &&& slots > 2 * (size / block_size)
                &&& error == (ConfigurationError::TooManySlots {
                    device_blocks: (size / block_size) as u64,
                    slots: options.num_blocks,
                })
            }
        },
        Err(RunError::BuffersTooLarge { mem_align }) => {
            &&& after == before
            &&& size % block_size == 0
            &&& slots <= 2 * (size / block_size)
        },
        Err(RunError::OriginalReadErrors(report)) => false,
        Ok(report) => {
            &&& report.device_size == size
            &&& size % block_size == 0
            &&& slots <= 2 * (size / block_size)
            &&& options.read_only && !options.no_restore_original ==> {
                &&& after == before
                &&& !report.validation_map@.contains(BlockReport::ReadError)
            }
            &&& options.no_restore_original ==> (report.random matches Some(random) && after
                == contents_after_writes(before, report.spot_blocks@, random.0, slots))
            &&& slots <= size / block_size && !(options.read_only && !options.no_restore_original)
                ==> {
                &&& all_validated(report.validation_map@)
                &&& slots > 0 ==> report.validated_drive_size == size
                &&& !options.no_restore_original ==> after == before
            }
        },
    }
}

/// What the outcome of a run is on a device whose memory alignment is
/// settled: the buffers are refused exactly for that alignment, and a run
/// that transferred anything had buffers that fit.
pub open spec fn aligned_outcome(
    alignment: usize,
    outcome: Result<Report, RunError>,
    options: Options,
) -> bool {
    match outcome {
        Err(RunError::BuffersTooLarge { mem_align }) => mem_align == alignment,
        Err(RunError::Configuration(error)) => true,
        _ => options.num_blocks * options.block_size + alignment <= usize::MAX,
    }
}

/// A run with `options` is possible on a device of `size` bytes with the
/// memory alignment `alignment`: the size is a multiple of the block size,
/// there are no more slots than twice the blocks of the device, and the
/// buffers fit.
pub open spec fn can_run(size: nat, alignment: usize, options: Options) -> bool {
    &&& size % (options.block_size as nat) == 0
    &&& options.num_blocks <= 2 * (size / (options.block_size as nat))
    &&& options.num_blocks * options.block_size + alignment <= usize::MAX
}

/// Where the map that records the reads shows no read error, no read
/// failed.
proof fn lemma_no_read_errors(
    order: Seq<BlockIdx>,
    errors: Seq<IoError>,
    failures: Seq<crate::engine::Failure>,
    validation_map: Seq<BlockReport>,
)
    requires
        is_visiting_order(order),
        errors.len() == order.len(),
        validation_map.len() == order.len(),
        forall|k: int| 0 <= k < failures.len() ==> (#[trigger] failures[k]).position < order.len(),
        forall|i: int|
            0 <= i < order.len() ==> #[trigger] errors[i] == if crate::engine::failed_at(
                failures,
                i,
            ) {
                IoError::ReadError
            } else {
                IoError::NoError
            },
        forall|i: int|
            0 <= i < order.len() ==> validation_map[(#[trigger] order[i]).idx as int]
                == original_report(errors[i]),
        !validation_map.contains(BlockReport::ReadError),
    ensures
        failures.len() == 0,
        errors =~= no_marks(order.len()),
{
    assert forall|i: int| 0 <= i < order.len() implies errors[i] == IoError::NoError by {
        let slot = order[i].idx as int;
        assert(validation_map[slot] == original_report(errors[i]));
        assert(validation_map.contains(validation_map[slot]));
    }
    if failures.len() > 0 {
        let position = failures[0].position as int;
        assert(crate::engine::failed_at(failures, position));
        assert(errors[position] == IoError::ReadError);
    }
}

/// Where every block that was read back matches what was written and no
/// transfer failed, every slot is validated.
proof fn lemma_all_validated(
    order: Seq<BlockIdx>,
    written: Blocks,
    read_back: Blocks,
    validation_map: Seq<BlockReport>,
)
    requires
        is_visiting_order(order),
        validation_map.len() == order.len(),
        forall|i: int|
            0 <= i < order.len() ==> validation_map[(#[trigger] order[i]).idx as int]
                == final_report(
                written.errors@[i],
                read_back.errors@[i],
                read_back.block_view(i) == written.block_view(i),
            ),
        forall|i: int|
            0 <= i < order.len() ==> written.errors@[i] == IoError::NoError && read_back.errors@[i]
                == IoError::NoError && read_back.block_view(i) == written.block_view(i),
    ensures
        all_validated(validation_map),
{
    assert forall|slot: int| 0 <= slot < validation_map.len() implies validation_map[slot]
        == BlockReport::Validated by {
        assert(visits(order, slot));
        let i = choose|i: int| 0 <= i < order.len() && (#[trigger] order[i]).idx == slot;
        assert(validation_map[order[i].idx as int] == final_report(
            written.errors@[i],
            read_back.errors@[i],
            read_back.block_view(i) == written.block_view(i),
        ));
    }
}

/// Where every slot of a plan is validated, the validated size is the size
/// of the device.
pub proof fn lemma_all_validated_confirms_device(
    validation_map: Seq<BlockReport>,
    order: Seq<BlockIdx>,
    blocks: int,
    slots: int,
    block_size: int,
    size: int,
)
    requires
        0 < slots <= 2 * blocks,
        is_plan(order, blocks, slots),
        validation_map.len() == slots,
        all_validated(validation_map),
        is_validated_size(validation_map, order, block_size, size),
    ensures
        size == blocks * block_size,
{
    let prefix = choose|prefix: int| #[trigger]
        is_validated_prefix(validation_map, prefix) && if forall|i: int|
            0 <= i < order.len() ==> (#[trigger] order[i]).idx >= prefix {
            size == 0
        } else {
            exists|highest: int| #[trigger]
                is_highest_block(order, prefix, highest) && size == (highest + 1) * block_size
        };
    assert(prefix == slots);
    assert(visits(order, slots - 1));
    let last = choose|i: int| 0 <= i < order.len() && (#[trigger] order[i]).idx == slots - 1;
    assert(order[last].idx < prefix);
    lemma_last_slot_samples_last_block(blocks, slots);
    let highest = choose|highest: int| #[trigger]
        is_highest_block(order, prefix, highest) && size == (highest + 1) * block_size;
    let top = choose|i: int|
        0 <= i < order.len() && (#[trigger] order[i]).idx < prefix && order[i].num == highest;
    lemma_block_number_in_range(order[top].idx as int, blocks, slots);
    assert(order[last].num <= highest);
    assert(highest == blocks - 1);
}

/// Runs the protocol on `drive`.
///
/// The device is asked for its size and a plan is made: where none can be
/// made the run ends with a configuration error before any transfer. The
/// plan is visited in an order that `rng` chooses. Unless the restore is
/// switched off, the original content of every block is read first; a run
/// that is to read only ends there, and a run that is to go on is given up
/// there if a read failed. Then test data from `rng` is written to every
/// block and read back where the write succeeded, every slot is classified,
/// the validated size is derived and, unless the restore is switched off, the
/// original content is written back. A transfer that fails is recorded and
/// never ends the run by itself.
pub fn run<D: Device>(drive: &mut D, rng: &mut SmallRng, options: &Options) -> (outcome: Result<
    Report,
    RunError,
>)
    requires
        options.block_size > 0,
    ensures
        match outcome {
            Ok(report) => {
                &&& report_has_plan(report, *options)
                &&& if options.read_only && !options.no_restore_original {
                    stopped_after_reads(report, *options)
                } else {
                    completed(report, *options)
                }
            },
            Err(RunError::Configuration(error)) => match error {
                ConfigurationError::SizeNotMultiple { device_size, block_size } => block_size
                    == options.block_size && device_size % block_size != 0,
                ConfigurationError::TooManySlots { device_blocks, slots } => slots
                    == options.num_blocks && slots > 2 * device_blocks,
            },
            Err(RunError::BuffersTooLarge { mem_align }) => options.num_blocks * options.block_size
                + mem_align > usize::MAX,
            Err(RunError::OriginalReadErrors(report)) => {
                &&& !options.read_only
                &&& !options.no_restore_original
                &&& report_has_plan(report, *options)
                &&& stopped_after_reads(report, *options)
                &&& report.validation_map@.contains(BlockReport::ReadError)
            },
        },
        old(drive).traced() ==> final(drive).traced() && final(drive).trace() == old(
            drive,
        ).trace() + (match outcome {
            Ok(report) => run_trace(report, *options),
            Err(RunError::OriginalReadErrors(report)) => run_trace(report, *options),
            _ => Seq::empty(),
        }),
        old(drive).faithful() ==> final(drive).faithful() && faithful_outcome(
            old(drive).contents(),
            final(drive).contents(),
            outcome,
            *options,
        ),
        old(drive).aligned() ==> aligned_outcome(old(drive).alignment(), outcome, *options),
        old(drive).aligned() && old(drive).faithful() ==> (outcome is Ok <==> can_run(
            old(drive).contents().len(),
            old(drive).alignment(),
            *options,
        )),
{
    let block_size = options.block_size;
    let slots = options.num_blocks;
    let ghost before = drive.contents();
    let ghost trace = drive.trace();
    let ghost traced = drive.traced();
    let ghost faithful = drive.faithful();
    let device_size = drive.get_size();
    let ghost blocks = (device_size / (block_size as u64)) as int;
    let mut spot_blocks = match plan_blocks(device_size, block_size as u64, slots) {
        Ok(plan) => plan,
        Err(error) => {
            assert(trace + Seq::<Access>::empty() =~= trace);
            return Err(RunError::Configuration(error));
        },
    };
    proof {
        lemma_sorted_plan_is_plan(spot_blocks@, blocks, slots as int);
    }
    shuffle_plan(&mut spot_blocks, rng);
    proof {
        assert(is_plan(spot_blocks@, blocks, slots as int));
        lemma_plan_fits_device(spot_blocks@, device_size as int, block_size as int, slots as int);
    }
    let mem_align = drive.get_memory_alignment();
    if !buffers_fit(slots, block_size, mem_align) {
        assert(trace + Seq::<Access>::empty() =~= trace);
        return Err(RunError::BuffersTooLarge { mem_align });
    }
    let mut validation_map = unknown_map(slots);
    let mut original: Option<(Blocks, Transfers)> = None;
    if !options.no_restore_original {
        let (read, transfers) = read_blocks(drive, &spot_blocks, block_size, mem_align, None);
        record_original_reads(&spot_blocks, &read, &mut validation_map);
        let has_read_errors = contains_report(&validation_map, BlockReport::ReadError);
        proof {
            assert(read_marks(None, spot_blocks@.len()) =~= no_marks(spot_blocks@.len()));
            if faithful {
                assert forall|i: int| 0 <= i < spot_blocks@.len() implies read.errors@[i]
                    == IoError::NoError by {
                    assert(!crate::engine::failed_at(transfers.failures@, i));
                }
                if has_read_errors {
                    let slot = choose|slot: int|
                        0 <= slot < validation_map@.len() && validation_map@[slot]
                            == BlockReport::ReadError;
                    assert(visits(spot_blocks@, slot));
                    let i = choose|i: int|
                        0 <= i < spot_blocks@.len() && (#[trigger] spot_blocks@[i]).idx == slot;
                    assert(validation_map@[spot_blocks@[i].idx as int] == original_report(
                        read.errors@[i],
                    ));
                }
            }
        }
        if options.read_only || has_read_errors {
            let report = Report {
                device_size,
                spot_blocks,
                validation_map,
                validated_drive_size: 0,
                original: Some((read, transfers)),
                random: None,
                read_back: None,
                restored: None,
            };
            if options.read_only {
                return Ok(report);
            }
            return Err(RunError::OriginalReadErrors(report));
        }
        proof {
            lemma_no_read_errors(
                spot_blocks@,
                read.errors@,
                transfers.failures@,
                validation_map@,
            );
        }
        original = Some((read, transfers));
    }
    let ghost after_reads = drive.trace();
    let mut random = Blocks::new(block_size, slots, mem_align);
    let ghost zeroed = random;
    fill_bytes(rng, random.data_mut());
    let ghost given = random;
    proof {
        assert(given.errors@ =~= no_marks(spot_blocks@.len()));
    }
    let written = write_blocks(drive, &spot_blocks, &mut random);
    let ghost changed = drive.contents();
    proof {
        lemma_write_trace_same(
            spot_blocks@,
            given,
            random,
            written.failures@,
            written.failures@,
            spot_blocks@.len() as int,
        );
        lemma_contents_after_writes_same(
            before,
            spot_blocks@,
            given,
            random,
            spot_blocks@.len() as int,
        );
    }
    record_write_errors(&spot_blocks, &random, &mut validation_map);
    let (read_back, read_back_transfers) = read_blocks(
        drive,
        &spot_blocks,
        block_size,
        mem_align,
        Some(&random),
    );
    fill_validation_map(&spot_blocks, &random, &read_back, &mut validation_map);
    let validated = validated_drive_size(&validation_map, &spot_blocks, block_size as u64);
    proof {
        if faithful {
            lemma_contents_after_writes_len(before, spot_blocks@, given, spot_blocks@.len() as int);
            assert forall|i: int| 0 <= i < spot_blocks@.len() implies random.errors@[i]
                == IoError::NoError by {
                assert(!crate::engine::failed_at(written.failures@, i));
            }
            assert forall|i: int| 0 <= i < spot_blocks@.len() implies read_back.errors@[i]
                == IoError::NoError by {
                assert(!crate::engine::failed_at(read_back_transfers.failures@, i));
            }
            assert forall|i: int| 0 <= i < spot_blocks@.len() implies random.block_view(i)
                == given.block_view(i) by {}
            if slots <= blocks {
                lemma_written_blocks_are_stored(before, spot_blocks@, given);
                lemma_all_validated(spot_blocks@, random, read_back, validation_map@);
                if slots > 0 {
                    lemma_all_validated_confirms_device(
                        validation_map@,
                        spot_blocks@,
                        blocks,
                        slots as int,
                        block_size as int,
                        validated as int,
                    );
                    vstd::arithmetic::div_mod::lemma_fundamental_div_mod(
                        device_size as int,
                        block_size as int,
                    );
                    vstd::arithmetic::mul::lemma_mul_is_commutative(block_size as int, blocks);
                }
            }
        }
    }
    let ghost after_tests = drive.trace();
    let mut restored: Option<Transfers> = None;
    let original = match original {
        Some((mut read, transfers)) => {
            let ghost kept = read;
            let transfers_back = write_blocks(drive, &spot_blocks, &mut read);
            proof {
                lemma_write_trace_same(
                    spot_blocks@,
                    kept,
                    read,
                    transfers_back.failures@,
                    transfers_back.failures@,
                    spot_blocks@.len() as int,
                );
                if faithful && slots <= blocks {
                    assert forall|x: int|
                        0 <= x < before.len() && (forall|i: int|
                            0 <= i < spot_blocks@.len() ==> !#[trigger] covers(
                                spot_blocks@,
                                i,
                                block_size as int,
                                x,
                            )) implies changed[x] == before[x] by {
                        lemma_contents_after_writes(
                            before,
                            spot_blocks@,
                            given,
                            spot_blocks@.len() as int,
                            x,
                        );
                    }
                    lemma_restore_gives_original(before, changed, spot_blocks@, kept);
                }
            }
            restored = Some(transfers_back);
            Some((read, transfers))
        },
        None => None,
    };
    let report = Report {
        device_size,
        spot_blocks,
        validation_map,
        validated_drive_size: validated,
        original,
        random: Some((random, written)),
        read_back: Some((read_back, read_back_transfers)),
        restored,
    };
    proof {
        if traced {
            assert(drive.trace() =~= trace + run_trace(report, *options));
        }
    }
    Ok(report)
}

} // verus!

//! The sampling plan: which blocks of the device are tested, and in which
//! order they are visited.
use vstd::prelude::*;
use rand::rngs::SmallRng;
use rand::seq::SliceRandom;

verus! {

/// One sampled block: its slot in the plan and its block number on the device.
#[derive(Clone, Copy, Debug, PartialEq, Eq, Structural)]
pub struct BlockIdx {
    /// Position in the plan, which is also the position in the validation map.
    pub idx: usize,
    /// Number of the block on the device.
    pub num: u64,
}

/// Why no plan can be made for a device.
#[derive(Clone, Copy, Debug, PartialEq, Eq, Structural)]
pub enum ConfigurationError {
    /// The size of the device is not a multiple of the block size.
    SizeNotMultiple { device_size: u64, block_size: u64 },
    /// More slots are asked for than twice the blocks that the device has, so
    /// that the first slot would fall in front of the first block.
    TooManySlots { device_blocks: u64, slots: usize },
}

/// `p / q` rounded to the nearest integer, halves away from zero, for a
/// non-negative `p` and a positive `q`.
pub open spec fn rounded_quotient(p: int, q: int) -> int {
    (2 * p + q) / (2 * q)
}

/// The block that slot `slot` samples when a device of `blocks` blocks is
/// divided into `slots` regions of equal width: the last block at or before
/// the end of region `slot`.
pub open spec fn block_number(slot: int, blocks: int, slots: int) -> int {
    rounded_quotient((slot + 1) * blocks, slots) - 1
}

/// `order` visits slot `slot`.
pub open spec fn visits(order: Seq<BlockIdx>, slot: int) -> bool {
    exists|i: int| 0 <= i < order.len() && (#[trigger] order[i]).idx == slot
}

/// `order` visits every slot of a plan of `order.len()` slots once.
pub open spec fn is_visiting_order(order: Seq<BlockIdx>) -> bool {
    &&& forall|i: int| 0 <= i < order.len() ==> 0 <= (#[trigger] order[i]).idx < order.len()
    &&& forall|i: int, j: int|
        0 <= i < j < order.len() ==> (#[trigger] order[i]).idx != (#[trigger] order[j]).idx
    &&& forall|slot: int| 0 <= slot < order.len() ==> #[trigger] visits(order, slot)
}

/// `order` is a plan of `slots` slots for a device of `blocks` blocks, in some
/// order of visit: every slot occurs once, with the block that it samples.
pub open spec fn is_plan(order: Seq<BlockIdx>, blocks: int, slots: int) -> bool {
    &&& order.len() == slots
    &&& is_visiting_order(order)
    &&& forall|i: int|
        0 <= i < order.len() ==> (#[trigger] order[i]).num == block_number(
            order[i].idx as int,
            blocks,
            slots,
        )
}

/// The end of every block of `order`, in bytes from the start of the device,
/// is a `u64`.
pub open spec fn offsets_fit(order: Seq<BlockIdx>, block_size: int) -> bool {
    forall|i: int|
        0 <= i < order.len() ==> (#[trigger] order[i]).num < u64::MAX && (order[i].num + 1)
            * block_size <= u64::MAX
}

/// `order` is the plan in slot order.
pub open spec fn is_sorted_plan(order: Seq<BlockIdx>, blocks: int, slots: int) -> bool {
    &&& order.len() == slots
    &&& forall|i: int|
        0 <= i < order.len() ==> (#[trigger] order[i]).idx == i && order[i].num == block_number(
            i,
            blocks,
            slots,
        )
}

/// The quotient and remainder of a division decide how it rounds.
pub proof fn lemma_rounded_quotient(p: int, q: int, quotient: int, remainder: int)
    requires
        0 < q,
        0 <= remainder < q,
        p == quotient * q + remainder,
    ensures
        rounded_quotient(p, q) == if 2 * remainder >= q {
            quotient + 1
        } else {
            quotient
        },
{
    if 2 * remainder >= q {
        assert(2 * p + q == (quotient + 1) * (2 * q) + (2 * remainder - q)) by (nonlinear_arith)
            requires
                p == quotient * q + remainder,
        ;
        vstd::arithmetic::div_mod::lemma_fundamental_div_mod_converse(
            2 * p + q,
            2 * q,
            quotient + 1,
            2 * remainder - q,
        );
    } else {
        assert(2 * p + q == quotient * (2 * q) + (2 * remainder + q)) by (nonlinear_arith)
            requires
                p == quotient * q + remainder,
        ;
        vstd::arithmetic::div_mod::lemma_fundamental_div_mod_converse(
            2 * p + q,
            2 * q,
            quotient,
            2 * remainder + q,
        );
    }
}

/// Rounding keeps the order, and a numerator that grows by the denominator
/// rounds to a quotient that grows by one.
pub proof fn lemma_rounded_quotient_grows(p1: int, p2: int, q: int)
    requires
        0 < q,
        p1 <= p2,
    ensures
        rounded_quotient(p1, q) <= rounded_quotient(p2, q),
        p1 + q <= p2 ==> rounded_quotient(p1, q) + 1 <= rounded_quotient(p2, q),
        rounded_quotient(p1 + q, q) == rounded_quotient(p1, q) + 1,
{
    vstd::arithmetic::div_mod::lemma_div_is_ordered(2 * p1 + q, 2 * p2 + q, 2 * q);
    vstd::arithmetic::div_mod::lemma_div_plus_one(2 * p1 + q, 2 * q);
    assert(2 * q + (2 * p1 + q) == 2 * (p1 + q) + q);
    if p1 + q <= p2 {
        vstd::arithmetic::div_mod::lemma_div_is_ordered(2 * (p1 + q) + q, 2 * p2 + q, 2 * q);
    }
}

/// A multiple of the denominator rounds to its factor.
pub proof fn lemma_rounded_quotient_exact(k: int, q: int)
    requires
        0 < q,
    ensures
        rounded_quotient(k * q, q) == k,
{
    lemma_rounded_quotient(k * q, q, k, 0);
}

/// Where there are at most twice as many slots as blocks, every slot samples
/// a block of the device.
pub proof fn lemma_block_number_in_range(slot: int, blocks: int, slots: int)
    requires
        0 <= slot < slots,
        slots <= 2 * blocks,
    ensures
        0 <= block_number(slot, blocks, slots) < blocks,
{
    let p = (slot + 1) * blocks;
    assert(blocks <= p <= slots * blocks) by (nonlinear_arith)
        requires
            p == (slot + 1) * blocks,
            0 <= slot < slots,
            0 <= blocks,
    ;
    lemma_rounded_quotient_grows(p, slots * blocks, slots);
    lemma_rounded_quotient_exact(blocks, slots);
    vstd::arithmetic::mul::lemma_mul_is_commutative(blocks, slots);
    lemma_rounded_quotient_grows(blocks, p, slots);
    // 2 * blocks + slots >= 2 * slots, so a single region rounds to one block at least.
    vstd::arithmetic::div_mod::lemma_div_is_ordered(2 * slots, 2 * blocks + slots, 2 * slots);
    vstd::arithmetic::div_mod::lemma_div_by_multiple(1, 2 * slots);
}

/// The last slot samples the last block of the device.
pub proof fn lemma_last_slot_samples_last_block(blocks: int, slots: int)
    requires
        0 < slots,
    ensures
        block_number(slots - 1, blocks, slots) == blocks - 1,
{
    lemma_rounded_quotient_exact(blocks, slots);
    vstd::arithmetic::mul::lemma_mul_is_commutative(blocks, slots);
}

/// Where there are no more slots than blocks, a later slot samples a later
/// block.
pub proof fn lemma_block_number_increases(earlier: int, later: int, blocks: int, slots: int)
    requires
        0 <= earlier < later < slots,
        slots <= blocks,
    ensures
        block_number(earlier, blocks, slots) < block_number(later, blocks, slots),
{
    let p1 = (earlier + 1) * blocks;
    let p2 = (later + 1) * blocks;
    assert(p1 + slots <= p2) by (nonlinear_arith)
        requires
            p1 == (earlier + 1) * blocks,
            p2 == (later + 1) * blocks,
            earlier < later,
            0 < slots <= blocks,
    ;
    lemma_rounded_quotient_grows(p1, p2, slots);
}

/// A later slot never samples an earlier block.
pub proof fn lemma_block_number_never_falls(earlier: int, later: int, blocks: int, slots: int)
    requires
        0 <= earlier <= later,
        0 < slots,
        0 <= blocks,
    ensures
        block_number(earlier, blocks, slots) <= block_number(later, blocks, slots),
{
    vstd::arithmetic::mul::lemma_mul_inequality(earlier + 1, later + 1, blocks);
    lemma_rounded_quotient_grows((earlier + 1) * blocks, (later + 1) * blocks, slots);
}

/// For a device of `blocks` blocks and a plan of no more slots than that, the
/// slots sample distinct blocks of the device, in increasing order, and the
/// last slot samples the last block.
pub proof fn lemma_plan_spans_device(blocks: int, slots: int)
    requires
        0 < slots <= blocks,
    ensures
        forall|slot: int|
            0 <= slot < slots ==> 0 <= #[trigger] block_number(slot, blocks, slots) < blocks,
        forall|earlier: int, later: int|
            0 <= earlier < later < slots ==> #[trigger] block_number(earlier, blocks, slots)
                < #[trigger] block_number(later, blocks, slots),
        block_number(slots - 1, blocks, slots) == blocks - 1,
{
    assert forall|slot: int| 0 <= slot < slots implies 0 <= #[trigger] block_number(
        slot,
        blocks,
        slots,
    ) < blocks by {
        lemma_block_number_in_range(slot, blocks, slots);
    }
    assert forall|earlier: int, later: int| 0 <= earlier < later < slots implies #[trigger]
        block_number(earlier, blocks, slots) < #[trigger] block_number(later, blocks, slots) by {
        lemma_block_number_increases(earlier, later, blocks, slots);
    }
    lemma_last_slot_samples_last_block(blocks, slots);
}

/// The block that slot `slot` samples.
pub fn spot_block(slot: usize, device_blocks: u64, slots: usize) -> (num: u64)
    requires
        slot < slots,
        slots <= 2 * device_blocks,
    ensures
        num == block_number(slot as int, device_blocks as int, slots as int),
        num < device_blocks,
{
    proof {
        assert((slot + 1) * device_blocks <= 0x1_0000_0000_0000_0000 * 0xffff_ffff_ffff_ffff)
            by (nonlinear_arith)
            requires
                0 <= slot + 1 <= 0x1_0000_0000_0000_0000,
                0 <= device_blocks <= 0xffff_ffff_ffff_ffff,
        ;
    }
    let p: u128 = (slot as u128 + 1) * (device_blocks as u128);
    let q: u128 = slots as u128;
    let quotient: u128 = p / q;
    let remainder: u128 = p % q;
    proof {
        vstd::arithmetic::div_mod::lemma_fundamental_div_mod(p as int, q as int);
        vstd::arithmetic::div_mod::lemma_mod_bound(p as int, q as int);
        vstd::arithmetic::mul::lemma_mul_is_commutative(q as int, quotient as int);
        lemma_rounded_quotient(p as int, q as int, quotient as int, remainder as int);
        lemma_block_number_in_range(slot as int, device_blocks as int, slots as int);
    }
    let rounded: u128 = if 2 * remainder >= q {
        quotient + 1
    } else {
        quotient
    };
    (rounded - 1) as u64
}

/// The plan in slot order for a device of `device_size` bytes, tested in
/// blocks of `block_size` bytes at `slots` places.
pub fn plan_blocks(device_size: u64, block_size: u64, slots: usize) -> (plan: Result<
    Vec<BlockIdx>,
    ConfigurationError,
>)
    requires
        block_size > 0,
    ensures
        device_size % block_size != 0 ==> plan == Err::<Vec<BlockIdx>, ConfigurationError>(
            ConfigurationError::SizeNotMultiple { device_size, block_size },
        ),
        device_size % block_size == 0 && slots > 2 * (device_size / block_size) ==> plan == Err::<
            Vec<BlockIdx>,
            ConfigurationError,
        >(ConfigurationError::TooManySlots { device_blocks: device_size / block_size, slots }),
        device_size % block_size == 0 && slots <= 2 * (device_size / block_size) ==> plan is Ok
            && is_sorted_plan(plan->Ok_0@, (device_size / block_size) as int, slots as int),
        plan matches Ok(order) ==> forall|i: int|
            0 <= i < order@.len() ==> (#[trigger] order@[i]).num < device_size / block_size,
        plan matches Ok(order) ==> (0 < slots <= device_size / block_size ==> {
            &&& forall|i: int, j: int|
                0 <= i < j < order@.len() ==> (#[trigger] order@[i]).num < (
                #[trigger] order@[j]).num
            &&& order@[slots - 1].num == device_size / block_size - 1
        }),
{
    if device_size % block_size != 0 {
        return Err(ConfigurationError::SizeNotMultiple { device_size, block_size });
    }
    let device_blocks: u64 = device_size / block_size;
    if slots as u128 > 2 * (device_blocks as u128) {
        return Err(ConfigurationError::TooManySlots { device_blocks, slots });
    }
    let mut plan: Vec<BlockIdx> = Vec::with_capacity(slots);
    let mut slot: usize = 0;
    while slot < slots
        invariant
            slot <= slots,
            slots <= 2 * device_blocks,
            plan@.len() == slot,
            forall|i: int|
                0 <= i < slot ==> (#[trigger] plan@[i]).idx == i && plan@[i].num == block_number(
                    i,
                    device_blocks as int,
                    slots as int,
                ),
        decreases slots - slot,
    {
        plan.push(BlockIdx { idx: slot, num: spot_block(slot, device_blocks, slots) });
        slot += 1;
    }
    proof {
        if 0 < slots <= device_blocks {
            lemma_plan_spans_device(device_blocks as int, slots as int);
        }
        assert forall|i: int| 0 <= i < plan@.len() implies (#[trigger] plan@[i]).num
            < device_blocks by {
            lemma_block_number_in_range(i, device_blocks as int, slots as int);
        }
    }
    Ok(plan)
}

/// A plan in slot order is a plan.
pub proof fn lemma_sorted_plan_is_plan(order: Seq<BlockIdx>, blocks: int, slots: int)
    requires
        is_sorted_plan(order, blocks, slots),
    ensures
        is_plan(order, blocks, slots),
{
    assert forall|slot: int| 0 <= slot < slots implies #[trigger] visits(order, slot) by {
        assert(order[slot].idx == slot);
    }
}

/// Reordering a plan gives a plan: the pairing of slot and block travels
/// with each entry.
pub proof fn lemma_reordered_plan_is_plan(
    before: Seq<BlockIdx>,
    after: Seq<BlockIdx>,
    blocks: int,
    slots: int,
)
    requires
        is_plan(before, blocks, slots),
        after.to_multiset() == before.to_multiset(),
    ensures
        is_plan(after, blocks, slots),
{
    broadcast use vstd::seq_lib::group_to_multiset_ensures;

    before.to_multiset_ensures();
    after.to_multiset_ensures();
    assert(after.len() == before.len());
    // Every entry of one order is an entry of the other.
    assert forall|i: int| 0 <= i < after.len() implies before.contains(#[trigger] after[i]) by {
        assert(after.contains(after[i]));
        assert(after.to_multiset().count(after[i]) > 0);
    }
    assert forall|i: int| 0 <= i < before.len() implies after.contains(#[trigger] before[i]) by {
        assert(before.contains(before[i]));
        assert(before.to_multiset().count(before[i]) > 0);
    }
    assert forall|i: int| 0 <= i < after.len() implies 0 <= (#[trigger] after[i]).idx < slots
        && after[i].num == block_number(after[i].idx as int, blocks, slots) by {
        let k = choose|k: int| 0 <= k < before.len() && before[k] == after[i];
        assert(before[k] == after[i]);
        assert(0 <= before[k].idx < before.len());
    }
    // No entry occurs twice before, so none does after.
    assert(before.no_duplicates()) by {
        assert forall|i: int, j: int|
            0 <= i < before.len() && 0 <= j < before.len() && i != j implies before[i]
            != before[j] by {
            if i < j {
                assert(before[i].idx != before[j].idx);
            } else {
                assert(before[j].idx != before[i].idx);
            }
        }
    }
    before.lemma_multiset_has_no_duplicates();
    after.lemma_multiset_has_no_duplicates_conv();
    assert forall|i: int, j: int| 0 <= i < j < after.len() implies (#[trigger] after[i]).idx != (
    #[trigger] after[j]).idx by {
        let a = choose|a: int| 0 <= a < before.len() && before[a] == after[i];
        let b = choose|b: int| 0 <= b < before.len() && before[b] == after[j];
        assert(before[a] == after[i] && before[b] == after[j]);
        if after[i].idx == after[j].idx {
            if a < b {
                assert(before[a].idx != before[b].idx);
            } else if b < a {
                assert(before[b].idx != before[a].idx);
            }
            assert(a == b);
            assert(after[i] == after[j]);
        }
    }
    assert forall|slot: int| 0 <= slot < slots implies #[trigger] visits(after, slot) by {
        assert(visits(before, slot));
        let k = choose|k: int| 0 <= k < before.len() && (#[trigger] before[k]).idx == slot;
        assert(after.contains(before[k]));
        let m = choose|m: int| 0 <= m < after.len() && after[m] == before[k];
        assert(after[m].idx == slot);
    }
}

/// Puts the plan into a random order of visit. The entries stay what they
/// are; only their order changes.
pub fn shuffle_plan(plan: &mut Vec<BlockIdx>, rng: &mut SmallRng)
    ensures
        final(plan)@.to_multiset() == old(plan)@.to_multiset(),
        final(plan)@.len() == old(plan)@.len(),
        forall|blocks: int, slots: int|
            is_plan(old(plan)@, blocks, slots) ==> #[trigger] is_plan(final(plan)@, blocks, slots),
{
    let ghost before = plan@;
    shuffle_entries(plan, rng);
    proof {
        before.to_multiset_ensures();
        plan@.to_multiset_ensures();
        assert forall|blocks: int, slots: int| is_plan(before, blocks, slots) implies #[trigger]
            is_plan(plan@, blocks, slots) by {
            lemma_reordered_plan_is_plan(before, plan@, blocks, slots);
        }
    }
}

/// `SliceRandom::shuffle` of the rand crate on the entries of `plan`: a
/// Fisher-Yates shuffle, which only swaps entries. The contract claims that
/// the entries afterwards are the entries before, each as often as before,
/// and nothing about their order.
#[verifier::external_body]
fn shuffle_entries(plan: &mut Vec<BlockIdx>, rng: &mut SmallRng)
    ensures
        final(plan)@.to_multiset() == old(plan)@.to_multiset(),
{
    plan.shuffle(rng);
}

/// The small fast generator of the rand crate.
#[verifier::external_type_specification]
#[verifier::external_body]
pub struct ExSmallRng(rand::rngs::SmallRng);

} // verus!

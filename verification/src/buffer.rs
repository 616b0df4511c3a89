//! Block-indexed transfer buffers whose payload starts on an aligned address.
use vstd::prelude::*;

verus! {

/// What went wrong, if anything, the last time a block was transferred.
#[derive(Clone, Copy, PartialEq, Eq, Structural, Debug)]
pub enum IoError {
    NoError,
    ReadError,
    WriteError,
}

/// `address` is a multiple of `alignment`.
pub open spec fn is_aligned(address: int, alignment: int) -> bool {
    address % alignment == 0
}

/// The smallest offset that brings `address` up to a multiple of `alignment`;
/// zero where no alignment is asked for.
pub open spec fn aligned_offset(address: int, alignment: int) -> int {
    if alignment > 0 && address % alignment != 0 {
        alignment - address % alignment
    } else {
        0
    }
}

/// Computes [`aligned_offset`]. The result is below `alignment`, lands
/// `address` on a multiple of `alignment`, and no smaller offset does.
pub fn alignment_offset(address: usize, alignment: usize) -> (offset: usize)
    ensures
        offset == aligned_offset(address as int, alignment as int),
        alignment == 0 ==> offset == 0,
        alignment > 0 ==> offset < alignment && is_aligned(address + offset, alignment as int),
        alignment > 0 ==> forall|smaller: int|
            0 <= smaller < offset ==> !#[trigger] is_aligned(address + smaller, alignment as int),
{
    if alignment > 0 && address % alignment != 0 {
        let offset = alignment - address % alignment;
        proof {
            lemma_aligned_offset(address as int, alignment as int);
        }
        offset
    } else {
        proof {
            if alignment > 0 {
                lemma_aligned_offset(address as int, alignment as int);
            }
        }
        0
    }
}

/// `aligned_offset` is the least non-negative offset that aligns `address`.
pub proof fn lemma_aligned_offset(address: int, alignment: int)
    requires
        0 <= address,
        0 < alignment,
    ensures
        0 <= aligned_offset(address, alignment) < alignment,
        is_aligned(address + aligned_offset(address, alignment), alignment),
        forall|smaller: int|
            0 <= smaller < aligned_offset(address, alignment) ==> !#[trigger] is_aligned(
                address + smaller,
                alignment,
            ),
{
    let r = address % alignment;
    let q = address / alignment;
    vstd::arithmetic::div_mod::lemma_fundamental_div_mod(address, alignment);
    vstd::arithmetic::div_mod::lemma_mod_bound(address, alignment);
    if r != 0 {
        let offset = alignment - r;
        assert(address + offset == alignment * (q + 1)) by (nonlinear_arith)
            requires
                address == alignment * q + r,
                offset == alignment - r,
        ;
        vstd::arithmetic::div_mod::lemma_mod_multiples_basic(q + 1, alignment);
        vstd::arithmetic::mul::lemma_mul_is_commutative(q + 1, alignment);
        assert forall|smaller: int| 0 <= smaller < offset implies !#[trigger] is_aligned(
            address + smaller,
            alignment,
        ) by {
            // address + smaller lies strictly between two neighbouring multiples.
            assert(address + smaller == alignment * q + (r + smaller));
            vstd::arithmetic::div_mod::lemma_fundamental_div_mod_converse(
                address + smaller,
                alignment,
                q,
                r + smaller,
            );
        }
    }
}

/// Transfer storage for a run of equally sized blocks.
///
/// The payload of block `i` occupies `block_size` bytes of `data` from
/// `start_offset + i * block_size`. `data` is longer than the payload by the
/// alignment that the buffer was made for, and `start_offset` skips the bytes
/// in front of the first aligned address: `base_address` is where `data` was
/// found to start when the buffer was made. The blocks are kept in the order
/// in which they are transferred, not in their order on the device.
#[derive(Debug)]
pub struct Blocks {
    /// Padded storage.
    pub data: Vec<u8>,
    /// One transfer state per block.
    pub errors: Vec<IoError>,
    /// Size of one block in bytes.
    pub block_size: usize,
    /// Where the payload of the first block starts in `data`.
    pub start_offset: usize,
    /// The address of the first byte of `data`.
    pub base_address: usize,
    /// Number of blocks.
    pub num_blocks: usize,
}

/// `a * c <= b * c` for `a <= b` and a non-negative `c`.
pub proof fn lemma_mul_le(a: int, b: int, c: int)
    requires
        a <= b,
        0 <= c,
    ensures
        a * c <= b * c,
{
    vstd::arithmetic::mul::lemma_mul_inequality(a, b, c);
}

impl Blocks {
    /// The alignment padding: what `data` holds beyond the payload.
    pub open spec fn padding(&self) -> int {
        self.data@.len() - self.num_blocks * self.block_size
    }

    /// There is one error state per block, the payload fits into `data`,
    /// and `start_offset` is the least offset that puts the payload on a
    /// multiple of the padding: it stays below the padding, and is zero where
    /// there is none.
    pub open spec fn wf(&self) -> bool {
        &&& self.errors@.len() == self.num_blocks
        &&& self.num_blocks * self.block_size <= self.data@.len()
        &&& self.start_offset == aligned_offset(self.base_address as int, self.padding())
        &&& if self.padding() == 0 {
            self.start_offset == 0
        } else {
            self.start_offset < self.padding()
        }
    }

    /// The payload of a well-formed buffer starts on a multiple of the
    /// alignment that the buffer was made for, at the first one that the
    /// storage reaches.
    pub proof fn lemma_payload_aligned(&self)
        requires
            self.wf(),
            self.padding() > 0,
        ensures
            is_aligned(self.base_address + self.start_offset, self.padding()),
            forall|smaller: int|
                0 <= smaller < self.start_offset ==> !#[trigger] is_aligned(
                    self.base_address + smaller,
                    self.padding(),
                ),
    {
        lemma_aligned_offset(self.base_address as int, self.padding());
    }

    /// Where block `i` starts in `data`.
    pub open spec fn block_start(&self, i: int) -> int {
        self.start_offset + i * self.block_size
    }

    /// The bytes of block `i`.
    pub open spec fn block_view(&self, i: int) -> Seq<u8> {
        self.data@.subrange(self.block_start(i), self.block_start(i + 1))
    }

    /// Every block's byte range lies inside `data`, one after the other.
    pub proof fn lemma_block_bounds(&self, i: int)
        requires
            self.wf(),
            0 <= i < self.num_blocks,
        ensures
            0 <= self.block_start(i),
            self.block_start(i) + self.block_size == self.block_start(i + 1),
            self.block_start(i + 1) <= self.data@.len(),
            self.block_view(i).len() == self.block_size,
    {
        let bs = self.block_size as int;
        lemma_mul_le(i + 1, self.num_blocks as int, bs);
        lemma_mul_le(0, i, bs);
        assert((i + 1) * bs == i * bs + bs) by (nonlinear_arith);
    }

    /// Replacing the bytes of one block leaves the buffer well formed and
    /// every other block as it was.
    pub proof fn lemma_block_replaced(before: Blocks, after: Blocks, i: int, bytes: Seq<u8>)
        requires
            before.wf(),
            0 <= i < before.num_blocks,
            bytes.len() == before.block_size,
            after.data@ == before.data@.subrange(0, before.block_start(i)) + bytes
                + before.data@.subrange(before.block_start(i + 1), before.data@.len() as int),
            after.errors@.len() == before.errors@.len(),
            after.block_size == before.block_size,
            after.start_offset == before.start_offset,
            after.base_address == before.base_address,
            after.num_blocks == before.num_blocks,
        ensures
            after.wf(),
            after.data@.len() == before.data@.len(),
            after.block_view(i) == bytes,
            forall|k: int|
                0 <= k < before.num_blocks && k != i ==> #[trigger] after.block_view(k)
                    == before.block_view(k),
    {
        before.lemma_block_bounds(i);
        let start = before.block_start(i);
        let end = before.block_start(i + 1);
        assert(after.data@.len() == before.data@.len());
        assert(after.block_view(i) =~= bytes);
        assert forall|k: int| 0 <= k < before.num_blocks && k != i implies #[trigger]
            after.block_view(k) == before.block_view(k) by {
            before.lemma_block_bounds(k);
            if k < i {
                lemma_mul_le(k + 1, i, before.block_size as int);
            } else {
                lemma_mul_le(i + 1, k, before.block_size as int);
            }
            assert(after.block_view(k) =~= before.block_view(k));
        }
    }

    /// Allocates zeroed storage for `num_blocks` blocks of `block_size` bytes
    /// and `mem_align` bytes of padding, and places the payload on the first
    /// address of the allocation that is a multiple of `mem_align`.
    pub fn new(block_size: usize, num_blocks: usize, mem_align: usize) -> (blocks: Blocks)
        requires
            num_blocks * block_size + mem_align <= usize::MAX,
        ensures
            blocks.wf(),
            blocks.block_size == block_size,
            blocks.num_blocks == num_blocks,
            blocks.padding() == mem_align,
            mem_align == 0 ==> blocks.start_offset == 0,
            mem_align > 0 ==> blocks.start_offset < mem_align && is_aligned(
                blocks.base_address + blocks.start_offset,
                mem_align as int,
            ),
            forall|k: int| 0 <= k < blocks.data@.len() ==> blocks.data@[k] == 0u8,
            forall|i: int| 0 <= i < num_blocks ==> blocks.errors@[i] == IoError::NoError,
    {
        let data: Vec<u8> = vec![0u8; num_blocks * block_size + mem_align];
        let base_address = base_address(&data);
        let start_offset = alignment_offset(base_address, mem_align);
        Blocks {
            data,
            errors: vec![IoError::NoError; num_blocks],
            block_size,
            start_offset,
            base_address,
            num_blocks,
        }
    }

    /// The offset in `data` at which block `i` starts; for `i == num_blocks`,
    /// where the payload ends.
    pub fn block_offset(&self, i: usize) -> (offset: usize)
        requires
            self.wf(),
            i <= self.num_blocks,
        ensures
            offset == self.block_start(i as int),
            offset <= self.data@.len(),
    {
        proof {
            let payload = self.num_blocks * self.block_size;
            lemma_mul_le(i as int, self.num_blocks as int, self.block_size as int);
            lemma_mul_le(0, i as int, self.block_size as int);
            assert(0 <= i * self.block_size <= payload);
            assert(self.start_offset + payload <= self.data@.len());
            assert(self.data@.len() == self.data.len());
        }
        self.start_offset + i * self.block_size
    }

    /// The range of `data` that holds block `i`.
    pub fn block_range(&self, i: usize) -> (range: core::ops::Range<usize>)
        requires
            self.wf(),
            i < self.num_blocks,
        ensures
            range.start == self.block_start(i as int),
            range.end == self.block_start(i + 1),
            range.end - range.start == self.block_size,
            range.end <= self.data@.len(),
    {
        proof {
            self.lemma_block_bounds(i as int);
        }
        self.block_offset(i)..self.block_offset(i + 1)
    }

    /// Block `i`, to read.
    pub fn block(&self, i: usize) -> (block: &[u8])
        requires
            self.wf(),
            i < self.num_blocks,
        ensures
            block@ == self.block_view(i as int),
            block@.len() == self.block_size,
    {
        let range = self.block_range(i);
        vstd::slice::slice_subrange(self.data.as_slice(), range.start, range.end)
    }

    /// Block `i`, to fill. Whatever the caller writes through the returned
    /// slice replaces that block and nothing else.
    pub fn block_mut(&mut self, i: usize) -> (block: &mut [u8])
        requires
            old(self).wf(),
            i < old(self).num_blocks,
        ensures
            block@ == old(self).block_view(i as int),
            block@.len() == old(self).block_size,
            final(self).data@ == old(self).data@.subrange(0, old(self).block_start(i as int))
                + final(block)@ + old(self).data@.subrange(
                old(self).block_start(i + 1),
                old(self).data@.len() as int,
            ),
            final(self).errors == old(self).errors,
            final(self).block_size == old(self).block_size,
            final(self).start_offset == old(self).start_offset,
            final(self).base_address == old(self).base_address,
            final(self).num_blocks == old(self).num_blocks,
    {
        let range = self.block_range(i);
        let all = self.data.as_mut_slice();
        let (_head, rest) = all.split_at_mut(range.start);
        let (block, _tail) = rest.split_at_mut(range.end - range.start);
        block
    }

    /// The whole of the padded storage, to fill.
    pub fn data_mut(&mut self) -> (data: &mut [u8])
        ensures
            data@ == old(self).data@,
            final(self).data@ == final(data)@,
            final(self).errors == old(self).errors,
            final(self).block_size == old(self).block_size,
            final(self).start_offset == old(self).start_offset,
            final(self).base_address == old(self).base_address,
            final(self).num_blocks == old(self).num_blocks,
    {
        self.data.as_mut_slice()
    }
}

/// The address at which the storage of `data` starts, as `Vec::as_ptr`
/// reports it. Nothing is claimed of the value: the allocator chooses it.
#[verifier::external_body]
fn base_address(data: &Vec<u8>) -> (address: usize) {
    data.as_ptr() as usize
}

} // verus!

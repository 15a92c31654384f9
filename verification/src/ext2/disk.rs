//! The block device and superblock adapter the inode engine works on: block
//! read and write primitives and the allocation bitmap.

use vstd::prelude::*;
use crate::errno::Errno;

verus! {

/// The size of a device sector in bytes.
pub const SECTOR_SIZE: u32 = 512;

/// A sequence of `n` zero bytes.
pub open spec fn zero_bytes(n: int) -> Seq<u8> {
    Seq::new(n as nat, |i: int| 0u8)
}

/// The 32-bit little-endian word at index `idx` of block `blk`.
pub open spec fn word_at(blocks: Seq<Vec<u8>>, blk: int, idx: int) -> u32 {
    let b = blocks[blk]@;
    (b[4 * idx] as u32) | ((b[4 * idx + 1] as u32) << 8) | ((b[4 * idx + 2] as u32) << 16)
        | ((b[4 * idx + 3] as u32) << 24)
}

/// The filesystem's block device together with the superblock state the
/// inode engine consumes: the block size, the 64-bit size feature flag, the
/// blocks themselves and the allocation bitmap. Block 0 is reserved, so
/// that a block pointer of 0 can mean "unallocated".
pub struct Disk {
    /// The size of a block in bytes.
    pub block_size: u32,
    /// Whether the filesystem stores 64-bit file sizes.
    pub size64: bool,
    /// The content of each block; an unallocated block holds no bytes.
    pub blocks: Vec<Vec<u8>>,
    /// The allocation bitmap: `used[b]` tells whether block `b` is in use.
    pub used: Vec<bool>,
    /// Where the next search for a free block starts.
    pub free_hint: u32,
}

impl Disk {
    /// The device invariant: bitmap and blocks in step, block 0 reserved,
    /// allocated blocks exactly `block_size` bytes long, a block size that
    /// is a multiple of 4 in `64..=65536`, and valid hint.
    pub open spec fn wf(self) -> bool {
        &&& self.blocks.len() == self.used.len()
        &&& 1 <= self.blocks.len() <= u32::MAX
        &&& self.used[0] == true
        &&& forall|b: int| 0 <= b < self.used.len()
            ==> (#[trigger] self.blocks[b]).len() == (if self.used[b] {
                self.block_size as int
            } else {
                0
            })
        &&& self.block_size % 4 == 0
        &&& 64 <= self.block_size <= 65536
        &&& self.free_hint <= self.blocks.len()
    }

    /// The number of 32-bit block pointers an indirection block holds.
    pub open spec fn epb_spec(self) -> int {
        self.block_size as int / 4
    }

    /// Whether `b` names an allocated block of the device.
    pub open spec fn block_ok(self, b: u32) -> bool {
        0 < b < self.used.len() && self.used[b as int]
    }

    /// Creates an in-memory device of `total_blocks` blocks of
    /// `block_size` bytes, all free except the reserved block 0.
    pub fn new(block_size: u32, total_blocks: u32, size64: bool) -> (d: Disk)
        requires
            block_size % 4 == 0,
            64 <= block_size <= 65536,
            1 <= total_blocks,
        ensures
            d.wf(),
            d.block_size == block_size,
            d.size64 == size64,
            d.blocks.len() == total_blocks,
            forall|b: int| 0 < b < total_blocks ==> !d.used[b],
    {
        let mut blocks: Vec<Vec<u8>> = Vec::new();
        let mut used: Vec<bool> = Vec::new();
        let mut zero: Vec<u8> = Vec::new();
        let mut i: u32 = 0;
        while i < block_size
            invariant
                i <= block_size,
                zero.len() == i,
            decreases block_size - i,
        {
            zero.push(0u8);
            i += 1;
        }
        blocks.push(zero);
        used.push(true);
        let mut b: u32 = 1;
        while b < total_blocks
            invariant
                1 <= b <= total_blocks,
                blocks.len() == b,
                used.len() == b,
                blocks[0].len() == block_size,
                used[0] == true,
                forall|j: int| 0 < j < b ==> !(#[trigger] used[j]),
                forall|j: int| 0 < j < b ==> (#[trigger] blocks[j]).len() == 0,
            decreases total_blocks - b,
        {
            blocks.push(Vec::new());
            used.push(false);
            b += 1;
        }
        Disk { block_size, size64, blocks, used, free_hint: 1 }
    }

    /// Returns the size of a block in bytes.
    pub fn get_block_size(&self) -> (r: u32)
        ensures
            r == self.block_size,
    {
        self.block_size
    }

    /// Returns the number of device sectors a block covers.
    pub fn sectors_per_block(&self) -> (r: u32)
        requires
            self.wf(),
        ensures
            r == (self.block_size + SECTOR_SIZE - 1) as int / SECTOR_SIZE as int,
            1 <= r <= 128,
    {
        (self.block_size + SECTOR_SIZE - 1) / SECTOR_SIZE
    }

    /// Finds a free block. Fails with `NoSpace` if and only if every block
    /// of the device is in use.
    pub fn get_free_block(&self) -> (r: Result<u32, Errno>)
        requires
            self.wf(),
        ensures
            r matches Ok(b) ==> 0 < b < self.blocks.len() && !self.used[b as int],
            r is Err <==> (forall|b: int| 0 < b < self.used.len() ==> self.used[b]),
            r is Err ==> r == Result::<u32, Errno>::Err(Errno::NoSpace),
    {
        let n: usize = self.used.len();
        let start: usize = self.free_hint as usize;
        let mut b: usize = start;
        while b < n
            invariant
                start <= b <= n,
                n == self.used.len(),
                self.wf(),
                forall|j: int| start <= j < b ==> self.used[j],
            decreases n - b,
        {
            if !self.used[b] {
                return Ok(b as u32);
            }
            b += 1;
        }
        let mut b: usize = 1;
        while b < start
            invariant
                1 <= b <= start || b == 1,
                b <= n,
                start <= n,
                n == self.used.len(),
                self.wf(),
                forall|j: int| start <= j < n ==> self.used[j],
                forall|j: int| 1 <= j < b ==> self.used[j],
            decreases start - b,
        {
            if !self.used[b] {
                return Ok(b as u32);
            }
            b += 1;
        }
        Err(Errno::NoSpace)
    }

    /// Marks block `blk` used in the bitmap and zero-fills its content.
    pub fn mark_block_used(&mut self, blk: u32)
        requires
            old(self).wf(),
            0 < blk < old(self).blocks.len(),
            !old(self).used[blk as int],
        ensures
            final(self).wf(),
            final(self).used@ == old(self).used@.update(blk as int, true),
            final(self).blocks@.len() == old(self).blocks@.len(),
            final(self).blocks@ == old(self).blocks@.update(
                blk as int,
                final(self).blocks@[blk as int],
            ),
            final(self).blocks@[blk as int]@ == zero_bytes(old(self).block_size as int),
            final(self).block_size == old(self).block_size,
            final(self).size64 == old(self).size64,
    {
        let mut zero: Vec<u8> = Vec::new();
        let mut i: u32 = 0;
        while i < self.block_size
            invariant
                i <= self.block_size,
                zero.len() == i,
                forall|j: int| 0 <= j < i ==> zero[j] == 0u8,
            decreases self.block_size - i,
        {
            zero.push(0u8);
            i += 1;
        }
        proof {
            assert(zero@ =~= zero_bytes(self.block_size as int));
        }
        self.used.set(blk as usize, true);
        let _ = self.blocks.remove(blk as usize);
        self.blocks.insert(blk as usize, zero);
        if blk + 1 <= self.blocks.len() as u32 {
            self.free_hint = blk + 1;
        }
        proof {
            assert(self.blocks@ =~= old(self).blocks@.update(blk as int, self.blocks@[blk as int]));
        }
    }

    /// Frees block `blk`: clears its bitmap bit and drops its content.
    pub fn free_block(&mut self, blk: u32)
        requires
            old(self).wf(),
            0 < blk < old(self).blocks.len(),
            old(self).used[blk as int],
        ensures
            final(self).wf(),
            final(self).used@ == old(self).used@.update(blk as int, false),
            final(self).blocks@ == old(self).blocks@.update(
                blk as int,
                final(self).blocks@[blk as int],
            ),
            final(self).blocks@[blk as int]@.len() == 0,
            final(self).block_size == old(self).block_size,
            final(self).size64 == old(self).size64,
    {
        self.used.set(blk as usize, false);
        let _ = self.blocks.remove(blk as usize);
        self.blocks.insert(blk as usize, Vec::new());
        if blk < self.free_hint {
            self.free_hint = blk;
        }
        proof {
            assert(self.blocks@ =~= old(self).blocks@.update(blk as int, self.blocks@[blk as int]));
        }
    }

    /// Reads the content of the allocated block `blk`.
    pub fn read_block(&self, blk: u32) -> (r: Vec<u8>)
        requires
            self.wf(),
            self.block_ok(blk),
        ensures
            r@ == self.blocks@[blk as int]@,
            r.len() == self.block_size,
    {
        let mut out: Vec<u8> = Vec::new();
        let src = &self.blocks[blk as usize];
        let mut i: usize = 0;
        while i < src.len()
            invariant
                i <= src.len(),
                out.len() == i,
                src == &self.blocks[blk as int],
                forall|j: int| 0 <= j < i ==> out[j] == src[j],
            decreases src.len() - i,
        {
            out.push(src[i]);
            i += 1;
        }
        proof {
            assert(out@ =~= self.blocks@[blk as int]@);
        }
        out
    }

    /// Overwrites the content of the allocated block `blk` with `data`.
    pub fn write_block(&mut self, blk: u32, data: &Vec<u8>)
        requires
            old(self).wf(),
            old(self).block_ok(blk),
            data.len() == old(self).block_size,
        ensures
            final(self).wf(),
            final(self).blocks@ == old(self).blocks@.update(blk as int, final(self).blocks@[blk as int]),
            final(self).blocks@[blk as int]@ == data@,
            final(self).used == old(self).used,
            final(self).block_size == old(self).block_size,
            final(self).size64 == old(self).size64,
            final(self).free_hint == old(self).free_hint,
    {
        let mut copy: Vec<u8> = Vec::new();
        let mut i: usize = 0;
        while i < data.len()
            invariant
                i <= data.len(),
                copy.len() == i,
                forall|j: int| 0 <= j < i ==> copy[j] == data[j],
            decreases data.len() - i,
        {
            copy.push(data[i]);
            i += 1;
        }
        proof {
            assert(copy@ =~= data@);
        }
        let _ = self.blocks.remove(blk as usize);
        self.blocks.insert(blk as usize, copy);
        proof {
            assert(self.blocks@ =~= old(self).blocks@.update(blk as int, self.blocks@[blk as int]));
        }
    }

    /// Reads the 32-bit little-endian block pointer at index `idx` of the
    /// indirection block `blk`.
    pub fn read_u32(&self, blk: u32, idx: u32) -> (r: u32)
        requires
            self.wf(),
            self.block_ok(blk),
            idx < self.epb_spec(),
        ensures
            r == word_at(self.blocks@, blk as int, idx as int),
    {
        let b = &self.blocks[blk as usize];
        let base: usize = 4 * (idx as usize);
        (b[base] as u32) | ((b[base + 1] as u32) << 8u32) | ((b[base + 2] as u32) << 16u32)
            | ((b[base + 3] as u32) << 24u32)
    }

    /// Writes the 32-bit little-endian block pointer `val` at index `idx`
    /// of the indirection block `blk`.
    pub fn write_u32(&mut self, blk: u32, idx: u32, val: u32)
        requires
            old(self).wf(),
            old(self).block_ok(blk),
            idx < old(self).epb_spec(),
        ensures
            final(self).wf(),
            final(self).blocks@ == old(self).blocks@.update(blk as int, final(self).blocks@[blk as int]),
            final(self).blocks@[blk as int]@.len() == old(self).blocks@[blk as int]@.len(),
            word_at(final(self).blocks@, blk as int, idx as int) == val,
            forall|k: int| 0 <= k < old(self).epb_spec() && k != idx
                ==> word_at(final(self).blocks@, blk as int, k)
                    == word_at(old(self).blocks@, blk as int, k),
            forall|p: int| 0 <= p < old(self).blocks@[blk as int]@.len()
                && !(4 * idx <= p < 4 * idx + 4)
                ==> final(self).blocks@[blk as int]@[p] == old(self).blocks@[blk as int]@[p],
            final(self).used == old(self).used,
            final(self).block_size == old(self).block_size,
            final(self).size64 == old(self).size64,
            final(self).free_hint == old(self).free_hint,
    {
        let mut b = self.read_block(blk);
        let base: usize = 4 * (idx as usize);
        b.set(base, (val & 0xff) as u8);
        b.set(base + 1, ((val >> 8u32) & 0xff) as u8);
        b.set(base + 2, ((val >> 16u32) & 0xff) as u8);
        b.set(base + 3, ((val >> 24u32) & 0xff) as u8);
        self.write_block(blk, &b);
        proof {
            let nb = self.blocks@[blk as int]@;
            let ob = old(self).blocks@[blk as int]@;
            assert((val & 0xff) < 256 && ((val >> 8u32) & 0xff) < 256
                && ((val >> 16u32) & 0xff) < 256 && ((val >> 24u32) & 0xff) < 256) by (bit_vector);
            assert(((val & 0xff) as u8 as u32) | (((val >> 8u32) & 0xff) as u8 as u32) << 8u32
                | (((val >> 16u32) & 0xff) as u8 as u32) << 16u32
                | (((val >> 24u32) & 0xff) as u8 as u32) << 24u32 == val) by (bit_vector);
            assert(word_at(self.blocks@, blk as int, idx as int) == val);
            assert forall|k: int| 0 <= k < old(self).epb_spec() && k != idx
                implies word_at(self.blocks@, blk as int, k)
                    == word_at(old(self).blocks@, blk as int, k) by {
                assert(nb[4 * k] == ob[4 * k]);
                assert(nb[4 * k + 1] == ob[4 * k + 1]);
                assert(nb[4 * k + 2] == ob[4 * k + 2]);
                assert(nb[4 * k + 3] == ob[4 * k + 3]);
            }
        }
    }

    /// Tells whether every byte of the allocated block `blk` is zero.
    pub fn is_blk_empty(&self, blk: u32) -> (r: bool)
        requires
            self.wf(),
            self.block_ok(blk),
        ensures
            r == (self.blocks@[blk as int]@ =~= zero_bytes(self.block_size as int)),
    {
        let b = &self.blocks[blk as usize];
        let mut i: usize = 0;
        while i < b.len()
            invariant
                i <= b.len(),
                b == &self.blocks[blk as int],
                forall|j: int| 0 <= j < i ==> b[j] == 0u8,
            decreases b.len() - i,
        {
            if b[i] != 0 {
                return false;
            }
            i += 1;
        }
        proof {
            assert(self.blocks@[blk as int]@ =~= zero_bytes(self.block_size as int));
        }
        true
    }
}

} // verus!

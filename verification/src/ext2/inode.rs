//! On-disk inodes: file metadata and the translation of logical content
//! block indices into device block numbers through up to three levels of
//! indirection, with read, write, growth and truncation of file content.

use vstd::prelude::*;
use crate::errno::Errno;
use crate::ext2::disk::{word_at, Disk, SECTOR_SIZE};

verus! {

/// The number of direct block pointers of an inode.
pub const DIRECT_BLOCKS_COUNT: u32 = 12;

/// Inode type: FIFO.
pub const INODE_TYPE_FIFO: u16 = 0x1000;
/// Inode type: character device.
pub const INODE_TYPE_CHAR_DEVICE: u16 = 0x2000;
/// Inode type: directory.
pub const INODE_TYPE_DIRECTORY: u16 = 0x4000;
/// Inode type: block device.
pub const INODE_TYPE_BLOCK_DEVICE: u16 = 0x6000;
/// Inode type: regular file.
pub const INODE_TYPE_REGULAR: u16 = 0x8000;
/// Inode type: symbolic link.
pub const INODE_TYPE_SYMLINK: u16 = 0xa000;
/// Inode type: socket.
pub const INODE_TYPE_SOCKET: u16 = 0xc000;

/// The type of the file an inode describes.
#[derive(Clone, Copy, Debug, PartialEq, Eq, Structural)]
pub enum FileType {
    /// A named pipe.
    Fifo,
    /// A character device.
    CharDevice,
    /// A directory.
    Directory,
    /// A block device.
    BlockDevice,
    /// A regular file.
    Regular,
    /// A symbolic link.
    Link,
    /// A socket.
    Socket,
}

/// `e` raised to the power `n`.
pub open spec fn epow(e: int, n: nat) -> int
    decreases n,
{
    if n == 0 {
        1
    } else {
        e * epow(e, (n - 1) as nat)
    }
}

/// The number of indirection levels needed for the logical content block
/// `i`, with `e` pointers per indirection block.
pub open spec fn level_of(i: int, e: int) -> int {
    if i < DIRECT_BLOCKS_COUNT {
        0
    } else if i < DIRECT_BLOCKS_COUNT + e {
        1
    } else if i < DIRECT_BLOCKS_COUNT + e + e * e {
        2
    } else {
        3
    }
}

/// Resolution of `n` levels of indirection starting at block `begin`, for
/// the block at offset `off` below `begin`. `Some(0)` is a hole; `None`
/// means a pointer led outside the allocated blocks of the device.
pub open spec fn resolve_spec(d: Disk, begin: u32, off: int, n: nat) -> Option<u32>
    decreases n,
{
    if begin == 0 {
        Some(0u32)
    } else if n == 0 {
        Some(begin)
    } else if !d.block_ok(begin) {
        None
    } else {
        let stride = epow(d.epb_spec(), (n - 1) as nat);
        resolve_spec(
            d,
            word_at(d.blocks@, begin as int, off / stride),
            off % stride,
            (n - 1) as nat,
        )
    }
}

/// Bounds on the pointers-per-block count of a well-formed device, and the
/// small powers of it that the indirection arithmetic uses.
pub proof fn lemma_epb_bounds(d: Disk)
    requires
        d.wf(),
    ensures
        16 <= d.epb_spec() <= 16384,
        epow(d.epb_spec(), 0) == 1,
        epow(d.epb_spec(), 1) == d.epb_spec(),
        epow(d.epb_spec(), 2) == d.epb_spec() * d.epb_spec(),
        epow(d.epb_spec(), 3) == d.epb_spec() * d.epb_spec() * d.epb_spec(),
        d.epb_spec() * d.epb_spec() <= 0x1000_0000,
        d.epb_spec() * d.epb_spec() * d.epb_spec() <= 0x400_0000_0000,
{
    let e = d.epb_spec();
    vstd::arithmetic::div_mod::lemma_div_is_ordered(64, d.block_size as int, 4);
    vstd::arithmetic::div_mod::lemma_div_is_ordered(d.block_size as int, 65536, 4);
    assert(epow(e, 1) == e * epow(e, 0));
    assert(epow(e, 2) == e * epow(e, 1));
    assert(epow(e, 3) == e * epow(e, 2));
    assert(e * e <= 0x1000_0000 && e * e * e <= 0x400_0000_0000
        && e * epow(e, 1) == epow(e, 1) * e && e * (e * e) == e * e * e)
        by (nonlinear_arith)
        requires 16 <= e <= 16384, epow(e, 1) == e,
    ;
}

/// An ext2 inode: the metadata of one file, with 12 direct block pointers
/// and one singly, one doubly and one triply indirect block pointer. The
/// name of the file is not here but in the directory entries that refer to
/// the inode.
pub struct Ext2INode {
    /// Type and permissions.
    pub mode: u16,
    /// User ID.
    pub uid: u16,
    /// Lower 32 bits of the size in bytes.
    pub size_low: u32,
    /// Timestamp of the last metadata change.
    pub ctime: u32,
    /// Timestamp of the last content change.
    pub mtime: u32,
    /// Timestamp of the last access.
    pub atime: u32,
    /// Timestamp of deletion.
    pub dtime: u32,
    /// Group ID.
    pub gid: u16,
    /// The number of hard links to the inode.
    pub hard_links_count: u16,
    /// The number of 512-byte sectors backing the content, indirection
    /// blocks included.
    pub used_sectors: u32,
    /// Inode flags.
    pub flags: u32,
    /// Direct pointers to the first content blocks.
    pub direct_block_ptrs: Vec<u32>,
    /// Pointer to a block of pointers to content blocks.
    pub singly_indirect_block_ptr: u32,
    /// Pointer to a block of pointers to singly indirect blocks.
    pub doubly_indirect_block_ptr: u32,
    /// Pointer to a block of pointers to doubly indirect blocks.
    pub triply_indirect_block_ptr: u32,
    /// Generation number.
    pub generation: u32,
    /// The block of extended attributes.
    pub extended_attributes_block: u32,
    /// Higher 32 bits of the size in bytes.
    pub size_high: u32,
    /// Block address of a fragment.
    pub fragment_addr: u32,
}

impl Ext2INode {
    /// The structural invariant: exactly 12 direct block pointers.
    pub open spec fn wf(self) -> bool {
        self.direct_block_ptrs.len() == DIRECT_BLOCKS_COUNT
    }

    /// The number of content blocks addressable through the inode on `d`.
    pub open spec fn max_blocks(d: Disk) -> int {
        let e = d.epb_spec();
        DIRECT_BLOCKS_COUNT + e + e * e + e * e * e
    }

    /// The device block that backs the logical content block `i`:
    /// `Some(0)` if `i` is a hole, `None` if a pointer on the way is
    /// corrupt.
    pub open spec fn lookup_spec(self, d: Disk, i: int) -> Option<u32> {
        let e = d.epb_spec();
        if i < DIRECT_BLOCKS_COUNT {
            Some(self.direct_block_ptrs[i])
        } else if i < DIRECT_BLOCKS_COUNT + e {
            resolve_spec(d, self.singly_indirect_block_ptr, i - DIRECT_BLOCKS_COUNT, 1)
        } else if i < DIRECT_BLOCKS_COUNT + e + e * e {
            resolve_spec(d, self.doubly_indirect_block_ptr, i - DIRECT_BLOCKS_COUNT - e, 2)
        } else {
            resolve_spec(
                d,
                self.triply_indirect_block_ptr,
                i - DIRECT_BLOCKS_COUNT - e - e * e,
                3,
            )
        }
    }

    /// Whether the byte position `pos` of the content can be read: its
    /// block resolves to a hole or to an allocated block.
    pub open spec fn pos_ok(self, d: Disk, pos: int) -> bool {
        match self.lookup_spec(d, pos / d.block_size as int) {
            Some(blk) => blk == 0 || d.block_ok(blk),
            None => false,
        }
    }

    /// The byte of the file content at position `pos`: a byte of the
    /// backing block, or zero inside a hole.
    pub open spec fn byte_at(self, d: Disk, pos: int) -> u8 {
        match self.lookup_spec(d, pos / d.block_size as int) {
            Some(blk) => if blk == 0 {
                0u8
            } else {
                d.blocks[blk as int]@[pos % d.block_size as int]
            },
            None => 0u8,
        }
    }

    /// The file size in bytes recorded in the inode: both halves on a
    /// filesystem with 64-bit sizes, the low half alone otherwise.
    pub open spec fn size_spec(self, d: Disk) -> int {
        if d.size64 {
            self.size_high * 0x1_0000_0000 + self.size_low
        } else {
            self.size_low as int
        }
    }

    /// Returns the byte offset of inode `i` on the disk. Inode numbering
    /// starts at 1; `inodes_per_group` and `inode_size` come from the
    /// superblock and `inode_table_start` from the descriptor of the block
    /// group the inode belongs to. Fails with `InvalidArgument` if and
    /// only if `i` is 0.
    pub fn get_disk_offset(
        i: u32,
        inodes_per_group: u32,
        inode_size: u16,
        block_size: u32,
        inode_table_start: u32,
    ) -> (r: Result<u64, Errno>)
        requires
            inodes_per_group > 0,
            64 <= block_size <= 65536,
        ensures
            (i == 0) <==> (r == Result::<u64, Errno>::Err(Errno::InvalidArgument)),
            r is Err ==> r == Result::<u64, Errno>::Err(Errno::InvalidArgument),
            r matches Ok(off) ==> off == ({
                let idx = i - 1;
                let table_blk_off = (idx as int % inodes_per_group as int)
                    * inode_size as int / block_size as int;
                let inode_blk_off = (idx as int * inode_size as int) % block_size as int;
                (inode_table_start + table_blk_off) * block_size as int + inode_blk_off
            }),
    {
        if i == 0 {
            return Err(Errno::InvalidArgument);
        }
        let idx: u64 = (i - 1) as u64;
        proof {
            vstd::arithmetic::div_mod::lemma_mod_bound(idx as int, inodes_per_group as int);
            assert((idx as int % inodes_per_group as int) * inode_size as int
                <= 0x1_0000_0000int * 0x1_0000) by (nonlinear_arith)
                requires
                    0 <= idx as int % inodes_per_group as int <= 0xFFFF_FFFF,
                    inode_size <= 0xFFFF,
            ;
            assert(0 <= (idx as int % inodes_per_group as int) * inode_size as int)
                by (nonlinear_arith)
                requires 0 <= idx as int % inodes_per_group as int, 0 <= inode_size,
            ;
            assert(0 <= idx as int * inode_size as int <= 0xFFFF_FFFFint * 0xFFFF)
                by (nonlinear_arith)
                requires idx <= 0xFFFF_FFFF, inode_size <= 0xFFFF,
            ;
        }
        // The offset of the inode's block within the group's inode table.
        let table_blk_off: u64 = (idx % inodes_per_group as u64) * inode_size as u64
            / block_size as u64;
        // The offset of the inode within its block.
        let inode_blk_off: u64 = (idx * inode_size as u64) % block_size as u64;
        proof {
            vstd::arithmetic::div_mod::lemma_div_is_ordered(
                (idx as int % inodes_per_group as int) * inode_size as int,
                0x1_0000_0000int * 0x1_0000,
                block_size as int,
            );
            vstd::arithmetic::div_mod::lemma_div_is_ordered_by_denominator(
                0x1_0000_0000int * 0x1_0000,
                64,
                block_size as int,
            );
            vstd::arithmetic::div_mod::lemma_mod_bound(
                idx as int * inode_size as int,
                block_size as int,
            );
            assert(0 <= (inode_table_start as int + table_blk_off as int) * block_size as int
                <= 0x500_0000_0000int * 0x1_0000) by (nonlinear_arith)
                requires
                    0 <= table_blk_off as int <= 0x400_0000_0000,
                    inode_table_start <= 0xFFFF_FFFF,
                    0 < block_size <= 0x1_0000,
            ;
        }
        let blk: u64 = inode_table_start as u64 + table_blk_off;
        Ok(blk * block_size as u64 + inode_blk_off)
    }

    /// Returns the mode word combining `file_type` and the permission bits
    /// of `mode`.
    pub fn get_file_mode(file_type: FileType, mode: u16) -> (r: u16)
        ensures
            r == (mode | (match file_type {
                FileType::Fifo => INODE_TYPE_FIFO,
                FileType::CharDevice => INODE_TYPE_CHAR_DEVICE,
                FileType::Directory => INODE_TYPE_DIRECTORY,
                FileType::BlockDevice => INODE_TYPE_BLOCK_DEVICE,
                FileType::Regular => INODE_TYPE_REGULAR,
                FileType::Link => INODE_TYPE_SYMLINK,
                FileType::Socket => INODE_TYPE_SOCKET,
            })),
    {
        let t = match file_type {
            FileType::Fifo => INODE_TYPE_FIFO,
            FileType::CharDevice => INODE_TYPE_CHAR_DEVICE,
            FileType::Directory => INODE_TYPE_DIRECTORY,
            FileType::BlockDevice => INODE_TYPE_BLOCK_DEVICE,
            FileType::Regular => INODE_TYPE_REGULAR,
            FileType::Link => INODE_TYPE_SYMLINK,
            FileType::Socket => INODE_TYPE_SOCKET,
        };
        mode | t
    }

    /// The file type encoded in the mode word; an unknown encoding reads
    /// as a regular file.
    pub open spec fn type_spec(self) -> FileType {
        let t = self.mode & 0xf000;
        if t == INODE_TYPE_FIFO {
            FileType::Fifo
        } else if t == INODE_TYPE_CHAR_DEVICE {
            FileType::CharDevice
        } else if t == INODE_TYPE_DIRECTORY {
            FileType::Directory
        } else if t == INODE_TYPE_BLOCK_DEVICE {
            FileType::BlockDevice
        } else if t == INODE_TYPE_SYMLINK {
            FileType::Link
        } else if t == INODE_TYPE_SOCKET {
            FileType::Socket
        } else {
            FileType::Regular
        }
    }

    /// Returns the type of the file.
    pub fn get_type(&self) -> (r: FileType)
        ensures
            r == self.type_spec(),
    {
        let t = self.mode & 0xf000;
        if t == INODE_TYPE_FIFO {
            FileType::Fifo
        } else if t == INODE_TYPE_CHAR_DEVICE {
            FileType::CharDevice
        } else if t == INODE_TYPE_DIRECTORY {
            FileType::Directory
        } else if t == INODE_TYPE_BLOCK_DEVICE {
            FileType::BlockDevice
        } else if t == INODE_TYPE_SYMLINK {
            FileType::Link
        } else if t == INODE_TYPE_SOCKET {
            FileType::Socket
        } else {
            FileType::Regular
        }
    }

    /// Returns the permission bits of the file.
    pub fn get_permissions(&self) -> (r: u16)
        ensures
            r == self.mode & 0x0fff,
    {
        self.mode & 0x0fff
    }

    /// Sets the permission bits of the file to those of `perm`, leaving
    /// the type bits untouched.
    pub fn set_permissions(&mut self, perm: u16)
        ensures
            final(self).mode == (old(self).mode & 0xf000) | (perm & 0x0fff),
            *final(self) == (Ext2INode { mode: final(self).mode, ..*old(self) }),
    {
        self.mode = (self.mode & 0xf000) | (perm & 0x0fff);
    }

    /// Returns the file size in bytes.
    pub fn get_size(&self, d: &Disk) -> (r: u64)
        ensures
            r == self.size_spec(*d),
    {
        if d.size64 {
            let r = ((self.size_high as u64) << 32u64) | (self.size_low as u64);
            proof {
                let hi = self.size_high;
                let lo = self.size_low;
                assert(((hi as u64) << 32u64) | (lo as u64)
                    == (hi as u64) * 0x1_0000_0000 + (lo as u64)) by (bit_vector);
            }
            r
        } else {
            self.size_low as u64
        }
    }

    /// Records `size` as the file size. On a filesystem without 64-bit
    /// sizes the size must fit in 32 bits.
    pub fn set_size(&mut self, d: &Disk, size: u64)
        requires
            d.size64 || size <= u32::MAX,
        ensures
            final(self).size_spec(*d) == size,
            *final(self) == (Ext2INode {
                size_low: final(self).size_low,
                size_high: final(self).size_high,
                ..*old(self)
            }),
    {
        if d.size64 {
            self.size_high = (size >> 32u64) as u32;
            self.size_low = size as u32;
            proof {
                assert(((size >> 32u64) as u32) * 0x1_0000_0000 + (size as u32) == size)
                    by (bit_vector);
            }
        } else {
            self.size_low = size as u32;
        }
    }

    /// Turns a block pointer into an option: 0 means "no block".
    pub fn blk_offset_to_option(blk: u32) -> (r: Option<u32>)
        ensures
            r == (if blk != 0 { Some(blk) } else { Option::<u32>::None }),
    {
        if blk != 0 {
            Some(blk)
        } else {
            None
        }
    }

    /// Returns the number of indirection levels for the content block
    /// offset `off`, with `entries_per_blk` pointers per block.
    pub fn get_content_blk_indirections_count(off: u32, entries_per_blk: u32) -> (r: u8)
        requires
            16 <= entries_per_blk <= 16384,
        ensures
            r == level_of(off as int, entries_per_blk as int),
            r <= 3,
    {
        proof {
            assert((entries_per_blk as u64) * (entries_per_blk as u64) <= 0x1000_0000)
                by (nonlinear_arith)
                requires entries_per_blk <= 16384,
            ;
        }
        if off < DIRECT_BLOCKS_COUNT {
            0
        } else if off < DIRECT_BLOCKS_COUNT + entries_per_blk {
            1
        } else if (off as u64)
            < DIRECT_BLOCKS_COUNT as u64 + entries_per_blk as u64
                + (entries_per_blk as u64) * (entries_per_blk as u64) {
            2
        } else {
            3
        }
    }

    /// Resolves `n` levels of block indirection from block `begin` for the
    /// offset `off`. Returns the backing block, `None` for a hole, and
    /// fails with `IOError` if and only if a pointer on the way leads
    /// outside the allocated blocks of the device.
    pub fn resolve_indirections(n: u8, begin: u32, off: u32, d: &Disk)
        -> (r: Result<Option<u32>, Errno>)
        requires
            d.wf(),
            n <= 3,
            off < epow(d.epb_spec(), n as nat),
        ensures
            match resolve_spec(*d, begin, off as int, n as nat) {
                Some(b) => r == Result::<Option<u32>, Errno>::Ok(
                    if b != 0 { Some(b) } else { None },
                ),
                None => r == Result::<Option<u32>, Errno>::Err(Errno::IOError),
            },
        decreases n,
    {
        if begin == 0 {
            return Ok(None);
        }
        if n == 0 {
            return Ok(Some(begin));
        }
        if !((begin as usize) < d.used.len() && d.used[begin as usize]) {
            return Err(Errno::IOError);
        }
        proof {
            lemma_epb_bounds(*d);
        }
        let e: u32 = d.block_size / 4;
        let stride: u32 = if n == 1 {
            1
        } else if n == 2 {
            e
        } else {
            e * e
        };
        proof {
            let ee = d.epb_spec();
            assert(stride == epow(ee, (n - 1) as nat));
            assert((off as int) < (stride as int) * ee) by {
                assert(epow(ee, n as nat) == ee * epow(ee, (n - 1) as nat));
                vstd::arithmetic::mul::lemma_mul_is_commutative(stride as int, ee);
            }
            vstd::arithmetic::div_mod::lemma_multiply_divide_lt(
                off as int,
                stride as int,
                ee,
            );
            vstd::arithmetic::div_mod::lemma_mod_division_less_than_divisor(
                off as int,
                stride as int,
            );
            vstd::arithmetic::div_mod::lemma_mod_bound(off as int, stride as int);
        }
        let inner: u32 = off / stride;
        let next: u32 = off % stride;
        let b = d.read_u32(begin, inner);
        Self::resolve_indirections(n - 1, b, next, d)
    }

    /// Returns the device block backing the content block `i` of the
    /// inode, or `None` if `i` is a hole. Fails with `IOError` if and only
    /// if a block pointer on the way is corrupt.
    pub fn get_content_block_off(&self, i: u32, d: &Disk) -> (r: Result<Option<u32>, Errno>)
        requires
            self.wf(),
            d.wf(),
            (i as int) < Self::max_blocks(*d),
        ensures
            match self.lookup_spec(*d, i as int) {
                Some(b) => r == Result::<Option<u32>, Errno>::Ok(
                    if b != 0 { Some(b) } else { None },
                ),
                None => r == Result::<Option<u32>, Errno>::Err(Errno::IOError),
            },
    {
        proof {
            lemma_epb_bounds(*d);
        }
        let e: u32 = d.block_size / 4;
        let level = Self::get_content_blk_indirections_count(i, e);
        if level == 0 {
            return Ok(Self::blk_offset_to_option(self.direct_block_ptrs[i as usize]));
        }
        let begin: u32;
        let target: u32;
        if level == 1 {
            begin = self.singly_indirect_block_ptr;
            target = i - DIRECT_BLOCKS_COUNT;
        } else if level == 2 {
            begin = self.doubly_indirect_block_ptr;
            target = i - DIRECT_BLOCKS_COUNT - e;
        } else {
            begin = self.triply_indirect_block_ptr;
            target = i - DIRECT_BLOCKS_COUNT - e - e * e;
        }
        Self::resolve_indirections(level, begin, target, d)
    }
}

impl Ext2INode {
    /// Whether the sizes recorded in the inode stay within what the device
    /// and 32-bit block indices can address.
    pub open spec fn size_addressable(self, d: Disk) -> bool {
        &&& self.size_spec(d) <= Self::max_blocks(d) * d.block_size
        &&& self.size_spec(d) <= 0xFFFF_FFFF * d.block_size as int
    }

    /// Reads the content of the inode from byte offset `off` into the
    /// first bytes of `buff` and returns how many bytes were read: the
    /// length of `buff`, clamped to the end of the file. Reading past the
    /// end of the file reads 0 bytes; a start offset beyond the file fails
    /// with `InvalidArgument`, and a corrupt block pointer with `IOError`.
    pub fn read_content(&self, off: u64, buff: &mut Vec<u8>, d: &Disk) -> (r: Result<u64, Errno>)
        requires
            self.wf(),
            d.wf(),
            self.size_addressable(*d),
        ensures
            final(buff).len() == old(buff).len(),
            (off > self.size_spec(*d)) <==> (r == Result::<u64, Errno>::Err(
                Errno::InvalidArgument,
            )),
            r matches Ok(cnt) ==> {
                let want = vstd::math::min(
                    old(buff).len() as int,
                    self.size_spec(*d) - off,
                );
                &&& cnt == want
                &&& forall|j: int| 0 <= j < cnt ==> final(buff)[j] == self.byte_at(*d, off + j)
                &&& forall|j: int| cnt <= j < final(buff).len() ==> final(buff)[j] == old(buff)[j]
            },
            r is Err ==> r == Result::<u64, Errno>::Err(Errno::InvalidArgument)
                || r == Result::<u64, Errno>::Err(Errno::IOError),
            (off <= self.size_spec(*d) && forall|j: int|
                0 <= j < vstd::math::min(old(buff).len() as int, self.size_spec(*d) - off)
                    ==> #[trigger] self.pos_ok(*d, off + j)) ==> r is Ok,
    {
        let size = self.get_size(d);
        if off > size {
            return Err(Errno::InvalidArgument);
        }
        let bs: u64 = d.block_size as u64;
        let maxlen: u64 = if (buff.len() as u64) < size - off {
            buff.len() as u64
        } else {
            size - off
        };
        let mut j: u64 = 0;
        while j < maxlen
            invariant
                j <= maxlen,
                self.wf(),
                d.wf(),
                self.size_addressable(*d),
                bs == d.block_size,
                off + maxlen <= self.size_spec(*d) || maxlen <= buff.len(),
                off + maxlen <= self.size_spec(*d),
                maxlen <= buff.len(),
                buff.len() == old(buff).len(),
                forall|k: int| 0 <= k < j ==> buff[k] == self.byte_at(*d, off + k)
                    && self.pos_ok(*d, off + k),
                forall|k: int| j <= k < buff.len() ==> buff[k] == old(buff)[k],
            decreases maxlen - j,
        {
            let pos: u64 = off + j;
            proof {
                lemma_epb_bounds(*d);
                vstd::arithmetic::div_mod::lemma_div_is_ordered(
                    pos as int,
                    self.size_spec(*d) - 1,
                    bs as int,
                );
                vstd::arithmetic::div_mod::lemma_multiply_divide_lt(
                    self.size_spec(*d) - 1,
                    bs as int,
                    Self::max_blocks(*d),
                );
                vstd::arithmetic::div_mod::lemma_multiply_divide_lt(
                    self.size_spec(*d) - 1,
                    bs as int,
                    0x1_0000_0000,
                );
                vstd::arithmetic::div_mod::lemma_mod_division_less_than_divisor(
                    pos as int,
                    bs as int,
                );
                vstd::arithmetic::div_mod::lemma_mod_bound(pos as int, bs as int);
            }
            let blk_i: u64 = pos / bs;
            let inner: u64 = pos % bs;
            proof {
                assert(blk_i as int == pos as int / d.block_size as int);
                assert(inner as int == pos as int % d.block_size as int);
            }
            match self.get_content_block_off(blk_i as u32, d) {
                Ok(Some(b)) => {
                    if !((b as usize) < d.used.len() && d.used[b as usize]) {
                        proof {
                            assert(!self.pos_ok(*d, pos as int));
                        }
                        return Err(Errno::IOError);
                    }
                    let byte = d.blocks[b as usize][inner as usize];
                    buff.set(j as usize, byte);
                    proof {
                        assert(buff[j as int] == self.byte_at(*d, pos as int));
                        assert(self.pos_ok(*d, pos as int));
                    }
                },
                Ok(None) => {
                    buff.set(j as usize, 0u8);
                    proof {
                        assert(buff[j as int] == self.byte_at(*d, pos as int));
                        assert(self.pos_ok(*d, pos as int));
                    }
                },
                Err(e) => {
                    proof {
                        assert(!self.pos_ok(*d, pos as int));
                    }
                    return Err(e);
                },
            }
            j += 1;
        }
        Ok(maxlen)
    }
}

impl Ext2INode {
    /// Takes `spb` sectors out of the accounting, stopping at zero.
    fn sub_sectors(&mut self, spb: u32)
        ensures
            final(self).used_sectors == (if old(self).used_sectors >= spb {
                (old(self).used_sectors - spb) as u32
            } else {
                0u32
            }),
            *final(self) == (Ext2INode { used_sectors: final(self).used_sectors, ..*old(self) }),
    {
        if self.used_sectors >= spb {
            self.used_sectors = self.used_sectors - spb;
        } else {
            self.used_sectors = 0;
        }
    }

    /// Allocates the missing blocks along `n` levels of indirection below
    /// the allocated block `begin` and returns the data block backing
    /// offset `off`. Newly created blocks are zero-filled, marked used in
    /// the bitmap, counted in `used_sectors`, and their pointers written
    /// into the parent block before descending.
    fn indirections_alloc(&mut self, n: u8, begin: u32, off: u32, d: &mut Disk)
        -> (r: Result<u32, Errno>)
        requires
            old(self).wf(),
            old(d).wf(),
            old(d).block_ok(begin),
            n <= 3,
            off < epow(old(d).epb_spec(), n as nat),
            old(self).used_sectors + 128 * (n as int) <= u32::MAX,
        ensures
            final(self).wf(),
            final(d).wf(),
            final(d).block_size == old(d).block_size,
            final(d).size64 == old(d).size64,
            final(d).blocks.len() == old(d).blocks.len(),
            forall|b2: int| 0 <= b2 < old(d).used.len() && old(d).used[b2]
                ==> final(d).used[b2],
            r matches Ok(b) ==> final(d).block_ok(b),
            r is Err ==> r == Result::<u32, Errno>::Err(Errno::NoSpace)
                || r == Result::<u32, Errno>::Err(Errno::IOError),
            r == Result::<u32, Errno>::Err(Errno::NoSpace)
                ==> (forall|b2: int| 0 < b2 < final(d).used.len()
                    ==> final(d).used[b2]),
            *final(self) == (Ext2INode { used_sectors: final(self).used_sectors, ..*old(self) }),
            old(self).used_sectors <= final(self).used_sectors
                <= old(self).used_sectors + 128 * (n as int),
        decreases n,
    {
        if n == 0 {
            return Ok(begin);
        }
        proof {
            lemma_epb_bounds(*d);
        }
        let e: u32 = d.block_size / 4;
        let stride: u32 = if n == 1 {
            1
        } else if n == 2 {
            e
        } else {
            e * e
        };
        proof {
            let ee = d.epb_spec();
            assert(stride == epow(ee, (n - 1) as nat));
            assert((off as int) < (stride as int) * ee) by {
                assert(epow(ee, n as nat) == ee * epow(ee, (n - 1) as nat));
                vstd::arithmetic::mul::lemma_mul_is_commutative(stride as int, ee);
            }
            vstd::arithmetic::div_mod::lemma_multiply_divide_lt(off as int, stride as int, ee);
            vstd::arithmetic::div_mod::lemma_mod_division_less_than_divisor(
                off as int,
                stride as int,
            );
            vstd::arithmetic::div_mod::lemma_mod_bound(off as int, stride as int);
        }
        let inner: u32 = off / stride;
        let next: u32 = off % stride;
        let mut b = d.read_u32(begin, inner);
        if b == 0 {
            let blk = match d.get_free_block() {
                Ok(blk) => blk,
                Err(e2) => {
                    return Err(e2);
                },
            };
            d.mark_block_used(blk);
            let spb = d.sectors_per_block();
            self.used_sectors = self.used_sectors + spb;
            d.write_u32(begin, inner, blk);
            b = blk;
        } else {
            if !((b as usize) < d.used.len() && d.used[b as usize]) {
                return Err(Errno::IOError);
            }
        }
        self.indirections_alloc(n - 1, b, next, d)
    }

    /// Allocates a backing block for the content block `i` of the inode,
    /// creating intermediate indirection blocks as needed, and returns it.
    /// Fails with `NoSpace` when the device has no free block left and
    /// with `IOError` on a corrupt block pointer.
    pub fn alloc_content_block(&mut self, i: u32, d: &mut Disk) -> (r: Result<u32, Errno>)
        requires
            old(self).wf(),
            old(d).wf(),
            (i as int) < Self::max_blocks(*old(d)),
            old(self).used_sectors + 512 <= u32::MAX,
        ensures
            final(self).wf(),
            final(d).wf(),
            final(d).block_size == old(d).block_size,
            final(d).size64 == old(d).size64,
            final(d).blocks.len() == old(d).blocks.len(),
            forall|b2: int| 0 <= b2 < old(d).used.len() && old(d).used[b2]
                ==> final(d).used[b2],
            r matches Ok(b) ==> final(d).block_ok(b),
            (i as int) < DIRECT_BLOCKS_COUNT ==> (r matches Ok(b) ==> {
                &&& final(self).lookup_spec(*final(d), i as int) == Some(b)
                &&& b != 0
                &&& final(self).direct_block_ptrs@
                    == old(self).direct_block_ptrs@.update(i as int, b)
                &&& final(self).used_sectors == old(self).used_sectors
                    + (old(d).block_size + SECTOR_SIZE - 1) as int / SECTOR_SIZE as int
            }),
            r is Err ==> r == Result::<u32, Errno>::Err(Errno::NoSpace)
                || r == Result::<u32, Errno>::Err(Errno::IOError),
            r == Result::<u32, Errno>::Err(Errno::NoSpace)
                ==> (forall|b2: int| 0 < b2 < final(d).used.len()
                    ==> final(d).used[b2]),
            *final(self) == (Ext2INode {
                direct_block_ptrs: final(self).direct_block_ptrs,
                singly_indirect_block_ptr: final(self).singly_indirect_block_ptr,
                doubly_indirect_block_ptr: final(self).doubly_indirect_block_ptr,
                triply_indirect_block_ptr: final(self).triply_indirect_block_ptr,
                used_sectors: final(self).used_sectors,
                ..*old(self)
            }),
            old(self).used_sectors <= final(self).used_sectors
                <= old(self).used_sectors + 512,
    {
        proof {
            lemma_epb_bounds(*d);
        }
        let e: u32 = d.block_size / 4;
        let level = Self::get_content_blk_indirections_count(i, e);
        if level == 0 {
            let blk = match d.get_free_block() {
                Ok(blk) => blk,
                Err(e2) => {
                    return Err(e2);
                },
            };
            self.direct_block_ptrs.set(i as usize, blk);
            d.mark_block_used(blk);
            let spb = d.sectors_per_block();
            self.used_sectors = self.used_sectors + spb;
            return Ok(blk);
        }
        let begin_id: u32;
        let target: u32;
        if level == 1 {
            begin_id = self.singly_indirect_block_ptr;
            target = i - DIRECT_BLOCKS_COUNT;
        } else if level == 2 {
            begin_id = self.doubly_indirect_block_ptr;
            target = i - DIRECT_BLOCKS_COUNT - e;
        } else {
            begin_id = self.triply_indirect_block_ptr;
            target = i - DIRECT_BLOCKS_COUNT - e - e * e;
        }
        if begin_id != 0 {
            if !((begin_id as usize) < d.used.len() && d.used[begin_id as usize]) {
                return Err(Errno::IOError);
            }
            self.indirections_alloc(level, begin_id, target, d)
        } else {
            let begin = match d.get_free_block() {
                Ok(begin) => begin,
                Err(e2) => {
                    return Err(e2);
                },
            };
            d.mark_block_used(begin);
            let spb = d.sectors_per_block();
            self.used_sectors = self.used_sectors + spb;
            if level == 1 {
                self.singly_indirect_block_ptr = begin;
            } else if level == 2 {
                self.doubly_indirect_block_ptr = begin;
            } else {
                self.triply_indirect_block_ptr = begin;
            }
            self.indirections_alloc(level, begin, target, d)
        }
    }

    /// Frees the backing of the block at offset `off` below `begin`,
    /// through `n` levels of indirection: the data block is freed, its
    /// pointer cleared, and each indirection block that became entirely
    /// zero is freed on the way back up. Returns whether the child of
    /// `begin` along the path was freed. Freeing a hole is a no-op.
    fn indirections_free(&mut self, n: u8, begin: u32, off: u32, d: &mut Disk)
        -> (r: Result<bool, Errno>)
        requires
            old(self).wf(),
            old(d).wf(),
            old(d).block_ok(begin),
            n <= 3,
            off < epow(old(d).epb_spec(), n as nat),
        ensures
            final(self).wf(),
            final(d).wf(),
            final(d).block_size == old(d).block_size,
            final(d).size64 == old(d).size64,
            final(d).blocks.len() == old(d).blocks.len(),
            forall|b2: int| 0 <= b2 < old(d).used.len() && !old(d).used[b2]
                ==> !final(d).used[b2],
            resolve_spec(*old(d), begin, off as int, n as nat) == Some(0u32)
                && n > 0 ==> r == Result::<bool, Errno>::Ok(false)
                    && *final(self) == *old(self) && *final(d) == *old(d),
            r is Err ==> r == Result::<bool, Errno>::Err(Errno::IOError),
            *final(self) == (Ext2INode { used_sectors: final(self).used_sectors, ..*old(self) }),
            final(self).used_sectors <= old(self).used_sectors,
        decreases n,
    {
        if n == 0 {
            d.free_block(begin);
            let spb = d.sectors_per_block();
            self.sub_sectors(spb);
            return Ok(true);
        }
        proof {
            lemma_epb_bounds(*d);
        }
        let e: u32 = d.block_size / 4;
        let stride: u32 = if n == 1 {
            1
        } else if n == 2 {
            e
        } else {
            e * e
        };
        proof {
            let ee = d.epb_spec();
            assert(stride == epow(ee, (n - 1) as nat));
            assert((off as int) < (stride as int) * ee) by {
                assert(epow(ee, n as nat) == ee * epow(ee, (n - 1) as nat));
                vstd::arithmetic::mul::lemma_mul_is_commutative(stride as int, ee);
            }
            vstd::arithmetic::div_mod::lemma_multiply_divide_lt(off as int, stride as int, ee);
            vstd::arithmetic::div_mod::lemma_mod_division_less_than_divisor(
                off as int,
                stride as int,
            );
            vstd::arithmetic::div_mod::lemma_mod_bound(off as int, stride as int);
        }
        let inner: u32 = off / stride;
        let next: u32 = off % stride;
        let b = d.read_u32(begin, inner);
        proof {
            assert(resolve_spec(*d, begin, off as int, n as nat)
                == resolve_spec(*d, b, next as int, (n - 1) as nat));
        }
        if b == 0 {
            return Ok(false);
        }
        if !((b as usize) < d.used.len() && d.used[b as usize]) {
            proof {
                if (n - 1) as nat == 0 {
                    assert(resolve_spec(*d, b, next as int, 0) == Some(b));
                } else {
                    assert(resolve_spec(*d, b, next as int, (n - 1) as nat) is None);
                }
            }
            return Err(Errno::IOError);
        }
        let freed = match self.indirections_free(n - 1, b, next, d) {
            Ok(freed) => freed,
            Err(e2) => {
                return Err(e2);
            },
        };
        if freed {
            if !((begin as usize) < d.used.len() && d.used[begin as usize]) {
                return Err(Errno::IOError);
            }
            d.write_u32(begin, inner, 0);
            if d.is_blk_empty(begin) {
                d.free_block(begin);
                let spb = d.sectors_per_block();
                self.sub_sectors(spb);
                return Ok(true);
            }
        }
        Ok(false)
    }

    /// Frees the backing block of the content block `i`, clearing the
    /// pointer that named it and every indirection block that became
    /// entirely zero, up to the root pointer in the inode. Freeing an
    /// already unallocated block is a no-op.
    pub fn free_content_block(&mut self, i: u32, d: &mut Disk) -> (r: Result<(), Errno>)
        requires
            old(self).wf(),
            old(d).wf(),
            (i as int) < Self::max_blocks(*old(d)),
        ensures
            final(self).wf(),
            final(d).wf(),
            final(d).block_size == old(d).block_size,
            final(d).size64 == old(d).size64,
            final(d).blocks.len() == old(d).blocks.len(),
            forall|b2: int| 0 <= b2 < old(d).used.len() && !old(d).used[b2]
                ==> !final(d).used[b2],
            old(self).lookup_spec(*old(d), i as int) == Some(0u32)
                ==> *final(self) == *old(self) && *final(d) == *old(d)
                    && r == Result::<(), Errno>::Ok(()),
            r is Err ==> r == Result::<(), Errno>::Err(Errno::IOError),
            // A direct block is pinned exactly: success depends only on the
            // pointer being a hole or allocated; its slot ends cleared, the
            // block leaves the bitmap and the sector count.
            (i as int) < DIRECT_BLOCKS_COUNT ==> {
                &&& (r is Ok <==> (old(self).direct_block_ptrs@[i as int] == 0
                    || old(d).block_ok(old(self).direct_block_ptrs@[i as int])))
                &&& (r is Ok ==> final(self).direct_block_ptrs@
                    == old(self).direct_block_ptrs@.update(i as int, 0u32)
                    && final(self).lookup_spec(*final(d), i as int) == Some(0u32))
                &&& ((r is Ok && old(self).direct_block_ptrs@[i as int] != 0) ==> {
                    let b = old(self).direct_block_ptrs@[i as int];
                    let spb = (old(d).block_size + SECTOR_SIZE - 1) as int / SECTOR_SIZE as int;
                    &&& final(d).used@ == old(d).used@.update(b as int, false)
                    &&& final(d).blocks@ == old(d).blocks@.update(
                        b as int,
                        final(d).blocks@[b as int],
                    )
                    &&& final(self).used_sectors == (if old(self).used_sectors >= spb {
                        old(self).used_sectors - spb
                    } else {
                        0
                    })
                })
            },
            (i as int) >= DIRECT_BLOCKS_COUNT
                ==> final(self).direct_block_ptrs@ == old(self).direct_block_ptrs@,
            *final(self) == (Ext2INode {
                direct_block_ptrs: final(self).direct_block_ptrs,
                singly_indirect_block_ptr: final(self).singly_indirect_block_ptr,
                doubly_indirect_block_ptr: final(self).doubly_indirect_block_ptr,
                triply_indirect_block_ptr: final(self).triply_indirect_block_ptr,
                used_sectors: final(self).used_sectors,
                ..*old(self)
            }),
    {
        proof {
            lemma_epb_bounds(*d);
        }
        let e: u32 = d.block_size / 4;
        let level = Self::get_content_blk_indirections_count(i, e);
        if level == 0 {
            let b = self.direct_block_ptrs[i as usize];
            if b == 0 {
                return Ok(());
            }
            if !((b as usize) < d.used.len() && d.used[b as usize]) {
                return Err(Errno::IOError);
            }
            d.free_block(b);
            self.direct_block_ptrs.set(i as usize, 0);
            let spb = d.sectors_per_block();
            self.sub_sectors(spb);
            return Ok(());
        }
        let begin_id: u32;
        let target: u32;
        if level == 1 {
            begin_id = self.singly_indirect_block_ptr;
            target = i - DIRECT_BLOCKS_COUNT;
        } else if level == 2 {
            begin_id = self.doubly_indirect_block_ptr;
            target = i - DIRECT_BLOCKS_COUNT - e;
        } else {
            begin_id = self.triply_indirect_block_ptr;
            target = i - DIRECT_BLOCKS_COUNT - e - e * e;
        }
        if begin_id == 0 {
            return Ok(());
        }
        if !((begin_id as usize) < d.used.len() && d.used[begin_id as usize]) {
            return Err(Errno::IOError);
        }
        let freed = match self.indirections_free(level, begin_id, target, d) {
            Ok(freed) => freed,
            Err(e2) => {
                return Err(e2);
            },
        };
        if freed {
            // The root indirection block itself was freed: clear its
            // pointer in the inode.
            if level == 1 {
                self.singly_indirect_block_ptr = 0;
            } else if level == 2 {
                self.doubly_indirect_block_ptr = 0;
            } else {
                self.triply_indirect_block_ptr = 0;
            }
        }
        Ok(())
    }

    /// Truncates the file content to `size` bytes, freeing every content
    /// block past the new end. Growing is a no-op here: writes extend the
    /// file instead.
    pub fn truncate(&mut self, d: &mut Disk, size: u64) -> (r: Result<(), Errno>)
        requires
            old(self).wf(),
            old(d).wf(),
            old(self).size_addressable(*old(d)),
            old(d).size64 || size <= u32::MAX,
        ensures
            final(self).wf(),
            final(d).wf(),
            final(d).block_size == old(d).block_size,
            final(d).size64 == old(d).size64,
            final(d).blocks.len() == old(d).blocks.len(),
            size >= old(self).size_spec(*old(d)) ==> *final(self) == *old(self)
                && *final(d) == *old(d) && r == Result::<(), Errno>::Ok(()),
            size < old(self).size_spec(*old(d)) ==> final(self).size_spec(*final(d)) == size,
            final(self).size_addressable(*final(d)),
            r is Err ==> r == Result::<(), Errno>::Err(Errno::IOError),
            // Truncating a file of distinct direct blocks keeps every byte
            // below the new end.
            (r is Ok && size < old(self).size_spec(*old(d))
                && old(self).size_spec(*old(d))
                    <= DIRECT_BLOCKS_COUNT * old(d).block_size
                && old(self).direct_blocks_distinct(*old(d)))
                ==> forall|p: int| 0 <= p < size
                    ==> #[trigger] final(self).byte_at(*final(d), p)
                        == old(self).byte_at(*old(d), p),
            // On success every direct block past the new end is freed and
            // its pointer cleared; direct blocks below the new end keep
            // their pointers.
            (r is Ok && size < old(self).size_spec(*old(d))) ==> ({
                let bs = old(d).block_size as int;
                let begin = (size + bs - 1) / bs;
                let end = (old(self).size_spec(*old(d)) + bs - 1) / bs;
                &&& forall|i: int| begin <= i < end && i < DIRECT_BLOCKS_COUNT
                    ==> final(self).direct_block_ptrs@[i] == 0
                        && final(self).lookup_spec(*final(d), i) == Some(0u32)
                &&& forall|i: int| 0 <= i < begin && i < DIRECT_BLOCKS_COUNT
                    ==> final(self).direct_block_ptrs@[i]
                        == old(self).direct_block_ptrs@[i]
            }),
            forall|b2: int| 0 <= b2 < final(d).used@.len()
                ==> ((#[trigger] final(d).used@[b2]) ==> old(d).used@[b2]),
    {
        let old_size = self.get_size(d);
        if size >= old_size {
            return Ok(());
        }
        self.set_size(d, size);
        let bs: u64 = d.block_size as u64;
        proof {
            lemma_epb_bounds(*d);
            vstd::arithmetic::div_mod::lemma_div_is_ordered(
                old_size as int + bs - 1,
                Self::max_blocks(*d) * d.block_size as int + bs - 1,
                bs as int,
            );
            vstd::arithmetic::div_mod::lemma_div_is_ordered(
                old_size as int + bs - 1,
                0xFFFF_FFFF * d.block_size as int + bs - 1,
                bs as int,
            );
            assert((Self::max_blocks(*d) * d.block_size + bs - 1) as int / (bs as int)
                == Self::max_blocks(*d) + (bs - 1) / (bs as int)) by {
                vstd::arithmetic::div_mod::lemma_hoist_over_denominator(
                    bs as int - 1,
                    Self::max_blocks(*d),
                    bs as nat,
                );
            }
            assert((0xFFFF_FFFF * d.block_size + bs - 1) as int / (bs as int)
                == 0xFFFF_FFFF + (bs - 1) / (bs as int)) by {
                vstd::arithmetic::div_mod::lemma_hoist_over_denominator(
                    bs as int - 1,
                    0xFFFF_FFFF,
                    bs as nat,
                );
            }
            vstd::arithmetic::div_mod::lemma_basic_div(bs as int - 1, bs as int);
            vstd::arithmetic::div_mod::lemma_div_is_ordered(
                size as int + bs - 1,
                old_size as int + bs - 1,
                bs as int,
            );
        }
        let begin: u64 = (size + bs - 1) / bs;
        let end: u64 = (old_size + bs - 1) / bs;
        let ghost below_kept = size < old(self).size_spec(*old(d))
            && old(self).size_spec(*old(d)) <= DIRECT_BLOCKS_COUNT * old(d).block_size
            && old(self).direct_blocks_distinct(*old(d));
        let mut i: u64 = begin;
        while i < end
            invariant
                begin <= i <= end,
                end <= 0xFFFF_FFFF,
                end <= Self::max_blocks(*d),
                size < old(self).size_spec(*old(d)),
                begin == (size + old(d).block_size - 1) as int / old(d).block_size as int,
                end == (old(self).size_spec(*old(d)) + old(d).block_size - 1) as int
                    / old(d).block_size as int,
                self.wf(),
                d.wf(),
                d.block_size == old(d).block_size,
                d.size64 == old(d).size64,
                d.blocks.len() == old(d).blocks.len(),
                self.size_spec(*d) == size,
                self.size_addressable(*d),
                old(d).wf(),
                forall|j: int| begin <= j < i && j < DIRECT_BLOCKS_COUNT
                    ==> self.direct_block_ptrs@[j] == 0,
                forall|j: int| 0 <= j < begin && j < DIRECT_BLOCKS_COUNT
                    ==> self.direct_block_ptrs@[j] == old(self).direct_block_ptrs@[j],
                forall|j: int| i <= j < DIRECT_BLOCKS_COUNT
                    ==> self.direct_block_ptrs@[j] == old(self).direct_block_ptrs@[j],
                forall|b2: int| 0 <= b2 < d.used@.len()
                    ==> ((#[trigger] d.used@[b2]) ==> old(d).used@[b2]),
                below_kept == (size < old(self).size_spec(*old(d))
                    && old(self).size_spec(*old(d))
                        <= DIRECT_BLOCKS_COUNT * old(d).block_size
                    && old(self).direct_blocks_distinct(*old(d))),
                below_kept ==> forall|p: int| 0 <= p < size
                    ==> #[trigger] self.byte_at(*d, p) == old(self).byte_at(*old(d), p),
            decreases end - i,
        {
            let ghost dmid = *d;
            let ghost smid = *self;
            match self.free_content_block(i as u32, d) {
                Ok(()) => {},
                Err(e2) => {
                    return Err(e2);
                },
            }
            proof {
                assert forall|b2: int| 0 <= b2 < d.used@.len()
                    implies ((#[trigger] d.used@[b2]) ==> old(d).used@[b2]) by {
                    if d.used@[b2] {
                        assert(dmid.used@[b2]);
                    }
                }
                if below_kept {
                    // Freeing a block past the new end touches neither the
                    // pointers nor the device blocks of positions below it.
                    let bsi = old(d).block_size as int;
                    assert forall|p: int| 0 <= p < size
                        implies #[trigger] self.byte_at(*d, p)
                            == old(self).byte_at(*old(d), p) by {
                        lemma_blk_off_in_direct_range(0, size as int, p, bsi);
                        // Positions below the new end sit in blocks before
                        // `begin`: the ceiling covers the whole size.
                        vstd::arithmetic::div_mod::lemma_fundamental_div_mod(
                            size as int + bsi - 1,
                            bsi,
                        );
                        vstd::arithmetic::div_mod::lemma_mod_bound(
                            size as int + bsi - 1,
                            bsi,
                        );
                        assert(size as int <= begin as int * bsi);
                        vstd::arithmetic::mul::lemma_mul_is_commutative(begin as int, bsi);
                        vstd::arithmetic::div_mod::lemma_multiply_divide_lt(
                            p,
                            bsi,
                            begin as int,
                        );
                        assert(p / bsi < begin);
                        // The last freed index is below the pointer count.
                        vstd::arithmetic::div_mod::lemma_fundamental_div_mod_converse_div(
                            DIRECT_BLOCKS_COUNT * bsi + (bsi - 1),
                            bsi,
                            DIRECT_BLOCKS_COUNT as int,
                            bsi - 1,
                        );
                        vstd::arithmetic::div_mod::lemma_div_is_ordered(
                            old(self).size_spec(*old(d)) + bsi - 1,
                            DIRECT_BLOCKS_COUNT * bsi + bsi - 1,
                            bsi,
                        );
                        assert((i as int) < DIRECT_BLOCKS_COUNT);
                        assert(self.direct_block_ptrs@[p / bsi]
                            == smid.direct_block_ptrs@[p / bsi]);
                        assert(self.lookup_spec(*d, p / bsi)
                            == Some(smid.direct_block_ptrs@[p / bsi]));
                        let bp = smid.direct_block_ptrs@[p / bsi];
                        if bp != 0 {
                            let bfreed = smid.direct_block_ptrs@[i as int];
                            if bfreed != 0 {
                                assert(smid.direct_block_ptrs@[p / bsi]
                                    == old(self).direct_block_ptrs@[p / bsi]);
                                assert(smid.direct_block_ptrs@[i as int]
                                    == old(self).direct_block_ptrs@[i as int]);
                                assert(bp != bfreed);
                                assert(old(d).block_ok(bp));
                                assert((bp as int) < dmid.blocks@.len());
                                assert(d.blocks@[bp as int] == dmid.blocks@[bp as int]);
                            }
                        }
                        assert(self.byte_at(*d, p) == smid.byte_at(dmid, p));
                    }
                }
            }
            i += 1;
        }
        proof {
            // A cleared direct slot resolves to a hole.
            assert forall|j: int| begin <= j < end && j < DIRECT_BLOCKS_COUNT
                implies self.lookup_spec(*d, j) == Some(0u32) by {
            }
        }
        Ok(())
    }

    /// Frees every content block and indirection block of the inode,
    /// clears all block pointers and zeroes the sector count, as removal
    /// of the last hard link does.
    fn indirect_free_all(begin: u32, n: u8, d: &mut Disk)
        requires
            old(d).wf(),
            old(d).block_ok(begin),
            1 <= n <= 3,
        ensures
            final(d).wf(),
            final(d).block_size == old(d).block_size,
            final(d).size64 == old(d).size64,
            final(d).blocks.len() == old(d).blocks.len(),
            forall|b2: int| 0 <= b2 < final(d).used@.len()
                ==> ((#[trigger] final(d).used@[b2]) ==> old(d).used@[b2]),
        decreases n,
    {
        proof {
            lemma_epb_bounds(*d);
        }
        let e: u32 = d.block_size / 4;
        let mut idx: u32 = 0;
        while idx < e
            invariant
                idx <= e,
                e == d.epb_spec(),
                1 <= n <= 3,
                d.wf(),
                d.block_size == old(d).block_size,
                d.size64 == old(d).size64,
                d.blocks.len() == old(d).blocks.len(),
                0 < begin,
                d.used@.len() == old(d).used@.len(),
                forall|b2: int| 0 <= b2 < d.used@.len()
                    ==> ((#[trigger] d.used@[b2]) ==> old(d).used@[b2]),
            decreases e - idx,
        {
            if !((begin as usize) < d.used.len() && d.used[begin as usize]) {
                return;
            }
            let b = d.read_u32(begin, idx);
            if b != 0 && (b as usize) < d.used.len() && d.used[b as usize] {
                if n > 1 {
                    Self::indirect_free_all(b, n - 1, d);
                }
                if (b as usize) < d.used.len() && d.used[b as usize] {
                    d.free_block(b);
                }
            }
            idx += 1;
        }
        if (begin as usize) < d.used.len() && d.used[begin as usize] && begin != 0 {
            d.free_block(begin);
        }
    }

    /// Frees all the content of the inode: every allocated direct block
    /// and every indirect subtree with its root, clearing all pointers and
    /// zeroing the used sector count.
    pub fn free_content(&mut self, d: &mut Disk) -> (r: Result<(), Errno>)
        requires
            old(self).wf(),
            old(d).wf(),
        ensures
            final(self).wf(),
            final(d).wf(),
            final(d).block_size == old(d).block_size,
            final(d).size64 == old(d).size64,
            final(d).blocks.len() == old(d).blocks.len(),
            r == Result::<(), Errno>::Ok(()),
            forall|j: int| 0 <= j < DIRECT_BLOCKS_COUNT
                ==> final(self).direct_block_ptrs[j] == 0,
            final(self).singly_indirect_block_ptr == 0,
            final(self).doubly_indirect_block_ptr == 0,
            final(self).triply_indirect_block_ptr == 0,
            final(self).used_sectors == 0,
            *final(self) == (Ext2INode {
                direct_block_ptrs: final(self).direct_block_ptrs,
                singly_indirect_block_ptr: 0,
                doubly_indirect_block_ptr: 0,
                triply_indirect_block_ptr: 0,
                used_sectors: 0,
                ..*old(self)
            }),
            // The bitmap only shrinks, and every block a direct pointer
            // named leaves it.
            forall|b2: int| 0 <= b2 < final(d).used@.len()
                ==> ((#[trigger] final(d).used@[b2]) ==> old(d).used@[b2]),
            forall|j: int| 0 <= j < DIRECT_BLOCKS_COUNT
                && (#[trigger] old(self).direct_block_ptrs@[j]) != 0
                && old(d).block_ok(old(self).direct_block_ptrs@[j])
                ==> !final(d).used@[old(self).direct_block_ptrs@[j] as int],
    {
        let mut j: usize = 0;
        while j < 12
            invariant
                j <= 12,
                self.wf(),
                d.wf(),
                d.block_size == old(d).block_size,
                d.size64 == old(d).size64,
                d.blocks.len() == old(d).blocks.len(),
                forall|k: int| 0 <= k < j ==> self.direct_block_ptrs[k] == 0,
                forall|k: int| j <= k < DIRECT_BLOCKS_COUNT
                    ==> self.direct_block_ptrs@[k] == old(self).direct_block_ptrs@[k],
                d.used@.len() == old(d).used@.len(),
                forall|b2: int| 0 <= b2 < d.used@.len()
                    ==> ((#[trigger] d.used@[b2]) ==> old(d).used@[b2]),
                forall|k: int| 0 <= k < j
                    && (#[trigger] old(self).direct_block_ptrs@[k]) != 0
                    && old(d).block_ok(old(self).direct_block_ptrs@[k])
                    ==> !d.used@[old(self).direct_block_ptrs@[k] as int],
                *self == (Ext2INode {
                    direct_block_ptrs: self.direct_block_ptrs,
                    ..*old(self)
                }),
            decreases 12 - j,
        {
            let b = self.direct_block_ptrs[j];
            let ghost d_in = *d;
            if b != 0 {
                if (b as usize) < d.used.len() && d.used[b as usize] {
                    d.free_block(b);
                }
                self.direct_block_ptrs.set(j, 0);
            } else {
                self.direct_block_ptrs.set(j, 0);
            }
            proof {
                assert forall|k: int| 0 <= k < j + 1
                    && (#[trigger] old(self).direct_block_ptrs@[k]) != 0
                    && old(d).block_ok(old(self).direct_block_ptrs@[k])
                    implies !d.used@[old(self).direct_block_ptrs@[k] as int] by {
                    let bk = old(self).direct_block_ptrs@[k];
                    if k < j {
                        assert(!d_in.used@[bk as int]);
                    } else {
                        assert(bk == b);
                    }
                }
            }
            j += 1;
        }
        let ghost d_dir = *d;
        let singly = self.singly_indirect_block_ptr;
        if singly != 0 {
            if (singly as usize) < d.used.len() && d.used[singly as usize] {
                Self::indirect_free_all(singly, 1, d);
            }
            self.singly_indirect_block_ptr = 0;
        }
        let doubly = self.doubly_indirect_block_ptr;
        if doubly != 0 {
            if (doubly as usize) < d.used.len() && d.used[doubly as usize] {
                Self::indirect_free_all(doubly, 2, d);
            }
            self.doubly_indirect_block_ptr = 0;
        }
        let triply = self.triply_indirect_block_ptr;
        if triply != 0 {
            if (triply as usize) < d.used.len() && d.used[triply as usize] {
                Self::indirect_free_all(triply, 3, d);
            }
            self.triply_indirect_block_ptr = 0;
        }
        self.used_sectors = 0;
        proof {
            assert forall|b2: int| 0 <= b2 < d.used@.len()
                implies ((#[trigger] d.used@[b2]) ==> old(d).used@[b2]) by {
                if d.used@[b2] {
                    assert(d_dir.used@[b2]);
                }
            }
        }
        Ok(())
    }

    /// Whether every allocated direct pointer of the inode names a block
    /// of the device, and no two of them share one.
    pub open spec fn direct_blocks_distinct(self, d: Disk) -> bool {
        &&& forall|i: int| 0 <= i < DIRECT_BLOCKS_COUNT
            && (#[trigger] self.direct_block_ptrs@[i]) != 0
            ==> d.block_ok(self.direct_block_ptrs@[i])
        &&& forall|i: int, j: int|
            0 <= i < j < DIRECT_BLOCKS_COUNT && (#[trigger] self.direct_block_ptrs@[i]) != 0
                && (#[trigger] self.direct_block_ptrs@[j]) != 0
                ==> self.direct_block_ptrs@[i] != self.direct_block_ptrs@[j]
    }

    /// Whether the byte range `[off, off + len)` lies within the direct
    /// blocks of the inode, with every touched logical block backed by an
    /// allocated device block of its own, no two of them sharing one.
    /// Over such a range a write is a plain read-modify-write, and its
    /// effect on the content is pinned exactly.
    pub open spec fn direct_range_backed(self, d: Disk, off: int, len: int) -> bool {
        let bs = d.block_size as int;
        &&& 0 <= off
        &&& 0 < len
        &&& off + len <= DIRECT_BLOCKS_COUNT * bs
        &&& forall|i: int| off / bs <= i <= (off + len - 1) / bs
            ==> (#[trigger] self.direct_block_ptrs@[i]) != 0
                && d.block_ok(self.direct_block_ptrs@[i])
        &&& forall|i: int, j: int| off / bs <= i < j <= (off + len - 1) / bs
            ==> (#[trigger] self.direct_block_ptrs@[i])
                != (#[trigger] self.direct_block_ptrs@[j])
    }

    /// Writes `buff` into the file content at byte offset `off`: each
    /// touched block is read, patched and written back, with missing
    /// blocks allocated and zero-filled on demand. Afterwards the recorded
    /// size is the greater of the old size and the end of the write.
    /// Fails with `InvalidArgument` if and only if `off` is beyond the
    /// current size; with `NoSpace` when the device, or the sector
    /// accounting, has no room left; and with `IOError` on a corrupt
    /// block pointer.
    pub fn write_content(&mut self, off: u64, buff: &Vec<u8>, d: &mut Disk)
        -> (r: Result<(), Errno>)
        requires
            old(self).wf(),
            old(d).wf(),
            old(self).size_addressable(*old(d)),
            off + buff.len() <= Self::max_blocks(*old(d)) * old(d).block_size,
            off + buff.len() <= 0xFFFF_FFFF * old(d).block_size,
            old(d).size64 || off + buff.len() <= u32::MAX,
        ensures
            final(self).wf(),
            final(d).wf(),
            final(d).block_size == old(d).block_size,
            final(d).size64 == old(d).size64,
            final(d).blocks.len() == old(d).blocks.len(),
            (off > old(self).size_spec(*old(d))) <==> (r == Result::<(), Errno>::Err(
                Errno::InvalidArgument,
            )),
            r is Err ==> r == Result::<(), Errno>::Err(Errno::InvalidArgument)
                || r == Result::<(), Errno>::Err(Errno::NoSpace)
                || r == Result::<(), Errno>::Err(Errno::IOError),
            // A rejected start offset changes nothing at all.
            r == Result::<(), Errno>::Err(Errno::InvalidArgument)
                ==> *final(self) == *old(self) && *final(d) == *old(d),
            // Running out of space means the device really is full, or the
            // sector accounting reached its ceiling.
            r == Result::<(), Errno>::Err(Errno::NoSpace)
                ==> (forall|b2: int| 0 < b2 < final(d).used.len() ==> final(d).used[b2])
                    || final(self).used_sectors > u32::MAX - 512,
            // A write over backed blocks needs no allocation and succeeds.
            (off <= old(self).size_spec(*old(d))
                && old(self).direct_range_backed(*old(d), off as int, buff.len() as int))
                ==> r is Ok,
            r is Ok ==> final(self).size_spec(*final(d)) == vstd::math::max(
                old(self).size_spec(*old(d)),
                off + buff.len(),
            ),
            r is Ok ==> final(self).size_addressable(*final(d)),
            r is Err ==> final(self).size_low == old(self).size_low
                && final(self).size_high == old(self).size_high,
            (r is Ok && old(self).direct_range_backed(*old(d), off as int, buff.len() as int))
                ==> forall|p: int| off <= p < off + buff.len()
                    ==> final(self).byte_at(*final(d), p) == #[trigger] buff@[p - off],
            // A backed write allocates nothing and touches only the backing
            // blocks of the written range.
            old(self).direct_range_backed(*old(d), off as int, buff.len() as int) ==> {
                &&& final(self).direct_block_ptrs@ == old(self).direct_block_ptrs@
                &&& final(self).singly_indirect_block_ptr
                    == old(self).singly_indirect_block_ptr
                &&& final(self).doubly_indirect_block_ptr
                    == old(self).doubly_indirect_block_ptr
                &&& final(self).triply_indirect_block_ptr
                    == old(self).triply_indirect_block_ptr
                &&& final(self).used_sectors == old(self).used_sectors
                &&& final(d).used@ == old(d).used@
                &&& forall|b2: int| 0 <= b2 < final(d).blocks@.len()
                    && (forall|i2: int|
                        (off as int) / (old(d).block_size as int) <= i2
                            && i2 <= (off + buff.len() - 1) / (old(d).block_size as int)
                            ==> b2 != (#[trigger] old(self).direct_block_ptrs@[i2]))
                    ==> (#[trigger] final(d).blocks@[b2]) == old(d).blocks@[b2]
            },
    {
        let ghost backed = old(self).direct_range_backed(*old(d), off as int, buff.len() as int);
        let curr_size = self.get_size(d);
        if off > curr_size {
            return Err(Errno::InvalidArgument);
        }
        let bs: u32 = d.block_size;
        let mut i: usize = 0;
        while i < buff.len()
            invariant
                i <= buff.len(),
                self.wf(),
                d.wf(),
                d.block_size == old(d).block_size,
                d.size64 == old(d).size64,
                d.blocks.len() == old(d).blocks.len(),
                bs == d.block_size,
                off <= old(self).size_spec(*old(d)),
                off + buff.len() <= Self::max_blocks(*d) * d.block_size,
                off + buff.len() <= 0xFFFF_FFFF * d.block_size,
                self.size_low == old(self).size_low,
                self.size_high == old(self).size_high,
                backed == old(self).direct_range_backed(*old(d), off as int, buff.len() as int),
                backed ==> self.direct_block_ptrs@ == old(self).direct_block_ptrs@,
                backed ==> self.singly_indirect_block_ptr
                    == old(self).singly_indirect_block_ptr
                    && self.doubly_indirect_block_ptr == old(self).doubly_indirect_block_ptr
                    && self.triply_indirect_block_ptr == old(self).triply_indirect_block_ptr
                    && self.used_sectors == old(self).used_sectors,
                backed ==> d.used@ == old(d).used@,
                backed ==> forall|b2: int| 0 <= b2 < d.blocks@.len()
                    && (forall|i2: int|
                        (off as int) / (bs as int) <= i2
                            && i2 <= (off + buff.len() - 1) / (bs as int)
                            ==> b2 != (#[trigger] old(self).direct_block_ptrs@[i2]))
                    ==> (#[trigger] d.blocks@[b2]) == old(d).blocks@[b2],
                backed ==> (i == 0 || (off as int + i as int) % (bs as int) == 0
                    || i == buff.len()),
                backed ==> forall|p: int| off <= p < off + i
                    ==> d.blocks@[
                        old(self).direct_block_ptrs@[p / (bs as int)] as int
                    ]@[p % (bs as int)] == #[trigger] buff@[p - off],
            decreases buff.len() - i,
        {
            let pos: u64 = off + i as u64;
            proof {
                lemma_epb_bounds(*d);
                vstd::arithmetic::mul::lemma_mul_is_commutative(
                    bs as int,
                    Self::max_blocks(*d),
                );
                vstd::arithmetic::mul::lemma_mul_is_commutative(bs as int, 0x1_0000_0000);
                vstd::arithmetic::div_mod::lemma_multiply_divide_lt(
                    pos as int,
                    bs as int,
                    Self::max_blocks(*d),
                );
                vstd::arithmetic::div_mod::lemma_multiply_divide_lt(
                    pos as int,
                    bs as int,
                    0x1_0000_0000,
                );
                vstd::arithmetic::div_mod::lemma_mod_division_less_than_divisor(
                    pos as int,
                    bs as int,
                );
                vstd::arithmetic::div_mod::lemma_mod_bound(pos as int, bs as int);
            }
            proof {
                if backed {
                    vstd::arithmetic::div_mod::lemma_div_is_ordered(
                        off as int,
                        pos as int,
                        bs as int,
                    );
                    vstd::arithmetic::div_mod::lemma_div_is_ordered(
                        pos as int,
                        off + buff.len() - 1,
                        bs as int,
                    );
                }
            }
            let blk_off: u32 = (pos / bs as u64) as u32;
            let inner: u32 = (pos % bs as u64) as u32;
            let blk: u32 = match self.get_content_block_off(blk_off, d) {
                Ok(Some(b)) => {
                    if !((b as usize) < d.used.len() && d.used[b as usize]) {
                        proof {
                            if backed {
                                // A backed block is allocated, and the
                                // bitmap has not changed.
                                lemma_blk_off_in_direct_range(
                                    off as int,
                                    buff.len() as int,
                                    pos as int,
                                    bs as int,
                                );
                                assert(old(d).block_ok(
                                    old(self).direct_block_ptrs@[blk_off as int],
                                ));
                                assert(false);
                            }
                        }
                        return Err(Errno::IOError);
                    }
                    b
                },
                Ok(None) => {
                    proof {
                        if backed {
                            // Every block of a backed range has a nonzero
                            // direct pointer, so no hole is possible here.
                            lemma_blk_off_in_direct_range(
                                off as int,
                                buff.len() as int,
                                pos as int,
                                bs as int,
                            );
                            assert(old(self).direct_block_ptrs@[blk_off as int] != 0);
                            assert(false);
                        }
                    }
                    if self.used_sectors > u32::MAX - 512 {
                        return Err(Errno::NoSpace);
                    }
                    match self.alloc_content_block(blk_off, d) {
                        Ok(b) => b,
                        Err(e2) => {
                            return Err(e2);
                        },
                    }
                },
                Err(e2) => {
                    proof {
                        if backed {
                            // A backed block resolves, so the translation
                            // cannot fail.
                            lemma_blk_off_in_direct_range(
                                off as int,
                                buff.len() as int,
                                pos as int,
                                bs as int,
                            );
                            assert(old(self).direct_block_ptrs@[blk_off as int] != 0);
                            assert(false);
                        }
                    }
                    return Err(e2);
                },
            };
            proof {
                if backed {
                    lemma_blk_off_in_direct_range(
                        off as int,
                        buff.len() as int,
                        pos as int,
                        bs as int,
                    );
                }
            }
            let mut blk_buff = d.read_block(blk);
            let ghost pre = blk_buff@;
            let remaining = buff.len() - i;
            let in_block = (bs - inner) as usize;
            let len: usize = if remaining < in_block {
                remaining
            } else {
                in_block
            };
            let mut k: usize = 0;
            while k < len
                invariant
                    k <= len,
                    i + len <= buff.len(),
                    inner + len <= bs,
                    blk_buff.len() == bs,
                    pre.len() == bs,
                    forall|t: int| 0 <= t < k
                        ==> blk_buff@[inner + t] == #[trigger] buff@[i + t],
                    forall|t: int| 0 <= t < bs && !(inner <= t < inner + k)
                        ==> #[trigger] blk_buff@[t] == pre[t],
                decreases len - k,
            {
                blk_buff.set(inner as usize + k, buff[i + k]);
                k += 1;
            }
            let ghost d_before = *d;
            d.write_block(blk, &blk_buff);
            proof {
                if backed {
                    let bsi = bs as int;
                    let od = old(self).direct_block_ptrs@;
                    // The write went to the backing block of this window.
                    assert(blk == od[blk_off as int]);
                    vstd::arithmetic::div_mod::lemma_fundamental_div_mod(pos as int, bsi);
                    assert forall|p: int| off <= p < off + (i + len) as int
                        implies d.blocks@[od[p / bsi] as int]@[p % bsi]
                            == #[trigger] buff@[p - off] by {
                        vstd::arithmetic::div_mod::lemma_div_is_ordered(off as int, p, bsi);
                        vstd::arithmetic::div_mod::lemma_div_is_ordered(
                            p,
                            off + buff.len() - 1,
                            bsi,
                        );
                        if p < off + i as int {
                            // An earlier window: its backing block differs
                            // from the one just written, so its bytes stay.
                            if i > 0 {
                                vstd::arithmetic::div_mod::lemma_div_is_ordered(
                                    p,
                                    off + i as int - 1,
                                    bsi,
                                );
                                assert((off + i as int) % bsi == 0);
                                vstd::arithmetic::div_mod::lemma_fundamental_div_mod(
                                    off + i as int,
                                    bsi,
                                );
                                let m = off + i as int;
                                let q = m / bsi;
                                assert(m - 1 == bsi * (q - 1) + (bsi - 1) && q >= 1)
                                    by (nonlinear_arith)
                                    requires m == bsi * q, bsi >= 1, m >= 1,
                                ;
                                vstd::arithmetic::div_mod::lemma_fundamental_div_mod_converse_div(
                                    m - 1,
                                    bsi,
                                    q - 1,
                                    bsi - 1,
                                );
                                assert(p / bsi < blk_off as int);
                                assert(od[p / bsi] != od[blk_off as int]);
                                assert(d.blocks@[od[p / bsi] as int]
                                    == d_before.blocks@[od[p / bsi] as int]);
                            }
                        } else {
                            // Inside the window just written.
                            let t = p - pos as int;
                            vstd::arithmetic::div_mod::lemma_fundamental_div_mod_converse_div(
                                p,
                                bsi,
                                blk_off as int,
                                inner as int + t,
                            );
                            vstd::arithmetic::div_mod::lemma_fundamental_div_mod_converse_mod(
                                p,
                                bsi,
                                blk_off as int,
                                inner as int + t,
                            );
                            assert(blk_buff@[inner as int + t] == buff@[i as int + t]);
                            assert(d.blocks@[blk as int]@ == blk_buff@);
                        }
                    }
                }
            }
            proof {
                if backed && len == (bs - inner) as usize {
                    // The window ended exactly at the block boundary.
                    let bsi = bs as int;
                    vstd::arithmetic::div_mod::lemma_fundamental_div_mod(pos as int, bsi);
                    let q = pos as int / bsi;
                    assert(off + (i + len) as int == (q + 1) * bsi + 0) by (nonlinear_arith)
                        requires
                            pos as int == bsi * q + inner as int,
                            off + i as int == pos as int,
                            len as int == bsi - inner as int,
                    ;
                    vstd::arithmetic::div_mod::lemma_fundamental_div_mod_converse_mod(
                        off + (i + len) as int,
                        bsi,
                        q + 1,
                        0,
                    );
                }
            }
            i += len;
        }
        let new_size: u64 = if off + buff.len() as u64 > curr_size {
            off + buff.len() as u64
        } else {
            curr_size
        };
        self.set_size(d, new_size);
        proof {
            if backed {
                let bsi = bs as int;
                let od = old(self).direct_block_ptrs@;
                assert forall|p: int| off <= p < off + buff.len()
                    implies self.byte_at(*d, p) == #[trigger] buff@[p - off] by {
                    vstd::arithmetic::div_mod::lemma_div_is_ordered(off as int, p, bsi);
                    vstd::arithmetic::div_mod::lemma_div_is_ordered(
                        p,
                        off + buff.len() - 1,
                        bsi,
                    );
                    vstd::arithmetic::div_mod::lemma_div_is_ordered(
                        p,
                        DIRECT_BLOCKS_COUNT * bsi - 1,
                        bsi,
                    );
                    assert((DIRECT_BLOCKS_COUNT * bsi - 1) / bsi < DIRECT_BLOCKS_COUNT) by {
                        vstd::arithmetic::div_mod::lemma_fundamental_div_mod_converse_div(
                            DIRECT_BLOCKS_COUNT * bsi - 1,
                            bsi,
                            DIRECT_BLOCKS_COUNT as int - 1,
                            bsi - 1,
                        );
                    }
                    assert(self.lookup_spec(*d, p / bsi) == Some(od[p / bsi]));
                    vstd::arithmetic::div_mod::lemma_mod_bound(p, bsi);
                }
            }
        }
        Ok(())
    }

    /// Returns the device major and minor numbers of a device inode,
    /// encoded in the first direct block pointer slot.
    pub fn get_device(&self) -> (r: (u8, u8))
        requires
            self.wf(),
        ensures
            r.0 == ((self.direct_block_ptrs[0] >> 8u32) & 0xff) as u8,
            r.1 == (self.direct_block_ptrs[0] & 0xff) as u8,
    {
        let dev = self.direct_block_ptrs[0];
        (((dev >> 8u32) & 0xff) as u8, (dev & 0xff) as u8)
    }

    /// Records the device major and minor numbers of a device inode in
    /// the first direct block pointer slot.
    pub fn set_device(&mut self, major: u8, minor: u8)
        requires
            old(self).wf(),
        ensures
            final(self).wf(),
            final(self).direct_block_ptrs@ == old(self).direct_block_ptrs@.update(
                0,
                ((major as u32) << 8u32) | (minor as u32),
            ),
            *final(self) == (Ext2INode {
                direct_block_ptrs: final(self).direct_block_ptrs,
                ..*old(self)
            }),
    {
        self.direct_block_ptrs.set(0, ((major as u32) << 8u32) | (minor as u32));
    }
}

/// A byte position of the range `[off, off + len)` of a write over the
/// direct blocks names a direct block inside the range.
pub proof fn lemma_blk_off_in_direct_range(off: int, len: int, pos: int, bs: int)
    requires
        0 <= off <= pos < off + len,
        off + len <= DIRECT_BLOCKS_COUNT * bs,
        64 <= bs,
    ensures
        off / bs <= pos / bs <= (off + len - 1) / bs,
        pos / bs < DIRECT_BLOCKS_COUNT,
        0 <= pos % bs < bs,
{
    vstd::arithmetic::div_mod::lemma_div_is_ordered(off, pos, bs);
    vstd::arithmetic::div_mod::lemma_div_is_ordered(pos, off + len - 1, bs);
    vstd::arithmetic::div_mod::lemma_div_is_ordered(pos, DIRECT_BLOCKS_COUNT * bs - 1, bs);
    vstd::arithmetic::div_mod::lemma_fundamental_div_mod_converse_div(
        DIRECT_BLOCKS_COUNT * bs - 1,
        bs,
        DIRECT_BLOCKS_COUNT as int - 1,
        bs - 1,
    );
    vstd::arithmetic::div_mod::lemma_mod_bound(pos, bs);
}

/// Resolution reads the device without changing it, so two successive
/// reads of the same position without a write in between see the same
/// backing block and the same byte.
pub proof fn lemma_read_deterministic(ino: Ext2INode, d: Disk, pos: int)
    ensures
        ino.byte_at(d, pos) == ino.byte_at(d, pos),
        ino.lookup_spec(d, pos / d.block_size as int)
            == ino.lookup_spec(d, pos / d.block_size as int),
{
}

/// Writing a buffer and then reading the same range back returns the
/// buffer. `ino` and `d` are the inode and device after a write over a
/// backed range of direct blocks, whose contract pins every written byte;
/// `got` is what a read of that range returns, byte for byte, as the read
/// contract states.
pub proof fn lemma_write_then_read_round_trip(
    ino: Ext2INode,
    d: Disk,
    off: int,
    data: Seq<u8>,
    got: Seq<u8>,
)
    requires
        forall|p: int| off <= p < off + data.len()
            ==> ino.byte_at(d, p) == #[trigger] data[p - off],
        got.len() == data.len(),
        forall|j: int| 0 <= j < got.len() ==> #[trigger] got[j] == ino.byte_at(d, off + j),
    ensures
        got =~= data,
{
    assert forall|j: int| 0 <= j < data.len() implies got[j] == data[j] by {
        assert(data[(off + j) - off] == data[j]);
    }
}

/// After a truncate to `n` bytes, a read at offset `n` returns an empty
/// slice: the truncate contract records `n` as the size, and the read
/// contract clamps the count to the end of the file.
pub proof fn lemma_truncate_then_read_empty(ino: Ext2INode, d: Disk, buff_len: int)
    requires
        buff_len >= 0,
    ensures
        vstd::math::min(buff_len, ino.size_spec(d) - ino.size_spec(d)) == 0,
{
}

} // verus!

use maestro_core::ext2::disk::Disk;
use maestro_core::ext2::inode::{Ext2INode, FileType, INODE_TYPE_REGULAR};
use maestro_core::errno::Errno;

fn fresh_inode(mode: u16, size: u32) -> Ext2INode {
    Ext2INode {
        mode,
        uid: 0,
        size_low: size,
        ctime: 0,
        mtime: 0,
        atime: 0,
        dtime: 0,
        gid: 0,
        hard_links_count: 1,
        used_sectors: 0,
        flags: 0,
        direct_block_ptrs: vec![0; 12],
        singly_indirect_block_ptr: 0,
        doubly_indirect_block_ptr: 0,
        triply_indirect_block_ptr: 0,
        generation: 0,
        extended_attributes_block: 0,
        size_high: 0,
        fragment_addr: 0,
    }
}

fn used_blocks(d: &Disk) -> usize {
    d.used.iter().filter(|u| **u).count()
}

#[test]
fn write_then_read_round_trip() {
    let mut d = Disk::new(1024, 64, false);
    let mut ino = fresh_inode(INODE_TYPE_REGULAR, 0);
    let data: Vec<u8> = b"the quick brown fox jumps over the lazy dog".to_vec();
    ino.write_content(0, &data, &mut d).unwrap();
    assert_eq!(ino.get_size(&d), data.len() as u64);

    let mut buf = vec![0u8; data.len()];
    let n = ino.read_content(0, &mut buf, &d).unwrap();
    assert_eq!(n, data.len() as u64);
    assert_eq!(buf, data);
}

#[test]
fn reads_are_repeatable() {
    let mut d = Disk::new(1024, 64, false);
    let mut ino = fresh_inode(INODE_TYPE_REGULAR, 0);
    ino.write_content(0, &b"abcdef".to_vec(), &mut d).unwrap();
    let mut a = vec![0u8; 6];
    let mut b = vec![0u8; 6];
    ino.read_content(0, &mut a, &d).unwrap();
    ino.read_content(0, &mut b, &d).unwrap();
    assert_eq!(a, b);
}

#[test]
fn write_spanning_blocks() {
    let mut d = Disk::new(1024, 64, false);
    let mut ino = fresh_inode(INODE_TYPE_REGULAR, 0);
    let data: Vec<u8> = (0..3000u32).map(|i| (i % 251) as u8).collect();
    ino.write_content(0, &data, &mut d).unwrap();
    let mut buf = vec![0u8; 3000];
    assert_eq!(ino.read_content(0, &mut buf, &d).unwrap(), 3000);
    assert_eq!(buf, data);
    // Overwrite a window crossing a block boundary.
    let patch = vec![0xAAu8; 100];
    ino.write_content(1000, &patch, &mut d).unwrap();
    let mut buf2 = vec![0u8; 3000];
    ino.read_content(0, &mut buf2, &d).unwrap();
    assert_eq!(&buf2[..1000], &data[..1000]);
    assert_eq!(&buf2[1000..1100], &patch[..]);
    assert_eq!(&buf2[1100..], &data[1100..]);
}

#[test]
fn read_past_eof_returns_zero_bytes() {
    let mut d = Disk::new(1024, 64, false);
    let mut ino = fresh_inode(INODE_TYPE_REGULAR, 0);
    ino.write_content(0, &b"abc".to_vec(), &mut d).unwrap();
    // Reading at the end of the file reads 0 bytes, not an error.
    let mut buf = vec![9u8; 4];
    assert_eq!(ino.read_content(3, &mut buf, &d).unwrap(), 0);
    assert_eq!(buf, vec![9u8; 4]);
    // Reading from beyond the end fails with InvalidArgument.
    assert_eq!(ino.read_content(4, &mut buf, &d), Err(Errno::InvalidArgument));
    // A long read from inside is clamped to the end.
    assert_eq!(ino.read_content(1, &mut buf, &d).unwrap(), 2);
}

#[test]
fn write_at_size_grows_write_past_size_fails() {
    let mut d = Disk::new(1024, 64, false);
    let mut ino = fresh_inode(INODE_TYPE_REGULAR, 0);
    ino.write_content(0, &b"abc".to_vec(), &mut d).unwrap();
    assert_eq!(ino.get_size(&d), 3);
    // Writing at exactly `size` grows the file.
    ino.write_content(3, &b"def".to_vec(), &mut d).unwrap();
    assert_eq!(ino.get_size(&d), 6);
    // Writing at `size + 1` fails with InvalidArgument.
    assert_eq!(
        ino.write_content(7, &b"x".to_vec(), &mut d),
        Err(Errno::InvalidArgument)
    );
    assert_eq!(ino.get_size(&d), 6);
}

#[test]
fn hole_read_is_all_zeros() {
    // A file of 301 blocks with nothing written below block 300: reading
    // the first block of the hole yields zeros only.
    let mut d = Disk::new(1024, 512, false);
    let mut ino = fresh_inode(INODE_TYPE_REGULAR, 1024 * 301);
    ino.write_content(1024 * 300, &b"x".to_vec(), &mut d).unwrap();
    let mut buf = vec![7u8; 1024];
    assert_eq!(ino.read_content(0, &mut buf, &d).unwrap(), 1024);
    assert!(buf.iter().all(|b| *b == 0));
    // The written byte itself reads back.
    let mut one = vec![0u8; 1];
    ino.read_content(1024 * 300, &mut one, &d).unwrap();
    assert_eq!(one[0], b'x');
}

#[test]
fn triple_indirection_write_and_sector_accounting() {
    // Block size 1024 gives 256 pointers per block. The file spans
    // 12 + 256 + 256*256 blocks, so its final offset lands on the first
    // block that needs triple indirection.
    let e = 256u64;
    let s0 = 1024 * (12 + e + e * e);
    let mut d = Disk::new(1024, 64, false);
    let mut ino = fresh_inode(INODE_TYPE_REGULAR, s0 as u32);
    let sectors_before = ino.used_sectors;

    ino.write_content(s0, &b"Z".to_vec(), &mut d).unwrap();
    assert_eq!(ino.get_size(&d), s0 + 1);
    // One data block plus three indirection blocks, two sectors each.
    assert_eq!(ino.used_sectors - sectors_before, 8);
    assert_ne!(ino.triply_indirect_block_ptr, 0);

    let mut buf = vec![0u8; 1];
    assert_eq!(ino.read_content(s0, &mut buf, &d).unwrap(), 1);
    assert_eq!(buf[0], b'Z');

    // The block below the write is still a hole and reads as zeros.
    let mut hole = vec![1u8; 16];
    assert_eq!(ino.read_content(s0 - 1024, &mut hole, &d).unwrap(), 16);
    assert!(hole.iter().all(|b| *b == 0));
}

#[test]
fn truncate_then_read_at_end() {
    let mut d = Disk::new(1024, 64, false);
    let mut ino = fresh_inode(INODE_TYPE_REGULAR, 0);
    ino.write_content(0, &vec![5u8; 3000], &mut d).unwrap();
    let blocks_full = used_blocks(&d);
    ino.truncate(&mut d, 1000).unwrap();
    assert_eq!(ino.get_size(&d), 1000);
    // Every byte below the new end survives the truncation.
    let mut kept = vec![0u8; 1000];
    assert_eq!(ino.read_content(0, &mut kept, &d).unwrap(), 1000);
    assert!(kept.iter().all(|b| *b == 5));
    // Reading right at the new end yields an empty slice.
    let mut buf = vec![3u8; 8];
    assert_eq!(ino.read_content(1000, &mut buf, &d).unwrap(), 0);
    assert_eq!(buf, vec![3u8; 8]);
    // The blocks past the end were freed.
    assert!(used_blocks(&d) < blocks_full);
    // Growing through truncate is a no-op.
    ino.truncate(&mut d, 5000).unwrap();
    assert_eq!(ino.get_size(&d), 1000);
}

#[test]
fn freeing_a_hole_is_a_no_op() {
    let mut d = Disk::new(1024, 64, false);
    let mut ino = fresh_inode(INODE_TYPE_REGULAR, 1024 * 20);
    let blocks_before = used_blocks(&d);
    let sectors_before = ino.used_sectors;
    // Block 3 is a direct hole and block 15 an indirect one.
    ino.free_content_block(3, &mut d).unwrap();
    ino.free_content_block(15, &mut d).unwrap();
    assert_eq!(used_blocks(&d), blocks_before);
    assert_eq!(ino.used_sectors, sectors_before);
}

#[test]
fn free_content_releases_everything() {
    let mut d = Disk::new(1024, 64, false);
    let mut ino = fresh_inode(INODE_TYPE_REGULAR, 0);
    ino.write_content(0, &vec![1u8; 1024 * 14], &mut d).unwrap();
    assert!(used_blocks(&d) > 1);
    ino.free_content(&mut d).unwrap();
    assert_eq!(ino.used_sectors, 0);
    assert!(ino.direct_block_ptrs.iter().all(|p| *p == 0));
    assert_eq!(ino.singly_indirect_block_ptr, 0);
    // Only the reserved block 0 stays allocated.
    assert_eq!(used_blocks(&d), 1);
}

#[test]
fn type_and_permissions() {
    let mode = Ext2INode::get_file_mode(FileType::Regular, 0o644);
    assert_eq!(mode, INODE_TYPE_REGULAR | 0o644);
    let mut ino = fresh_inode(mode, 0);
    assert_eq!(ino.get_type(), FileType::Regular);
    assert_eq!(ino.get_permissions(), 0o644);
    // Permissions are replaced, not accumulated: bits can be cleared.
    ino.set_permissions(0o022);
    assert_eq!(ino.get_permissions(), 0o022);
    assert_eq!(ino.get_type(), FileType::Regular);
}

#[test]
fn device_numbers() {
    let mut ino = fresh_inode(Ext2INode::get_file_mode(FileType::CharDevice, 0o600), 0);
    ino.set_device(5, 1);
    assert_eq!(ino.get_device(), (5, 1));
    assert_eq!(ino.direct_block_ptrs[0], (5 << 8) | 1);
}

#[test]
fn sixty_four_bit_sizes() {
    let d = Disk::new(1024, 8, true);
    let mut ino = fresh_inode(INODE_TYPE_REGULAR, 0);
    ino.set_size(&d, 0x1_2345_6789);
    assert_eq!(ino.get_size(&d), 0x1_2345_6789);
    assert_eq!(ino.size_high, 1);
}

#[test]
fn disk_allocation_bitmap() {
    let mut d = Disk::new(1024, 8, false);
    let b = d.get_free_block().unwrap();
    assert!(b != 0);
    d.mark_block_used(b);
    assert!(d.used[b as usize]);
    let b2 = d.get_free_block().unwrap();
    assert_ne!(b, b2);
    d.free_block(b);
    assert!(!d.used[b as usize]);
    // A full device reports NoSpace.
    let mut full = Disk::new(1024, 2, false);
    let only = full.get_free_block().unwrap();
    full.mark_block_used(only);
    assert_eq!(full.get_free_block(), Err(Errno::NoSpace));
}

#[test]
fn disk_word_round_trip() {
    let mut d = Disk::new(1024, 8, false);
    let b = d.get_free_block().unwrap();
    d.mark_block_used(b);
    d.write_u32(b, 7, 0xDEADBEEF);
    assert_eq!(d.read_u32(b, 7), 0xDEADBEEF);
    assert_eq!(d.read_u32(b, 6), 0);
    assert!(!d.is_blk_empty(b));
    d.write_u32(b, 7, 0);
    assert!(d.is_blk_empty(b));
}

#[test]
fn corrupt_pointer_reports_io_error() {
    let d = Disk::new(1024, 8, false);
    // A pointer leading outside the allocated blocks of the device is
    // corruption, not a hole.
    let mut ino = fresh_inode(INODE_TYPE_REGULAR, 10);
    ino.direct_block_ptrs[0] = 999;
    let mut buf = vec![0u8; 4];
    assert_eq!(ino.read_content(0, &mut buf, &d), Err(Errno::IOError));
}

#[test]
fn inode_disk_offsets() {
    // Inode numbering starts at 1; inode 0 does not exist.
    assert_eq!(
        Ext2INode::get_disk_offset(0, 8, 128, 1024, 5),
        Err(Errno::InvalidArgument)
    );
    // The first inode sits at the start of its group's inode table.
    assert_eq!(Ext2INode::get_disk_offset(1, 8, 128, 1024, 5).unwrap(), 5 * 1024);
    // The second inode sits one record further.
    assert_eq!(
        Ext2INode::get_disk_offset(2, 8, 128, 1024, 5).unwrap(),
        5 * 1024 + 128
    );
}

use maestro_core::ext2::dirent::{parse_block, DirectoryEntry};
use maestro_core::ext2::disk::Disk;
use maestro_core::ext2::inode::{Ext2INode, INODE_TYPE_DIRECTORY};
use maestro_core::errno::Errno;

fn sum_sizes(es: &[DirectoryEntry]) -> u32 {
    es.iter().map(|e| e.total_size as u32).sum()
}

fn fresh_dir(size: u32) -> Ext2INode {
    Ext2INode {
        mode: INODE_TYPE_DIRECTORY | 0o755,
        uid: 0,
        size_low: size,
        ctime: 0,
        mtime: 0,
        atime: 0,
        dtime: 0,
        gid: 0,
        hard_links_count: 1,
        used_sectors: 0,
        flags: 0,
        direct_block_ptrs: vec![0; 12],
        singly_indirect_block_ptr: 0,
        doubly_indirect_block_ptr: 0,
        triply_indirect_block_ptr: 0,
        generation: 0,
        extended_attributes_block: 0,
        size_high: 0,
        fragment_addr: 0,
    }
}

#[test]
fn entry_record_round_trip() {
    let e = DirectoryEntry::new(42, 24, 1, b"hello".to_vec());
    let rec = e.encode();
    assert_eq!(rec.len(), 24);
    let back = DirectoryEntry::decode(&rec, 0).unwrap();
    assert_eq!(back.get_inode(), 42);
    assert_eq!(back.get_total_size(), 24);
    assert_eq!(back.file_type, 1);
    assert_eq!(back.name, b"hello".to_vec());
}

#[test]
fn corrupt_records_are_refused() {
    // A record length shorter than header plus name.
    let mut rec = DirectoryEntry::new(1, 16, 0, b"abcd".to_vec()).encode();
    rec[4] = 9;
    rec[5] = 0;
    assert!(DirectoryEntry::decode(&rec, 0).is_err());
    // A record crossing the end of the block.
    let rec2 = DirectoryEntry::new(1, 16, 0, b"abcd".to_vec()).encode();
    assert!(DirectoryEntry::decode(&rec2, 8).is_err());
}

#[test]
fn blocks_tile_exactly() {
    // Two records summing to the block: parsing succeeds; any other sum is
    // refused as corruption.
    let mut block = DirectoryEntry::new(7, 32, 0, b"a".to_vec()).encode();
    block.extend(DirectoryEntry::new(0, 32, 0, Vec::new()).encode());
    let es = parse_block(&block).unwrap();
    assert_eq!(es.len(), 2);
    assert_eq!(sum_sizes(&es), 64);

    let mut short = DirectoryEntry::new(7, 32, 0, b"a".to_vec()).encode();
    short.extend(vec![0u8; 16]);
    assert!(parse_block(&short).is_err());
}

#[test]
fn add_and_find_entries() {
    let mut d = Disk::new(1024, 64, false);
    let mut dir = fresh_dir(0);
    dir.add_dirent(&mut d, 11, &b"foo".to_vec(), 1).unwrap();
    assert_eq!(dir.get_size(&d), 1024);
    dir.add_dirent(&mut d, 12, &b"bar".to_vec(), 1).unwrap();
    assert_eq!(dir.get_size(&d), 2048);

    let foo = dir.get_directory_entry(&b"foo".to_vec(), &d).unwrap().unwrap();
    assert_eq!(foo.get_inode(), 11);
    let bar = dir.get_directory_entry(&b"bar".to_vec(), &d).unwrap().unwrap();
    assert_eq!(bar.get_inode(), 12);
    assert!(dir.get_directory_entry(&b"baz".to_vec(), &d).unwrap().is_none());
    assert_eq!(dir.get_dir_entries_count(&d).unwrap(), 2);

    // Every directory block stays exactly tiled by its records.
    for bi in 0..2 {
        let mut block = vec![0u8; 1024];
        dir.read_content(bi * 1024, &mut block, &d).unwrap();
        let es = parse_block(&block).unwrap();
        assert_eq!(sum_sizes(&es), 1024);
    }
}

#[test]
fn remove_then_add_same_size_keeps_directory_size() {
    let mut d = Disk::new(1024, 64, false);
    let mut dir = fresh_dir(0);
    dir.add_dirent(&mut d, 11, &b"foo".to_vec(), 1).unwrap();
    dir.add_dirent(&mut d, 12, &b"bar".to_vec(), 1).unwrap();
    let size_before = dir.get_size(&d);

    // Removing `foo` frees its record; the last block still holds `bar`,
    // so nothing is truncated.
    dir.remove_dirent(&mut d, &b"foo".to_vec()).unwrap();
    assert_eq!(dir.get_size(&d), size_before);
    assert!(dir.get_directory_entry(&b"foo".to_vec(), &d).unwrap().is_none());
    assert_eq!(dir.get_dir_entries_count(&d).unwrap(), 1);

    // Adding an entry of the same size reuses the freed record: the
    // directory's byte size is unchanged.
    dir.add_dirent(&mut d, 13, &b"qux".to_vec(), 1).unwrap();
    assert_eq!(dir.get_size(&d), size_before);
    assert_eq!(dir.get_dir_entries_count(&d).unwrap(), 2);
    let qux = dir.get_directory_entry(&b"qux".to_vec(), &d).unwrap().unwrap();
    assert_eq!(qux.get_inode(), 13);
}

#[test]
fn trailing_free_blocks_are_truncated() {
    let mut d = Disk::new(1024, 64, false);
    let mut dir = fresh_dir(0);
    dir.add_dirent(&mut d, 11, &b"first".to_vec(), 1).unwrap();
    dir.add_dirent(&mut d, 12, &b"second".to_vec(), 1).unwrap();
    assert_eq!(dir.get_size(&d), 2048);
    // Removing the entry of the trailing block shrinks the directory.
    dir.remove_dirent(&mut d, &b"second".to_vec()).unwrap();
    assert_eq!(dir.get_size(&d), 1024);
    // Removing the only remaining entry empties it entirely.
    dir.remove_dirent(&mut d, &b"first".to_vec()).unwrap();
    assert_eq!(dir.get_size(&d), 0);
}

#[test]
fn split_reserves_the_tail() {
    let mut d = Disk::new(1024, 64, false);
    let mut dir = fresh_dir(0);
    dir.add_dirent(&mut d, 11, &b"foo".to_vec(), 1).unwrap();
    dir.add_dirent(&mut d, 12, &b"bar".to_vec(), 1).unwrap();
    // Free the whole first block, then fill it with two small entries: the
    // first insertion splits the block-wide free record and the second
    // reuses the reserved tail, so the directory does not grow.
    dir.remove_dirent(&mut d, &b"foo".to_vec()).unwrap();
    dir.add_dirent(&mut d, 13, &b"a".to_vec(), 1).unwrap();
    dir.add_dirent(&mut d, 14, &b"c".to_vec(), 1).unwrap();
    assert_eq!(dir.get_size(&d), 2048);
    let mut block = vec![0u8; 1024];
    dir.read_content(0, &mut block, &d).unwrap();
    let es = parse_block(&block).unwrap();
    assert_eq!(sum_sizes(&es), 1024);
    assert_eq!(dir.get_dir_entries_count(&d).unwrap(), 3);
}

#[test]
fn name_too_long_is_rejected() {
    let mut d = Disk::new(64, 16, false);
    let mut dir = fresh_dir(0);
    let long = vec![b'x'; 60];
    assert_eq!(
        dir.add_dirent(&mut d, 11, &long, 1),
        Err(Errno::NameTooLong)
    );
    let ok = vec![b'y'; 56];
    dir.add_dirent(&mut d, 11, &ok, 1).unwrap();
}

#[test]
fn free_entry_lookup() {
    let mut d = Disk::new(1024, 64, false);
    let mut dir = fresh_dir(0);
    dir.add_dirent(&mut d, 11, &b"foo".to_vec(), 1).unwrap();
    dir.add_dirent(&mut d, 12, &b"bar".to_vec(), 1).unwrap();
    // A fully live directory has no free record of any useful size.
    assert!(dir.get_free_entry(&d, 1024).unwrap().is_none());
    // Freeing `foo` leaves a block-wide free record at the front.
    dir.remove_dirent(&mut d, &b"foo".to_vec()).unwrap();
    assert_eq!(dir.get_free_entry(&d, 16).unwrap(), Some(0));
}

#[test]
fn dot_entries_are_not_counted() {
    let mut d = Disk::new(1024, 64, false);
    let mut dir = fresh_dir(0);
    dir.add_dirent(&mut d, 2, &b".".to_vec(), 2).unwrap();
    dir.add_dirent(&mut d, 1, &b"..".to_vec(), 2).unwrap();
    assert_eq!(dir.get_dir_entries_count(&d).unwrap(), 0);
    dir.add_dirent(&mut d, 11, &b"data".to_vec(), 1).unwrap();
    assert_eq!(dir.get_dir_entries_count(&d).unwrap(), 1);
}

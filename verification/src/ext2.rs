//! The ext2 storage engine: block device adapter, on-disk inodes with
//! multi-level block indirection, and directory entries.

pub mod dirent;
pub mod disk;
pub mod inode;

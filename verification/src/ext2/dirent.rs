//! Directory entries: variable-length records that tile each content block
//! of a directory, with allocation, splitting and free-entry compaction.

use vstd::prelude::*;
use crate::errno::Errno;
use crate::ext2::disk::Disk;
use crate::ext2::inode::{Ext2INode, FileType};

verus! {

/// The size of a directory entry's fixed header: inode number, record
/// length, name length and file type byte.
pub const DIRENT_HEADER_SIZE: u16 = 8;

/// One directory entry: the inode it names (0 when the entry is free), the
/// record length it occupies in its block, the file type byte, and the
/// name bytes.
pub struct DirectoryEntry {
    /// The inode the entry points to; 0 means the entry is free.
    pub inode: u32,
    /// The record length: header plus name plus padding.
    pub total_size: u16,
    /// The file type byte.
    pub file_type: u8,
    /// The name bytes.
    pub name: Vec<u8>,
}

impl DirectoryEntry {
    /// The record is at least as long as its header and name, and the name
    /// length fits the on-disk byte.
    pub open spec fn wf(self) -> bool {
        &&& DIRENT_HEADER_SIZE + self.name.len() <= self.total_size
        &&& self.name.len() <= 255
    }

    /// Creates an entry for inode `inode` named `name`, occupying
    /// `total_size` bytes in its block.
    pub fn new(inode: u32, total_size: u16, file_type: u8, name: Vec<u8>) -> (r: DirectoryEntry)
        requires
            DIRENT_HEADER_SIZE + name.len() <= total_size,
            name.len() <= 255,
        ensures
            r.wf(),
            r.inode == inode,
            r.total_size == total_size,
            r.file_type == file_type,
            r.name == name,
    {
        DirectoryEntry { inode, total_size, file_type, name }
    }

    /// Tells whether the entry is free.
    pub fn is_free(&self) -> (r: bool)
        ensures
            r == (self.inode == 0),
    {
        self.inode == 0
    }

    /// Returns the inode the entry points to.
    pub fn get_inode(&self) -> (r: u32)
        ensures
            r == self.inode,
    {
        self.inode
    }

    /// Returns the record length of the entry.
    pub fn get_total_size(&self) -> (r: u16)
        ensures
            r == self.total_size,
    {
        self.total_size
    }

    /// Frees or redirects the entry by setting its inode.
    pub fn set_inode(&mut self, inode: u32)
        ensures
            *final(self) == (DirectoryEntry { inode, ..*old(self) }),
    {
        self.inode = inode;
    }

    /// Splits the entry in two: the entry keeps `keep` bytes of record
    /// length, and the tail becomes a new free entry with the remainder.
    /// The two record lengths sum to the original, so the block stays
    /// exactly tiled.
    pub fn split(&mut self, keep: u16) -> (tail: DirectoryEntry)
        requires
            old(self).wf(),
            DIRENT_HEADER_SIZE + old(self).name.len() <= keep,
            keep + DIRENT_HEADER_SIZE <= old(self).total_size,
        ensures
            final(self).wf(),
            tail.wf(),
            final(self).total_size == keep,
            tail.inode == 0,
            tail.name.len() == 0,
            final(self).total_size + tail.total_size == old(self).total_size,
            *final(self) == (DirectoryEntry { total_size: keep, ..*old(self) }),
    {
        let tail_size = self.total_size - keep;
        self.total_size = keep;
        DirectoryEntry { inode: 0, total_size: tail_size, file_type: 0, name: Vec::new() }
    }

    /// Extends the entry over the following free entry `next`, merging the
    /// two records into one. The record length is the sum of both, so the
    /// block stays exactly tiled.
    pub fn merge(&mut self, next: DirectoryEntry)
        requires
            old(self).wf(),
            old(self).total_size + next.total_size <= u16::MAX,
        ensures
            final(self).wf(),
            final(self).total_size == old(self).total_size + next.total_size,
            *final(self) == (DirectoryEntry {
                total_size: final(self).total_size,
                ..*old(self)
            }),
    {
        self.total_size = self.total_size + next.total_size;
    }
}

/// The sum of the record lengths of a sequence of entries.
pub open spec fn total_sizes(es: Seq<DirectoryEntry>) -> int
    decreases es.len(),
{
    if es.len() == 0 {
        0
    } else {
        total_sizes(es.drop_last()) + es.last().total_size
    }
}

/// Inserting an entry adds its record length to the sum.
pub proof fn lemma_total_sizes_insert(s: Seq<DirectoryEntry>, i: int, e: DirectoryEntry)
    requires
        0 <= i <= s.len(),
    ensures
        total_sizes(s.insert(i, e)) == total_sizes(s) + e.total_size,
    decreases s.len(),
{
    let t = s.insert(i, e);
    if i == s.len() {
        assert(t.drop_last() =~= s);
    } else {
        assert(t.drop_last() =~= s.drop_last().insert(i, e));
        assert(t.last() == s.last());
        lemma_total_sizes_insert(s.drop_last(), i, e);
    }
}

/// Removing an entry takes its record length out of the sum.
pub proof fn lemma_total_sizes_remove(s: Seq<DirectoryEntry>, i: int)
    requires
        0 <= i < s.len(),
    ensures
        total_sizes(s.remove(i)) == total_sizes(s) - s[i].total_size,
    decreases s.len(),
{
    let t = s.remove(i);
    if i == s.len() - 1 {
        assert(t =~= s.drop_last());
    } else {
        assert(t.drop_last() =~= s.drop_last().remove(i));
        assert(t.last() == s.last());
        lemma_total_sizes_remove(s.drop_last(), i);
    }
}

/// Whether a sequence of entries exactly tiles a directory block of
/// `block_size` bytes: every record well formed and the record lengths
/// summing to the block size, with no entry straddling the block.
pub open spec fn block_tiled(es: Seq<DirectoryEntry>, block_size: int) -> bool {
    &&& total_sizes(es) == block_size
    &&& forall|i: int| 0 <= i < es.len() ==> (#[trigger] es[i]).wf()
}

/// Compares two byte vectors for equality.
pub fn bytes_eq(a: &Vec<u8>, b: &Vec<u8>) -> (r: bool)
    ensures
        r == (a@ =~= b@),
{
    if a.len() != b.len() {
        return false;
    }
    let mut i: usize = 0;
    while i < a.len()
        invariant
            i <= a.len(),
            a.len() == b.len(),
            forall|j: int| 0 <= j < i ==> a[j] == b[j],
        decreases a.len() - i,
    {
        if a[i] != b[i] {
            return false;
        }
        i += 1;
    }
    true
}

/// The 16-bit little-endian word at offset `off` of `b`.
pub open spec fn u16_at(b: Seq<u8>, off: int) -> u16 {
    (b[off] as u16) | ((b[off + 1] as u16) << 8)
}

/// The 32-bit little-endian word at offset `off` of `b`.
pub open spec fn u32_at(b: Seq<u8>, off: int) -> u32 {
    (b[off] as u32) | ((b[off + 1] as u32) << 8) | ((b[off + 2] as u32) << 16)
        | ((b[off + 3] as u32) << 24)
}

/// The fields one record read carries: the inode number, the record
/// length, the file type byte and the name bytes.
pub open spec fn ent_view(e: DirectoryEntry) -> (u32, u16, u8, Seq<u8>) {
    (e.inode, e.total_size, e.file_type, e.name@)
}

/// The records a directory block parses into from offset `off` on, or
/// nothing when a record is malformed: its header past the end, its length
/// shorter than header and name, or its record crossing the end.
pub open spec fn parse_spec(b: Seq<u8>, off: int) -> Option<Seq<(u32, u16, u8, Seq<u8>)>>
    decreases b.len() - off,
{
    if off == b.len() {
        Some(Seq::empty())
    } else if !(0 <= off && off + DIRENT_HEADER_SIZE <= b.len()) {
        None
    } else {
        let ts = u16_at(b, off + 4) as int;
        let nl = b[off + 6] as int;
        if ts < DIRENT_HEADER_SIZE + nl || off + ts > b.len() {
            None
        } else {
            let e = (
                u32_at(b, off),
                u16_at(b, off + 4),
                b[off + 7],
                b.subrange(off + DIRENT_HEADER_SIZE, off + DIRENT_HEADER_SIZE + nl),
            );
            match parse_spec(b, off + ts) {
                Some(rest) => Some(seq![e] + rest),
                None => None,
            }
        }
    }
}

/// The serialized form of one entry: a little-endian header of inode
/// number, record length, name length and file type, then the name bytes,
/// then zero padding up to the record length.
pub open spec fn encode_spec(e: DirectoryEntry) -> Seq<u8> {
    Seq::new(
        e.total_size as nat,
        |j: int|
            if j == 0 {
                (e.inode & 0xff) as u8
            } else if j == 1 {
                ((e.inode >> 8) & 0xff) as u8
            } else if j == 2 {
                ((e.inode >> 16) & 0xff) as u8
            } else if j == 3 {
                ((e.inode >> 24) & 0xff) as u8
            } else if j == 4 {
                (e.total_size & 0xff) as u8
            } else if j == 5 {
                ((e.total_size >> 8) & 0xff) as u8
            } else if j == 6 {
                e.name.len() as u8
            } else if j == 7 {
                e.file_type
            } else if j < DIRENT_HEADER_SIZE + e.name.len() {
                e.name[j - DIRENT_HEADER_SIZE]
            } else {
                0u8
            },
    )
}

impl DirectoryEntry {
    /// Serializes the entry into its on-disk record.
    pub fn encode(&self) -> (r: Vec<u8>)
        requires
            self.wf(),
        ensures
            r@ == encode_spec(*self),
            r.len() == self.total_size,
    {
        let mut out: Vec<u8> = Vec::new();
        out.push((self.inode & 0xff) as u8);
        out.push(((self.inode >> 8u32) & 0xff) as u8);
        out.push(((self.inode >> 16u32) & 0xff) as u8);
        out.push(((self.inode >> 24u32) & 0xff) as u8);
        out.push((self.total_size & 0xff) as u8);
        out.push(((self.total_size >> 8u16) & 0xff) as u8);
        out.push(self.name.len() as u8);
        out.push(self.file_type);
        let mut i: usize = 0;
        while i < self.name.len()
            invariant
                i <= self.name.len(),
                out.len() == DIRENT_HEADER_SIZE + i,
                self.wf(),
                forall|j: int| 0 <= j < DIRENT_HEADER_SIZE + i ==> out[j] == encode_spec(*self)[j],
            decreases self.name.len() - i,
        {
            out.push(self.name[i]);
            i += 1;
        }
        while out.len() < self.total_size as usize
            invariant
                DIRENT_HEADER_SIZE + self.name.len() <= out.len() <= self.total_size,
                self.wf(),
                forall|j: int| 0 <= j < out.len() ==> out[j] == encode_spec(*self)[j],
            decreases self.total_size - out.len(),
        {
            out.push(0u8);
        }
        proof {
            assert(out@ =~= encode_spec(*self));
        }
        out
    }

    /// Parses the entry whose record starts at `off` in `block`. Fails
    /// with `IOError` if and only if the header does not fit, the record
    /// length is shorter than its header and name, or the record crosses
    /// the end of the block.
    pub fn decode(block: &Vec<u8>, off: usize) -> (r: Result<DirectoryEntry, Errno>)
        ensures
            r matches Ok(e) ==> {
                &&& e.wf()
                &&& off + DIRENT_HEADER_SIZE <= block.len()
                &&& off + e.total_size <= block.len()
                &&& e.total_size >= DIRENT_HEADER_SIZE
                &&& e.inode == u32_at(block@, off as int)
                &&& e.total_size == u16_at(block@, off + 4)
                &&& e.file_type == block@[off + 7]
                &&& e.name.len() == block@[off + 6]
                &&& e.name@ == block@.subrange(
                    off + DIRENT_HEADER_SIZE,
                    off + DIRENT_HEADER_SIZE + block@[off + 6],
                )
            },
            r is Err ==> r == Result::<DirectoryEntry, Errno>::Err(Errno::IOError),
            (r is Err) <==> (off + DIRENT_HEADER_SIZE > block.len()
                || (u16_at(block@, off + 4) as int)
                    < DIRENT_HEADER_SIZE + block@[off + 6]
                || off + u16_at(block@, off + 4) > block.len()),
    {
        if off > block.len() || block.len() - off < DIRENT_HEADER_SIZE as usize {
            return Err(Errno::IOError);
        }
        let inode = (block[off] as u32) | ((block[off + 1] as u32) << 8u32)
            | ((block[off + 2] as u32) << 16u32) | ((block[off + 3] as u32) << 24u32);
        let total_size = (block[off + 4] as u16) | ((block[off + 5] as u16) << 8u16);
        let name_len = block[off + 6] as usize;
        let file_type = block[off + 7];
        if (total_size as usize) < DIRENT_HEADER_SIZE as usize + name_len {
            return Err(Errno::IOError);
        }
        if block.len() - off < total_size as usize {
            return Err(Errno::IOError);
        }
        let mut name: Vec<u8> = Vec::new();
        let mut i: usize = 0;
        while i < name_len
            invariant
                i <= name_len,
                name.len() == i,
                off + DIRENT_HEADER_SIZE + name_len <= block.len(),
                forall|j: int| 0 <= j < i
                    ==> name[j] == block[off + DIRENT_HEADER_SIZE + j],
            decreases name_len - i,
        {
            name.push(block[off + DIRENT_HEADER_SIZE as usize + i]);
            i += 1;
        }
        proof {
            assert(name@ =~= block@.subrange(
                off + DIRENT_HEADER_SIZE,
                off + DIRENT_HEADER_SIZE + name_len as int,
            ));
        }
        Ok(DirectoryEntry { inode, total_size, file_type, name })
    }
}

/// The serialized form of a sequence of entries: their records, in order.
pub open spec fn serialize_spec(es: Seq<DirectoryEntry>) -> Seq<u8>
    decreases es.len(),
{
    if es.len() == 0 {
        Seq::empty()
    } else {
        encode_spec(es[0]) + serialize_spec(es.drop_first())
    }
}

/// Parsing is invariant under an untouched prefix: records read from
/// `pre + b` at offsets past `pre` are the records of `b`.
pub proof fn lemma_parse_shift(pre: Seq<u8>, b: Seq<u8>, off: int)
    requires
        0 <= off <= b.len(),
    ensures
        parse_spec(pre + b, pre.len() + off) == parse_spec(b, off),
    decreases b.len() - off,
{
    let all = pre + b;
    let o2 = pre.len() + off;
    if off == b.len() {
    } else {
        if off + DIRENT_HEADER_SIZE <= b.len() {
            assert(all[o2 + 4] == b[off + 4] && all[o2 + 5] == b[off + 5]
                && all[o2 + 6] == b[off + 6]);
            let ts = u16_at(b, off + 4) as int;
            let nl = b[off + 6] as int;
            assert(u16_at(all, o2 + 4) == u16_at(b, off + 4));
            if !(ts < DIRENT_HEADER_SIZE + nl || off + ts > b.len()) {
                assert(all[o2] == b[off] && all[o2 + 1] == b[off + 1]
                    && all[o2 + 2] == b[off + 2] && all[o2 + 3] == b[off + 3]
                    && all[o2 + 7] == b[off + 7]);
                assert(u32_at(all, o2) == u32_at(b, off));
                assert(all.subrange(o2 + DIRENT_HEADER_SIZE, o2 + DIRENT_HEADER_SIZE + nl)
                    =~= b.subrange(off + DIRENT_HEADER_SIZE, off + DIRENT_HEADER_SIZE + nl));
                lemma_parse_shift(pre, b, off + ts);
            }
        }
    }
}

/// A serialized sequence of well-formed records parses back to the same
/// records.
pub proof fn lemma_parse_of_serialized(es: Seq<DirectoryEntry>)
    requires
        forall|i: int| 0 <= i < es.len() ==> (#[trigger] es[i]).wf(),
    ensures
        parse_spec(serialize_spec(es), 0)
            == Some(es.map_values(|e: DirectoryEntry| ent_view(e))),
    decreases es.len(),
{
    let bytes = serialize_spec(es);
    if es.len() == 0 {
        assert(bytes =~= Seq::<u8>::empty());
        assert(es.map_values(|e: DirectoryEntry| ent_view(e)) =~= Seq::empty());
    } else {
        let e = es[0];
        let rec = encode_spec(e);
        let rest = serialize_spec(es.drop_first());
        let ts = e.total_size as int;
        assert(bytes == rec + rest);
        assert(rec.len() == ts);
        // The record's header reads back as the entry's fields.
        assert(forall|j: int| 0 <= j < ts ==> bytes[j] == rec[j]);
        let tsw = e.total_size;
        let ino = e.inode;
        assert(((tsw & 0xff) as u8 as u16) | ((((tsw >> 8) & 0xff) as u8 as u16) << 8) == tsw)
            by (bit_vector);
        assert(u16_at(bytes, 4) == tsw);
        assert(((ino & 0xff) as u8 as u32) | ((((ino >> 8) & 0xff) as u8 as u32) << 8)
            | ((((ino >> 16) & 0xff) as u8 as u32) << 16)
            | ((((ino >> 24) & 0xff) as u8 as u32) << 24) == ino) by (bit_vector);
        assert(u32_at(bytes, 0) == ino);
        let nl = e.name.len() as int;
        assert(bytes[6] == nl as u8 && bytes[7] == e.file_type);
        assert(bytes.subrange(DIRENT_HEADER_SIZE as int, DIRENT_HEADER_SIZE + nl)
            =~= e.name@);
        assert(forall|i: int| 0 <= i < es.len() - 1
            ==> (#[trigger] es.drop_first()[i]) == es[i + 1]);
        lemma_parse_of_serialized(es.drop_first());
        lemma_parse_shift(rec, rest, 0);
        assert(parse_spec(bytes, ts) == parse_spec(rest, 0));
        let vs = es.map_values(|e2: DirectoryEntry| ent_view(e2));
        let vs_rest = es.drop_first().map_values(|e2: DirectoryEntry| ent_view(e2));
        assert(vs =~= seq![ent_view(e)] + vs_rest);
        assert(parse_spec(bytes, 0) == Some(seq![ent_view(e)] + vs_rest));
    }
}

/// Parses a whole directory block into its entries. Succeeds exactly when
/// the records tile the block: each well formed, none straddling the end,
/// and the record lengths summing to the block length.
pub fn parse_block(block: &Vec<u8>) -> (r: Result<Vec<DirectoryEntry>, Errno>)
    ensures
        r matches Ok(es) ==> block_tiled(es@, block.len() as int)
            && parse_spec(block@, 0) == Some(es@.map_values(|e: DirectoryEntry| ent_view(e))),
        r is Err ==> r == Result::<Vec<DirectoryEntry>, Errno>::Err(Errno::IOError)
            && parse_spec(block@, 0) is None,
{
    let mut es: Vec<DirectoryEntry> = Vec::new();
    let mut off: usize = 0;
    while off < block.len()
        invariant
            off <= block.len(),
            total_sizes(es@) == off,
            forall|i: int| 0 <= i < es.len() ==> (#[trigger] es@[i]).wf(),
            (match parse_spec(block@, off as int) {
                Some(rest) => parse_spec(block@, 0)
                    == Some(es@.map_values(|e: DirectoryEntry| ent_view(e)) + rest),
                None => parse_spec(block@, 0) is None,
            }),
        decreases block.len() - off,
    {
        let ghost off0 = off as int;
        let e = match DirectoryEntry::decode(block, off) {
            Ok(e) => e,
            Err(e2) => {
                proof {
                    assert(parse_spec(block@, off0) is None);
                }
                return Err(e2);
            },
        };
        let ts = e.total_size as usize;
        proof {
            assert(es@.push(e).drop_last() =~= es@);
            let views = es@.map_values(|e2: DirectoryEntry| ent_view(e2));
            let views1 = es@.push(e).map_values(|e2: DirectoryEntry| ent_view(e2));
            assert(views1 =~= views + seq![ent_view(e)]);
            let pr = parse_spec(block@, off0 + ts);
            match pr {
                Some(rest) => {
                    assert(parse_spec(block@, off0) == Some(seq![ent_view(e)] + rest));
                    assert(views + (seq![ent_view(e)] + rest) =~= views1 + rest);
                    assert(parse_spec(block@, 0) == Some(views1 + rest));
                },
                None => {
                    assert(u16_at(block@, off0 + 4) == e.total_size);
                    assert(block@[off0 + 6] == e.name.len());
                    assert(parse_spec(block@, off0) is None);
                },
            }
        }
        es.push(e);
        off = off + ts;
    }
    proof {
        assert(parse_spec(block@, off as int) == Some(Seq::<(u32, u16, u8, Seq<u8>)>::empty()));
        assert(es@.map_values(|e: DirectoryEntry| ent_view(e))
            + Seq::<(u32, u16, u8, Seq<u8>)>::empty()
            =~= es@.map_values(|e: DirectoryEntry| ent_view(e)));
    }
    Ok(es)
}

/// Serializes a sequence of entries that tiles a block back into the
/// block's bytes; the bytes parse back to the same records.
pub fn serialize_block(es: &Vec<DirectoryEntry>, block_size: u32) -> (r: Vec<u8>)
    requires
        block_tiled(es@, block_size as int),
    ensures
        r.len() == block_size,
        r@ == serialize_spec(es@),
        parse_spec(r@, 0) == Some(es@.map_values(|e: DirectoryEntry| ent_view(e))),
{
    let mut out: Vec<u8> = Vec::new();
    let mut i: usize = 0;
    proof {
        assert(es@.skip(0) =~= es@);
    }
    while i < es.len()
        invariant
            i <= es.len(),
            out.len() == total_sizes(es@.subrange(0, i as int)),
            block_tiled(es@, block_size as int),
            serialize_spec(es@) == out@ + serialize_spec(es@.skip(i as int)),
        decreases es.len() - i,
    {
        proof {
            assert(es@.subrange(0, i as int + 1).drop_last() =~= es@.subrange(0, i as int));
            assert(es@.subrange(0, i as int + 1).last() == es@[i as int]);
            lemma_total_sizes_prefix(es@, i as int);
            assert(es@.skip(i as int)[0] == es@[i as int]);
            assert(es@.skip(i as int).drop_first() =~= es@.skip(i as int + 1));
        }
        let ghost out0 = out@;
        let mut rec = es[i].encode();
        let mut k: usize = 0;
        let rl = rec.len();
        while k < rl
            invariant
                k <= rl,
                rl == rec.len(),
                out.len() == total_sizes(es@.subrange(0, i as int)) + k,
                out@ == out0 + rec@.subrange(0, k as int),
            decreases rl - k,
        {
            proof {
                assert((out0 + rec@.subrange(0, k as int)).push(rec@[k as int])
                    =~= out0 + rec@.subrange(0, k as int + 1));
            }
            out.push(rec[k]);
            k += 1;
        }
        proof {
            assert(rec@.subrange(0, rl as int) =~= rec@);
            assert(out@ =~= out0 + encode_spec(es@[i as int]));
            assert(serialize_spec(es@.skip(i as int))
                == encode_spec(es@[i as int]) + serialize_spec(es@.skip(i as int + 1)));
            assert(out0 + (encode_spec(es@[i as int]) + serialize_spec(es@.skip(i as int + 1)))
                =~= out@ + serialize_spec(es@.skip(i as int + 1)));
        }
        i += 1;
    }
    proof {
        assert(es@.subrange(0, es@.len() as int) =~= es@);
        assert(serialize_spec(es@.skip(es@.len() as int)) =~= Seq::<u8>::empty());
        assert(out@ + Seq::<u8>::empty() =~= out@);
        lemma_parse_of_serialized(es@);
    }
    out
}

/// A prefix of a tiled block's entries never sums past the block.
pub proof fn lemma_total_sizes_prefix(es: Seq<DirectoryEntry>, i: int)
    requires
        0 <= i < es.len(),
    ensures
        total_sizes(es.subrange(0, i)) + es[i].total_size <= total_sizes(es),
        total_sizes(es.subrange(0, i)) >= 0,
        total_sizes(es.subrange(0, i + 1))
            == total_sizes(es.subrange(0, i)) + es[i].total_size,
    decreases es.len(),
{
    lemma_total_sizes_nonneg(es.subrange(0, i));
    assert(es.subrange(0, i + 1).drop_last() =~= es.subrange(0, i));
    assert(es.subrange(0, i + 1).last() == es[i]);
    if i + 1 == es.len() {
        assert(es.subrange(0, i + 1) =~= es);
    } else {
        lemma_total_sizes_prefix_le(es, i + 1);
    }
}

/// Record lengths are nonnegative, so any sum of them is.
pub proof fn lemma_total_sizes_nonneg(es: Seq<DirectoryEntry>)
    ensures
        total_sizes(es) >= 0,
    decreases es.len(),
{
    if es.len() > 0 {
        lemma_total_sizes_nonneg(es.drop_last());
    }
}

/// A prefix sums to no more than the whole.
pub proof fn lemma_total_sizes_prefix_le(es: Seq<DirectoryEntry>, i: int)
    requires
        0 <= i <= es.len(),
    ensures
        total_sizes(es.subrange(0, i)) <= total_sizes(es),
    decreases es.len() - i,
{
    if i < es.len() {
        assert(es.subrange(0, i + 1).drop_last() =~= es.subrange(0, i));
        assert(es.subrange(0, i + 1).last() == es[i]);
        lemma_total_sizes_prefix_le(es, i + 1);
    } else {
        assert(es.subrange(0, i) =~= es);
    }
}

/// Any single record length is bounded by the sum of all of them.
pub proof fn lemma_total_sizes_ge_element(es: Seq<DirectoryEntry>, i: int)
    requires
        0 <= i < es.len(),
    ensures
        es[i].total_size <= total_sizes(es),
    decreases es.len(),
{
    if i == es.len() - 1 {
        lemma_total_sizes_nonneg(es.drop_last());
    } else {
        lemma_total_sizes_ge_element(es.drop_last(), i);
    }
}

/// Copies a byte vector.
pub fn copy_bytes(src: &Vec<u8>) -> (r: Vec<u8>)
    ensures
        r@ == src@,
{
    let mut out: Vec<u8> = Vec::new();
    let mut i: usize = 0;
    while i < src.len()
        invariant
            i <= src.len(),
            out.len() == i,
            forall|j: int| 0 <= j < i ==> out[j] == src[j],
        decreases src.len() - i,
    {
        out.push(src[i]);
        i += 1;
    }
    proof {
        assert(out@ =~= src@);
    }
    out
}

/// Returns the first live entry carrying `name`, if any.
pub fn find_live_by_name(es: &Vec<DirectoryEntry>, name: &Vec<u8>) -> (r: Option<usize>)
    ensures
        r matches Some(k) ==> k < es.len() && es@[k as int].inode != 0
            && es@[k as int].name@ =~= name@,
        r is None ==> forall|i: int| 0 <= i < es.len()
            ==> !((#[trigger] es@[i]).inode != 0 && es@[i].name@ =~= name@),
{
    let mut i: usize = 0;
    while i < es.len()
        invariant
            i <= es.len(),
            forall|j: int| 0 <= j < i
                ==> !((#[trigger] es@[j]).inode != 0 && es@[j].name@ =~= name@),
        decreases es.len() - i,
    {
        if !es[i].is_free() && bytes_eq(&es[i].name, name) {
            return Some(i);
        }
        i += 1;
    }
    None
}

/// Returns the first free entry with a record of at least `min_size`
/// bytes, if any.
pub fn find_free_min_size(es: &Vec<DirectoryEntry>, min_size: u16) -> (r: Option<usize>)
    ensures
        r matches Some(k) ==> k < es.len() && es@[k as int].inode == 0
            && es@[k as int].total_size >= min_size,
        r is None ==> forall|i: int| 0 <= i < es.len()
            ==> !((#[trigger] es@[i]).inode == 0 && es@[i].total_size >= min_size),
{
    let mut i: usize = 0;
    while i < es.len()
        invariant
            i <= es.len(),
            forall|j: int| 0 <= j < i
                ==> !((#[trigger] es@[j]).inode == 0 && es@[j].total_size >= min_size),
        decreases es.len() - i,
    {
        if es[i].is_free() && es[i].get_total_size() >= min_size {
            return Some(i);
        }
        i += 1;
    }
    None
}

/// Whether an entry counts as a live member of its directory: it names an
/// inode and is neither of the two standard entries naming the directory
/// itself and its parent.
pub open spec fn is_live_member(e: DirectoryEntry) -> bool {
    &&& e.inode != 0
    &&& e.name@ !~= seq![46u8]
    &&& e.name@ !~= seq![46u8, 46u8]
}

/// The number of live member entries of a sequence.
pub open spec fn live_count(es: Seq<DirectoryEntry>) -> int
    decreases es.len(),
{
    if es.len() == 0 {
        0
    } else {
        live_count(es.drop_last()) + if is_live_member(es.last()) {
            1int
        } else {
            0int
        }
    }
}

/// The number of live member records among the parsed views `vs`.
pub open spec fn live_views(vs: Seq<(u32, u16, u8, Seq<u8>)>) -> int
    decreases vs.len(),
{
    if vs.len() == 0 {
        0
    } else {
        live_views(vs.drop_last()) + if vs.last().0 != 0 && vs.last().3 !~= seq![46u8]
            && vs.last().3 !~= seq![46u8, 46u8] {
            1int
        } else {
            0int
        }
    }
}

/// Counting live members over the parsed views of records equals counting
/// them over the records themselves.
pub proof fn lemma_live_views_count(vs: Seq<(u32, u16, u8, Seq<u8>)>, es: Seq<DirectoryEntry>)
    requires
        vs.len() == es.len(),
        forall|k: int| 0 <= k < es.len() ==> vs[k] == ent_view(#[trigger] es[k]),
    ensures
        live_views(vs) == live_count(es),
    decreases es.len(),
{
    if es.len() > 0 {
        assert(forall|k: int| 0 <= k < es.len() - 1
            ==> vs.drop_last()[k] == vs[k] && #[trigger] es.drop_last()[k] == es[k]);
        lemma_live_views_count(vs.drop_last(), es.drop_last());
        assert(vs.last() == ent_view(es.last()));
    }
}

/// Counts the live entries of a block, leaving out the two standard
/// entries naming the directory itself and its parent.
pub fn count_live(es: &Vec<DirectoryEntry>) -> (r: usize)
    ensures
        r == live_count(es@),
        r <= es.len(),
{
    let mut count: usize = 0;
    let mut i: usize = 0;
    while i < es.len()
        invariant
            i <= es.len(),
            count <= i,
            count == live_count(es@.subrange(0, i as int)),
        decreases es.len() - i,
    {
        proof {
            assert(es@.subrange(0, i as int + 1).drop_last() =~= es@.subrange(0, i as int));
            assert(es@.subrange(0, i as int + 1).last() == es@[i as int]);
        }
        if !es[i].is_free() {
            let n = &es[i].name;
            let is_dot = n.len() == 1 && n[0] == 46;
            let is_dotdot = n.len() == 2 && n[0] == 46 && n[1] == 46;
            proof {
                assert(is_dot == (n@ =~= seq![46u8]));
                assert(is_dotdot == (n@ =~= seq![46u8, 46u8]));
            }
            if !is_dot && !is_dotdot {
                count += 1;
            }
        }
        i += 1;
    }
    proof {
        assert(es@.subrange(0, es@.len() as int) =~= es@);
    }
    count
}

impl Ext2INode {
    /// The shape a directory inode must have for entry operations: well
    /// formed, its size a whole number of blocks within the addressable
    /// range, on a device whose blocks are small enough that a record
    /// spanning a whole block, or two merged free records, still fits the
    /// 16-bit record length field.
    pub open spec fn dir_ok(self, d: Disk) -> bool {
        &&& self.wf()
        &&& d.wf()
        &&& self.size_addressable(d)
        &&& self.size_spec(d) % (d.block_size as int) == 0
        &&& d.block_size <= 32768
    }

    /// The bytes of directory block `bi` of the inode, as reads see them.
    pub open spec fn dir_block_bytes(self, d: Disk, bi: int) -> Seq<u8> {
        Seq::new(d.block_size as nat, |j: int| self.byte_at(d, bi * d.block_size + j))
    }

    /// A directory in the healthy shape the mutation contracts pin
    /// exactly: it fits the direct blocks, every block is backed by an
    /// allocated device block of its own, and every block parses into
    /// records. Directory operations keep this shape.
    pub open spec fn dir_backed(self, d: Disk) -> bool {
        let nblocks = self.size_spec(d) / d.block_size as int;
        &&& self.dir_ok(d)
        &&& nblocks <= crate::ext2::inode::DIRECT_BLOCKS_COUNT
        &&& forall|bi: int| 0 <= bi < nblocks
            ==> (#[trigger] self.direct_block_ptrs@[bi]) != 0
                && d.block_ok(self.direct_block_ptrs@[bi])
        &&& forall|bi: int, bj: int| 0 <= bi < bj < nblocks
            ==> (#[trigger] self.direct_block_ptrs@[bi])
                != (#[trigger] self.direct_block_ptrs@[bj])
        &&& forall|bi: int| 0 <= bi < nblocks
            ==> parse_spec(#[trigger] self.dir_block_bytes(d, bi), 0) is Some
    }

    /// The number of live member entries across the first `n` directory
    /// blocks of the inode; a block that does not parse counts none.
    pub open spec fn dir_live_count(self, d: Disk, n: int) -> int
        decreases n,
    {
        if n <= 0 {
            0
        } else {
            self.dir_live_count(d, n - 1) + match parse_spec(
                self.dir_block_bytes(d, n - 1),
                0,
            ) {
                Some(vs) => live_views(vs),
                None => 0,
            }
        }
    }

    /// Reads directory block `bi` of the inode.
    fn read_dir_block(&self, bi: u32, d: &Disk) -> (r: Result<Vec<u8>, Errno>)
        requires
            self.dir_ok(*d),
            (bi + 1) * d.block_size <= self.size_spec(*d),
        ensures
            r matches Ok(b) ==> b.len() == d.block_size
                && b@ == self.dir_block_bytes(*d, bi as int),
            r is Err ==> r == Result::<Vec<u8>, Errno>::Err(Errno::IOError),
            self.dir_backed(*d) ==> r is Ok,
    {
        let ghost backed = self.dir_backed(*d);
        let bs = d.block_size;
        let mut buf: Vec<u8> = Vec::new();
        let mut i: u32 = 0;
        while i < bs
            invariant
                i <= bs,
                buf.len() == i,
            decreases bs - i,
        {
            buf.push(0u8);
            i += 1;
        }
        proof {
            let bsi = d.block_size as int;
            assert((bi as int) * bsi + bsi == (bi as int + 1) * bsi
                && 0 <= (bi as int) * bsi <= 0xFFFF_FFFF * 65536) by (nonlinear_arith)
                requires bi <= 0xFFFF_FFFFu32, 0 < bsi <= 65536,
            ;
        }
        let off: u64 = (bi as u64) * (bs as u64);
        proof {
            if backed {
                // Every position of a backed block resolves, so the read
                // cannot fail and covers the whole block.
                let bsi = bs as int;
                vstd::arithmetic::div_mod::lemma_div_is_ordered(
                    (bi as int + 1) * bsi,
                    self.size_spec(*d),
                    bsi,
                );
                vstd::arithmetic::div_mod::lemma_div_by_multiple(bi as int + 1, bsi);
                assert forall|j: int|
                    0 <= j < vstd::math::min(
                        buf@.len() as int,
                        self.size_spec(*d) - off,
                    ) implies #[trigger] self.pos_ok(*d, off + j) by {
                    let p = off + j;
                    vstd::arithmetic::div_mod::lemma_fundamental_div_mod_converse_div(
                        p,
                        bsi,
                        bi as int,
                        j,
                    );
                    assert(self.lookup_spec(*d, bi as int)
                        == Some(self.direct_block_ptrs@[bi as int]));
                }
            }
        }
        match self.read_content(off, &mut buf, d) {
            Ok(cnt) => {
                if cnt == bs as u64 {
                    proof {
                        assert(buf@ =~= self.dir_block_bytes(*d, bi as int));
                    }
                    Ok(buf)
                } else {
                    proof {
                        assert(!backed);
                    }
                    Err(Errno::IOError)
                }
            },
            Err(_) => Err(Errno::IOError),
        }
    }

    /// Writes the serialized entries `es` back as directory block `bi`.
    fn write_dir_block(&mut self, bi: u32, es: &Vec<DirectoryEntry>, d: &mut Disk)
        -> (r: Result<(), Errno>)
        requires
            old(self).dir_ok(*old(d)),
            block_tiled(es@, old(d).block_size as int),
            (bi + 1) * old(d).block_size <= old(self).size_spec(*old(d)),
        ensures
            final(self).dir_ok(*final(d)),
            final(self).size_spec(*final(d)) == old(self).size_spec(*old(d)),
            final(d).block_size == old(d).block_size,
            final(d).size64 == old(d).size64,
            final(d).blocks.len() == old(d).blocks.len(),
            r is Err ==> r == Result::<(), Errno>::Err(Errno::NoSpace)
                || r == Result::<(), Errno>::Err(Errno::IOError),
            // On a healthy directory the write lands: the block's records
            // become exactly `es`, and every other block keeps its bytes.
            old(self).dir_backed(*old(d)) ==> {
                &&& r is Ok
                &&& final(self).dir_backed(*final(d))
                &&& parse_spec(final(self).dir_block_bytes(*final(d), bi as int), 0)
                    == Some(es@.map_values(|e: DirectoryEntry| ent_view(e)))
                &&& forall|b2: int|
                    0 <= b2 < old(self).size_spec(*old(d)) / old(d).block_size as int
                        && b2 != bi
                        ==> #[trigger] final(self).dir_block_bytes(*final(d), b2)
                            == old(self).dir_block_bytes(*old(d), b2)
            },
    {
        let ghost backed = old(self).dir_backed(*old(d));
        let bs = d.block_size;
        let out = serialize_block(es, bs);
        proof {
            let bsi = d.block_size as int;
            assert((bi as int) * bsi + bsi == (bi as int + 1) * bsi
                && 0 <= (bi as int) * bsi <= 0xFFFF_FFFF * 65536) by (nonlinear_arith)
                requires bi <= 0xFFFF_FFFFu32, 0 < bsi <= 65536,
            ;
        }
        let off: u64 = (bi as u64) * (bs as u64);
        proof {
            let bsi = bs as int;
            // The written range is exactly block `bi`, which is backed.
            vstd::arithmetic::div_mod::lemma_fundamental_div_mod_converse_div(
                off as int,
                bsi,
                bi as int,
                0,
            );
            vstd::arithmetic::div_mod::lemma_fundamental_div_mod_converse_div(
                off as int + bsi - 1,
                bsi,
                bi as int,
                bsi - 1,
            );
            vstd::arithmetic::div_mod::lemma_div_is_ordered(
                (bi as int + 1) * bsi,
                old(self).size_spec(*old(d)),
                bsi,
            );
            vstd::arithmetic::div_mod::lemma_div_by_multiple(bi as int + 1, bsi);
            if backed {
                let nblocks = old(self).size_spec(*old(d)) / bsi;
                assert(bi as int + 1 <= nblocks);
                assert((bi as int + 1) * bsi <= 12 * bsi) by (nonlinear_arith)
                    requires bi as int + 1 <= 12, bsi >= 0,
                ;
                assert(off as int / bsi == bi as int);
                assert((off as int + bsi - 1) / bsi == bi as int);
                assert(old(self).direct_range_backed(*old(d), off as int, bsi));
            }
        }
        let r = self.write_content(off, &out, d);
        match r {
            Ok(()) => {
                proof {
                    if backed {
                        lemma_dir_block_frame(
                            *old(self),
                            *old(d),
                            *self,
                            *d,
                            bi as int,
                            out@,
                            es@,
                        );
                    }
                }
                Ok(())
            },
            Err(Errno::InvalidArgument) => Err(Errno::IOError),
            Err(e2) => Err(e2),
        }
    }
}

impl Ext2INode {
    /// The number of whole directory blocks of the inode.
    fn dir_blocks(&self, d: &Disk) -> (r: u64)
        requires
            self.dir_ok(*d),
        ensures
            r == self.size_spec(*d) / d.block_size as int,
            (r as int) * (d.block_size as int) == self.size_spec(*d),
            r <= 0xFFFF_FFFF,
    {
        let size = self.get_size(d);
        let bs = d.block_size as u64;
        proof {
            vstd::arithmetic::div_mod::lemma_fundamental_div_mod(size as int, bs as int);
            vstd::arithmetic::div_mod::lemma_div_pos_is_pos(size as int, bs as int);
            vstd::arithmetic::div_mod::lemma_div_is_ordered(
                size as int,
                0xFFFF_FFFF * d.block_size as int,
                bs as int,
            );
            vstd::arithmetic::div_mod::lemma_div_by_multiple(0xFFFF_FFFF, bs as int);
            vstd::arithmetic::mul::lemma_mul_is_commutative(0xFFFF_FFFF, bs as int);
        }
        size / bs
    }

    /// Counts the entries of the directory, leaving out the two standard
    /// entries naming the directory itself and its parent. A file that is
    /// not a directory counts 0 entries.
    pub fn get_dir_entries_count(&self, d: &Disk) -> (r: Result<u64, Errno>)
        requires
            self.dir_ok(*d),
        ensures
            r is Err ==> r == Result::<u64, Errno>::Err(Errno::IOError),
            self.type_spec() != FileType::Directory
                ==> r == Result::<u64, Errno>::Ok(0),
            self.type_spec() == FileType::Directory
                ==> (r matches Ok(c) ==> c == self.dir_live_count(
                    *d,
                    self.size_spec(*d) / d.block_size as int,
                )),
            self.dir_backed(*d) ==> r is Ok,
    {
        let ghost backed0 = self.dir_backed(*d);
        if !matches!(self.get_type(), FileType::Directory) {
            return Ok(0);
        }
        let nblocks = self.dir_blocks(d);
        let mut count: u64 = 0;
        let mut bi: u64 = 0;
        while bi < nblocks
            invariant
                bi <= nblocks,
                nblocks <= 0xFFFF_FFFF,
                count <= bi * 0x10000,
                self.dir_ok(*d),
                self.type_spec() == FileType::Directory,
                (nblocks as int) * (d.block_size as int) == self.size_spec(*d),
                nblocks == self.size_spec(*d) / d.block_size as int,
                count == self.dir_live_count(*d, bi as int),
                backed0 == self.dir_backed(*d),
            decreases nblocks - bi,
        {
            proof {
                assert((bi as int + 1) * (d.block_size as int)
                    <= (nblocks as int) * (d.block_size as int)) by (nonlinear_arith)
                    requires bi < nblocks, d.block_size >= 1,
                ;
                assert((bi as int) * 0x10000 + 0x10000 == (bi as int + 1) * 0x10000)
                    by (nonlinear_arith);
            }
            let block = match self.read_dir_block(bi as u32, d) {
                Ok(b) => b,
                Err(e2) => {
                    return Err(e2);
                },
            };
            let es = match parse_block(&block) {
                Ok(es) => es,
                Err(e2) => {
                    proof {
                        if backed0 {
                            assert(parse_spec(self.dir_block_bytes(*d, bi as int), 0)
                                is Some);
                            assert(false);
                        }
                    }
                    return Err(e2);
                },
            };
            let c = count_live(&es);
            proof {
                // A block of at most 32768 bytes holds fewer than 0x10000
                // records, each at least one byte long.
                lemma_entries_bounded(es@, d.block_size as int);
                let vs = es@.map_values(|e2: DirectoryEntry| ent_view(e2));
                lemma_live_views_count(vs, es@);
                assert(self.dir_live_count(*d, bi as int + 1)
                    == self.dir_live_count(*d, bi as int) + live_views(vs));
            }
            count = count + c as u64;
            bi += 1;
        }
        Ok(count)
    }

    /// Returns the directory entry carrying `name`, or `None` if no block
    /// of the directory holds a live entry with that name.
    pub fn get_directory_entry(&self, name: &Vec<u8>, d: &Disk)
        -> (r: Result<Option<DirectoryEntry>, Errno>)
        requires
            self.dir_ok(*d),
        ensures
            r matches Ok(Some(e)) ==> e.inode != 0 && e.name@ =~= name@ && e.wf(),
            r == Result::<Option<DirectoryEntry>, Errno>::Ok(None)
                ==> forall|bi: int| 0 <= bi < self.size_spec(*d) / d.block_size as int
                    ==> (match parse_spec(#[trigger] self.dir_block_bytes(*d, bi), 0) {
                        Some(vs) => forall|k: int| 0 <= k < vs.len()
                            ==> !((#[trigger] vs[k]).0 != 0 && vs[k].3 =~= name@),
                        None => false,
                    }),
            r is Err ==> r == Result::<Option<DirectoryEntry>, Errno>::Err(Errno::IOError),
            self.dir_backed(*d) ==> r is Ok,
            // A found entry is a live record of some directory block.
            r matches Ok(Some(e)) ==> (self.dir_backed(*d) ==> exists|bi: int|
                0 <= bi < self.size_spec(*d) / d.block_size as int
                && (match parse_spec(#[trigger] self.dir_block_bytes(*d, bi), 0) {
                    Some(vs) => views_have_entry(vs, e.inode, e.file_type, e.name@),
                    None => false,
                })),
    {
        let ghost backed0 = self.dir_backed(*d);
        let nblocks = self.dir_blocks(d);
        let mut bi: u64 = 0;
        while bi < nblocks
            invariant
                bi <= nblocks,
                nblocks <= 0xFFFF_FFFF,
                self.dir_ok(*d),
                (nblocks as int) * (d.block_size as int) == self.size_spec(*d),
                nblocks == self.size_spec(*d) / d.block_size as int,
                backed0 == self.dir_backed(*d),
                forall|b2: int| 0 <= b2 < bi
                    ==> (match parse_spec(#[trigger] self.dir_block_bytes(*d, b2), 0) {
                        Some(vs) => forall|k: int| 0 <= k < vs.len()
                            ==> !((#[trigger] vs[k]).0 != 0 && vs[k].3 =~= name@),
                        None => false,
                    }),
            decreases nblocks - bi,
        {
            proof {
                assert((bi as int + 1) * (d.block_size as int)
                    <= (nblocks as int) * (d.block_size as int)) by (nonlinear_arith)
                    requires bi < nblocks, d.block_size >= 1,
                ;
            }
            let block = match self.read_dir_block(bi as u32, d) {
                Ok(b) => b,
                Err(e2) => {
                    return Err(e2);
                },
            };
            let mut es = match parse_block(&block) {
                Ok(es) => es,
                Err(e2) => {
                    proof {
                        if backed0 {
                            assert(parse_spec(self.dir_block_bytes(*d, bi as int), 0)
                                is Some);
                            assert(false);
                        }
                    }
                    return Err(e2);
                },
            };
            match find_live_by_name(&es, name) {
                Some(k) => {
                    proof {
                        if backed0 {
                            // The found record is a live view of this block.
                            let vs = es@.map_values(|e2: DirectoryEntry| ent_view(e2));
                            assert(parse_spec(self.dir_block_bytes(*d, bi as int), 0)
                                == Some(vs));
                            assert(vs[k as int] == ent_view(es@[k as int]));
                            assert(views_have_entry(
                                vs,
                                es@[k as int].inode,
                                es@[k as int].file_type,
                                es@[k as int].name@,
                            ));
                        }
                    }
                    let e = es.remove(k);
                    return Ok(Some(e));
                },
                None => {
                    proof {
                        let vs = es@.map_values(|e2: DirectoryEntry| ent_view(e2));
                        assert forall|k: int| 0 <= k < vs.len()
                            implies !((#[trigger] vs[k]).0 != 0 && vs[k].3 =~= name@) by {
                            assert(vs[k] == ent_view(es@[k]));
                        }
                    }
                },
            }
            bi += 1;
        }
        Ok(None)
    }

    /// Returns the byte offset of a free entry with a record of at least
    /// `min_size` bytes, or `None` if no block holds one.
    pub fn get_free_entry(&self, d: &Disk, min_size: u16) -> (r: Result<Option<u64>, Errno>)
        requires
            self.dir_ok(*d),
        ensures
            r is Err ==> r == Result::<Option<u64>, Errno>::Err(Errno::IOError),
            self.dir_backed(*d) ==> r is Ok,
            r matches Ok(Some(off)) ==> off < self.size_spec(*d),
            r == Result::<Option<u64>, Errno>::Ok(None)
                ==> forall|bi: int| 0 <= bi < self.size_spec(*d) / d.block_size as int
                    ==> (match parse_spec(#[trigger] self.dir_block_bytes(*d, bi), 0) {
                        Some(vs) => forall|k: int| 0 <= k < vs.len()
                            ==> !((#[trigger] vs[k]).0 == 0 && vs[k].1 >= min_size),
                        None => false,
                    }),
    {
        let ghost backed0 = self.dir_backed(*d);
        let nblocks = self.dir_blocks(d);
        let bs = d.block_size;
        let mut bi: u64 = 0;
        while bi < nblocks
            invariant
                bi <= nblocks,
                nblocks <= 0xFFFF_FFFF,
                bs == d.block_size,
                self.dir_ok(*d),
                (nblocks as int) * (d.block_size as int) == self.size_spec(*d),
                nblocks == self.size_spec(*d) / d.block_size as int,
                backed0 == self.dir_backed(*d),
                forall|b2: int| 0 <= b2 < bi
                    ==> (match parse_spec(#[trigger] self.dir_block_bytes(*d, b2), 0) {
                        Some(vs) => forall|k: int| 0 <= k < vs.len()
                            ==> !((#[trigger] vs[k]).0 == 0 && vs[k].1 >= min_size),
                        None => false,
                    }),
            decreases nblocks - bi,
        {
            proof {
                assert((bi as int + 1) * (d.block_size as int)
                    <= (nblocks as int) * (d.block_size as int)) by (nonlinear_arith)
                    requires bi < nblocks, d.block_size >= 1,
                ;
            }
            let block = match self.read_dir_block(bi as u32, d) {
                Ok(b) => b,
                Err(e2) => {
                    return Err(e2);
                },
            };
            let es = match parse_block(&block) {
                Ok(es) => es,
                Err(e2) => {
                    proof {
                        if backed0 {
                            assert(parse_spec(self.dir_block_bytes(*d, bi as int), 0)
                                is Some);
                            assert(false);
                        }
                    }
                    return Err(e2);
                },
            };
            let found = find_free_min_size(&es, min_size);
            proof {
                if found is None {
                    let vs = es@.map_values(|e2: DirectoryEntry| ent_view(e2));
                    assert forall|k: int| 0 <= k < vs.len()
                        implies !((#[trigger] vs[k]).0 == 0 && vs[k].1 >= min_size) by {
                        assert(vs[k] == ent_view(es@[k]));
                    }
                }
            }
            match found {
                Some(k) => {
                    // The in-block offset is the sum of the records before it.
                    let mut off_in: u64 = 0;
                    let mut t: usize = 0;
                    while t < k
                        invariant
                            t <= k,
                            k < es.len(),
                            off_in == total_sizes(es@.subrange(0, t as int)),
                            block_tiled(es@, bs as int),
                            bs <= 32768,
                        decreases k - t,
                    {
                        proof {
                            lemma_total_sizes_prefix(es@, t as int);
                            lemma_total_sizes_prefix_le(es@, t as int + 1);
                        }
                        off_in = off_in + es[t].get_total_size() as u64;
                        t += 1;
                    }
                    proof {
                        lemma_total_sizes_prefix(es@, k as int);
                        lemma_total_sizes_nonneg(es@.subrange(0, k as int));
                        assert((bi as int) * (bs as int) + (bs as int)
                            <= (nblocks as int) * (bs as int)) by (nonlinear_arith)
                            requires bi < nblocks, bs >= 1,
                        ;
                    }
                    return Ok(Some(bi * bs as u64 + off_in));
                },
                None => {},
            }
            bi += 1;
        }
        Ok(None)
    }

    /// Replaces the free record at position `k` of block `bi` by a live
    /// record for `entry_inode`, splitting off the remainder as a new free
    /// record when it can hold one, and writes the block back.
    #[verifier::rlimit(100)]
    fn insert_into_block(
        &mut self,
        bi: u32,
        es: Vec<DirectoryEntry>,
        k: usize,
        entry_inode: u32,
        file_type: u8,
        name: &Vec<u8>,
        entry_size: u16,
        d: &mut Disk,
    ) -> (r: Result<(), Errno>)
        requires
            old(self).dir_ok(*old(d)),
            (bi + 1) * old(d).block_size <= old(self).size_spec(*old(d)),
            block_tiled(es@, old(d).block_size as int),
            k < es@.len(),
            es@[k as int].inode == 0,
            es@[k as int].total_size >= entry_size,
            entry_size == DIRENT_HEADER_SIZE + name.len(),
            name.len() <= 255,
        ensures
            final(self).dir_ok(*final(d)),
            final(self).size_spec(*final(d)) == old(self).size_spec(*old(d)),
            final(d).block_size == old(d).block_size,
            final(d).size64 == old(d).size64,
            final(d).blocks.len() == old(d).blocks.len(),
            r is Err ==> r == Result::<(), Errno>::Err(Errno::NoSpace)
                || r == Result::<(), Errno>::Err(Errno::IOError),
            old(self).dir_backed(*old(d)) ==> ({
                &&& r is Ok
                &&& final(self).dir_backed(*final(d))
                &&& exists|b2: int|
                    0 <= b2 < final(self).size_spec(*final(d))
                        / final(d).block_size as int
                    && (match parse_spec(
                        #[trigger] final(self).dir_block_bytes(*final(d), b2),
                        0,
                    ) {
                        Some(vs) => views_have_entry(
                            vs,
                            entry_inode,
                            file_type,
                            name@,
                        ),
                        None => false,
                    })
            }),
    {
        let ghost backed0 = old(self).dir_backed(*old(d));
        let es2 = build_replacement(es, k, entry_inode, file_type, name, entry_size);
        let r = self.write_dir_block(bi, &es2, d);
        proof {
            if backed0 && r is Ok {
                // The written block now holds the new entry at position `k`.
                let bsi = d.block_size as int;
                vstd::arithmetic::div_mod::lemma_div_is_ordered(
                    (bi as int + 1) * bsi,
                    self.size_spec(*d),
                    bsi,
                );
                vstd::arithmetic::div_mod::lemma_div_by_multiple(bi as int + 1, bsi);
                let vs = es2@.map_values(|e2: DirectoryEntry| ent_view(e2));
                assert(vs[k as int] == ent_view(es2@[k as int]));
                assert(parse_spec(self.dir_block_bytes(*d, bi as int), 0) == Some(vs));
                assert(views_have_entry(vs, entry_inode, file_type, name@));
                assert((bi as int) < self.size_spec(*d) / bsi);
            }
        }
        r
    }

    /// Adds an entry for inode `entry_inode` named `name` to the
    /// directory: into the first free record that is large enough,
    /// splitting it when the remainder can hold another record, or into a
    /// fresh block appended at the end of the file. Fails with
    /// `NameTooLong` if and only if a record for `name` cannot fit one
    /// block. Every touched block stays exactly tiled by its records.
    #[verifier::rlimit(100)]
    pub fn add_dirent(
        &mut self,
        d: &mut Disk,
        entry_inode: u32,
        name: &Vec<u8>,
        file_type: u8,
    ) -> (r: Result<(), Errno>)
        requires
            old(self).dir_ok(*old(d)),
            name.len() <= 255,
            entry_inode != 0,
            old(self).size_spec(*old(d)) + old(d).block_size
                <= Ext2INode::max_blocks(*old(d)) * old(d).block_size,
            old(self).size_spec(*old(d)) + old(d).block_size
                <= 0xFFFF_FFFF * old(d).block_size as int,
            old(d).size64 || old(self).size_spec(*old(d)) + old(d).block_size <= u32::MAX,
        ensures
            final(self).dir_ok(*final(d)),
            final(d).block_size == old(d).block_size,
            final(d).size64 == old(d).size64,
            final(d).blocks.len() == old(d).blocks.len(),
            (DIRENT_HEADER_SIZE + name.len() > old(d).block_size)
                <==> (r == Result::<(), Errno>::Err(Errno::NameTooLong)),
            r is Ok ==> final(self).size_spec(*final(d)) == old(self).size_spec(*old(d))
                || final(self).size_spec(*final(d))
                    == old(self).size_spec(*old(d)) + old(d).block_size,
            // A fresh block is appended only when no block holds a free
            // record large enough for the new entry.
            (r is Ok && final(self).size_spec(*final(d))
                == old(self).size_spec(*old(d)) + old(d).block_size)
                ==> forall|bi: int|
                    0 <= bi < old(self).size_spec(*old(d)) / old(d).block_size as int
                    ==> (match parse_spec(
                        #[trigger] old(self).dir_block_bytes(*old(d), bi),
                        0,
                    ) {
                        Some(vs) => forall|k: int| 0 <= k < vs.len()
                            ==> !((#[trigger] vs[k]).0 == 0
                                && vs[k].1 >= DIRENT_HEADER_SIZE + name.len()),
                        None => false,
                    }),
            // An in-place insertion into a healthy directory leaves it
            // healthy and a block holding the new live entry.
            (r is Ok && old(self).dir_backed(*old(d))
                && final(self).size_spec(*final(d)) == old(self).size_spec(*old(d)))
                ==> ({
                &&& final(self).dir_backed(*final(d))
                &&& exists|bi: int|
                    0 <= bi < final(self).size_spec(*final(d))
                        / final(d).block_size as int
                    && (match parse_spec(
                        #[trigger] final(self).dir_block_bytes(*final(d), bi),
                        0,
                    ) {
                        Some(vs) => views_have_entry(vs, entry_inode, file_type, name@),
                        None => false,
                    })
            }),
            r is Err ==> r == Result::<(), Errno>::Err(Errno::NameTooLong)
                || r == Result::<(), Errno>::Err(Errno::NoSpace)
                || r == Result::<(), Errno>::Err(Errno::IOError),
    {
        let ghost backed0 = old(self).dir_backed(*old(d));
        let bs = d.block_size;
        if (DIRENT_HEADER_SIZE as u32) + (name.len() as u32) > bs {
            return Err(Errno::NameTooLong);
        }
        let entry_size: u16 = DIRENT_HEADER_SIZE + (name.len() as u16);
        let nblocks = self.dir_blocks(d);
        let mut bi: u64 = 0;
        while bi < nblocks
            invariant
                bi <= nblocks,
                nblocks <= 0xFFFF_FFFF,
                bs == d.block_size,
                entry_size == DIRENT_HEADER_SIZE + name.len(),
                name.len() <= 255,
                entry_size <= bs,
                self.dir_ok(*d),
                *self == *old(self),
                *d == *old(d),
                (nblocks as int) * (d.block_size as int) == self.size_spec(*d),
                nblocks == self.size_spec(*d) / d.block_size as int,
                forall|b2: int| 0 <= b2 < bi
                    ==> (match parse_spec(#[trigger] self.dir_block_bytes(*d, b2), 0) {
                        Some(vs) => forall|k: int| 0 <= k < vs.len()
                            ==> !((#[trigger] vs[k]).0 == 0 && vs[k].1 >= entry_size),
                        None => false,
                    }),
            decreases nblocks - bi,
        {
            proof {
                assert((bi as int + 1) * (d.block_size as int)
                    <= (nblocks as int) * (d.block_size as int)) by (nonlinear_arith)
                    requires bi < nblocks, d.block_size >= 1,
                ;
            }
            let block = match self.read_dir_block(bi as u32, d) {
                Ok(b) => b,
                Err(e2) => {
                    return Err(e2);
                },
            };
            let mut es = match parse_block(&block) {
                Ok(es) => es,
                Err(e2) => {
                    return Err(e2);
                },
            };
            let found = find_free_min_size(&es, entry_size);
            proof {
                if found is None {
                    let vs = es@.map_values(|e2: DirectoryEntry| ent_view(e2));
                    assert forall|k: int| 0 <= k < vs.len()
                        implies !((#[trigger] vs[k]).0 == 0 && vs[k].1 >= entry_size) by {
                        assert(vs[k] == ent_view(es@[k]));
                    }
                }
            }
            match found {
                Some(k) => {
                    return self.insert_into_block(
                        bi as u32,
                        es,
                        k,
                        entry_inode,
                        file_type,
                        name,
                        entry_size,
                        d,
                    );
                },
                None => {},
            }
            bi += 1;
        }
        // No free record anywhere: append a fresh block holding one record
        // that spans it entirely.
        let e = DirectoryEntry::new(entry_inode, bs as u16, file_type, copy_bytes(name));
        let rec = e.encode();
        let size = self.get_size(d);
        match self.write_content(size, &rec, d) {
            Ok(()) => {
                proof {
                    vstd::arithmetic::div_mod::lemma_add_mod_noop(
                        old(self).size_spec(*old(d)),
                        d.block_size as int,
                        d.block_size as int,
                    );
                    vstd::arithmetic::div_mod::lemma_mod_self_0(d.block_size as int);
                    vstd::arithmetic::div_mod::lemma_small_mod(0nat, d.block_size as nat);
                }
                Ok(())
            },
            Err(Errno::InvalidArgument) => Err(Errno::IOError),
            Err(e2) => Err(e2),
        }
    }

    /// Removes the entry named `name` from the directory: its record is
    /// freed, adjacent free records of the same block are merged, and a
    /// fully free trailing run of blocks is truncated away. Every kept
    /// block stays exactly tiled by its records.
    pub fn remove_dirent(&mut self, d: &mut Disk, name: &Vec<u8>) -> (r: Result<(), Errno>)
        requires
            old(self).dir_ok(*old(d)),
            old(d).size64 || old(self).size_spec(*old(d)) <= u32::MAX,
        ensures
            final(self).dir_ok(*final(d)),
            final(d).block_size == old(d).block_size,
            final(d).size64 == old(d).size64,
            final(d).blocks.len() == old(d).blocks.len(),
            r is Ok ==> final(self).size_spec(*final(d)) <= old(self).size_spec(*old(d)),
            r is Err ==> r == Result::<(), Errno>::Err(Errno::NoSpace)
                || r == Result::<(), Errno>::Err(Errno::IOError),
            // Removal from a healthy directory that keeps its blocks leaves
            // it healthy, with no block holding a live record of the name.
            (r is Ok && old(self).dir_backed(*old(d))
                && final(self).size_spec(*final(d)) == old(self).size_spec(*old(d)))
                ==> ({
                &&& final(self).dir_backed(*final(d))
                &&& forall|b2: int|
                    0 <= b2 < final(self).size_spec(*final(d))
                        / final(d).block_size as int
                    ==> (match parse_spec(
                        #[trigger] final(self).dir_block_bytes(*final(d), b2),
                        0,
                    ) {
                        Some(vs) => forall|j: int| 0 <= j < vs.len()
                            ==> !((#[trigger] vs[j]).0 != 0 && vs[j].3 =~= name@),
                        None => false,
                    })
            }),
    {
        let ghost backed0 = old(self).dir_backed(*old(d));
        let bs = d.block_size;
        let nblocks = self.dir_blocks(d);
        // The number of leading blocks still holding a live entry.
        let mut live_until: u64 = 0;
        let mut bi: u64 = 0;
        while bi < nblocks
            invariant
                bi <= nblocks,
                nblocks <= 0xFFFF_FFFF,
                live_until <= bi,
                bs == d.block_size,
                self.dir_ok(*d),
                self.size_spec(*d) == old(self).size_spec(*old(d)),
                d.block_size == old(d).block_size,
                d.size64 == old(d).size64,
                d.blocks.len() == old(d).blocks.len(),
                (nblocks as int) * (d.block_size as int) == self.size_spec(*d),
                nblocks == self.size_spec(*d) / d.block_size as int,
                backed0 == old(self).dir_backed(*old(d)),
                backed0 ==> self.dir_backed(*d),
                backed0 ==> forall|b2: int| 0 <= b2 < bi
                    ==> (match parse_spec(
                        #[trigger] self.dir_block_bytes(*d, b2),
                        0,
                    ) {
                        Some(vs) => forall|j: int| 0 <= j < vs.len()
                            ==> !((#[trigger] vs[j]).0 != 0 && vs[j].3 =~= name@),
                        None => false,
                    }),
            decreases nblocks - bi,
        {
            proof {
                assert((bi as int + 1) * (d.block_size as int)
                    <= (nblocks as int) * (d.block_size as int)) by (nonlinear_arith)
                    requires bi < nblocks, d.block_size >= 1,
                ;
            }
            let block = match self.read_dir_block(bi as u32, d) {
                Ok(b) => b,
                Err(e2) => {
                    return Err(e2);
                },
            };
            let es = match parse_block(&block) {
                Ok(es) => es,
                Err(e2) => {
                    return Err(e2);
                },
            };
            let (merged, any_live, _) = free_and_compact(es, name, bs);
            match self.write_dir_block(bi as u32, &merged, d) {
                Ok(()) => {},
                Err(e2) => {
                    return Err(e2);
                },
            }
            proof {
                if backed0 {
                    let vs = merged@.map_values(|e2: DirectoryEntry| ent_view(e2));
                    assert(parse_spec(self.dir_block_bytes(*d, bi as int), 0) == Some(vs));
                    assert forall|j: int| 0 <= j < vs.len()
                        implies !((#[trigger] vs[j]).0 != 0 && vs[j].3 =~= name@) by {
                        assert(vs[j] == ent_view(merged@[j]));
                    }
                }
            }
            if any_live {
                live_until = bi + 1;
            }
            bi += 1;
        }
        // Truncate a fully free trailing run of blocks.
        if live_until < nblocks {
            proof {
                assert(0 <= (live_until as int) * (bs as int)
                    && (live_until as int) * (bs as int)
                        <= (nblocks as int) * (bs as int)) by (nonlinear_arith)
                    requires live_until <= nblocks, bs >= 1,
                ;
                vstd::arithmetic::div_mod::lemma_mod_multiples_basic(
                    live_until as int,
                    bs as int,
                );
                vstd::arithmetic::mul::lemma_mul_is_commutative(live_until as int, bs as int);
            }
            let new_size = live_until * bs as u64;
            match self.truncate(d, new_size) {
                Ok(()) => {},
                Err(e2) => {
                    return Err(e2);
                },
            }
        }
        Ok(())
    }
}

/// Frees every live entry of `es` named `name`, then merges each run of
/// consecutive free records into one. The record lengths keep summing to
/// the block size, so the block stays exactly tiled. Also reports whether
/// any live entry remains and whether the block changed.
pub fn free_and_compact(es: Vec<DirectoryEntry>, name: &Vec<u8>, block_size: u32)
    -> (r: (Vec<DirectoryEntry>, bool, bool))
    requires
        block_tiled(es@, block_size as int),
        block_size <= 32768,
    ensures
        block_tiled(r.0@, block_size as int),
        forall|j: int| 0 <= j < r.0@.len()
            ==> !((#[trigger] r.0@[j]).inode != 0 && r.0@[j].name@ =~= name@),
        !r.1 ==> forall|j: int| 0 <= j < r.0@.len() ==> (#[trigger] r.0@[j]).inode == 0,
{
    let mut es = es;
    let mut out: Vec<DirectoryEntry> = Vec::new();
    let mut any_live = false;
    let mut changed = false;
    while es.len() > 0
        invariant
            block_size <= 32768,
            total_sizes(out@) + total_sizes(es@) == block_size,
            forall|j: int| 0 <= j < out.len() ==> (#[trigger] out@[j]).wf(),
            forall|j: int| 0 <= j < es.len() ==> (#[trigger] es@[j]).wf(),
            forall|j: int| 0 <= j < out.len()
                ==> !((#[trigger] out@[j]).inode != 0 && out@[j].name@ =~= name@),
            !any_live ==> forall|j: int| 0 <= j < out.len()
                ==> (#[trigger] out@[j]).inode == 0,
        decreases es.len(),
    {
        let ghost es0 = es@;
        let mut e = es.remove(0);
        proof {
            lemma_total_sizes_remove(es0, 0);
            assert(forall|j: int| 0 <= j < es.len()
                ==> (#[trigger] es@[j]) == es0[j + 1]);
        }
        if !e.is_free() {
            if bytes_eq(&e.name, name) {
                // The entry carries the removed name: free it.
                e.set_inode(0);
                changed = true;
            } else {
                any_live = true;
            }
        }
        let mut do_merge = false;
        if e.is_free() && out.len() > 0 {
            if out[out.len() - 1].is_free() {
                do_merge = true;
            }
        }
        if do_merge {
            let li = out.len() - 1;
            let ghost out0 = out@;
            proof {
                lemma_total_sizes_ge_element(out0, li as int);
                lemma_total_sizes_nonneg(es@);
                lemma_total_sizes_nonneg(out0);
                lemma_total_sizes_remove(out0, li as int);
                lemma_total_sizes_nonneg(out0.remove(li as int));
            }
            let mut last = out.remove(li);
            last.merge(e);
            let ghost merged = last;
            proof {
                assert(out@.push(merged).drop_last() =~= out@);
            }
            out.push(last);
            changed = true;
            proof {
                assert(forall|j: int| 0 <= j < out.len() - 1
                    ==> (#[trigger] out@[j]) == out0[j]);
            }
        } else {
            let ghost pushed = e;
            proof {
                assert(out@.push(pushed).drop_last() =~= out@);
            }
            out.push(e);
        }
    }
    (out, any_live, changed)
}

/// Adding an entry never grows a directory that still holds a free record
/// large enough for it. `size0` and `size1` are the directory's byte size
/// before and after the insertion, related as `add_dirent`'s contract
/// states; removing an entry frees its record in place, so re-adding a
/// name of the same size finds such a record and the byte size stays.
pub proof fn lemma_add_reuses_free_record(
    ino: Ext2INode,
    d: Disk,
    size0: int,
    size1: int,
    need: int,
    bi: int,
    k: int,
)
    requires
        size1 == size0 || size1 == size0 + d.block_size,
        // what `add_dirent` ensures of a grown directory
        size1 == size0 + d.block_size ==> (forall|b2: int|
            0 <= b2 < size0 / d.block_size as int
                ==> (match parse_spec(#[trigger] ino.dir_block_bytes(d, b2), 0) {
                    Some(vs) => forall|k2: int| 0 <= k2 < vs.len()
                        ==> !((#[trigger] vs[k2]).0 == 0 && vs[k2].1 >= need),
                    None => false,
                })),
        // a block of the directory holds a free record large enough
        0 <= bi < size0 / d.block_size as int,
        parse_spec(ino.dir_block_bytes(d, bi), 0) matches Some(vs)
            && 0 <= k < vs.len() && vs[k].0 == 0 && vs[k].1 >= need,
        d.block_size > 0,
    ensures
        size1 == size0,
{
}

/// Builds the record list of a block with the free record at `k` replaced
/// by a live record for `entry_inode`, splitting off the remainder as a
/// new free record when it can hold one. The record lengths keep summing
/// to the block size.
fn build_replacement(
    es: Vec<DirectoryEntry>,
    k: usize,
    entry_inode: u32,
    file_type: u8,
    name: &Vec<u8>,
    entry_size: u16,
) -> (r: Vec<DirectoryEntry>)
    requires
        k < es@.len(),
        es@[k as int].inode == 0,
        es@[k as int].total_size >= entry_size,
        entry_size == DIRENT_HEADER_SIZE + name.len(),
        name.len() <= 255,
        forall|i: int| 0 <= i < es@.len() ==> (#[trigger] es@[i]).wf(),
    ensures
        total_sizes(r@) == total_sizes(es@),
        forall|i: int| 0 <= i < r@.len() ==> (#[trigger] r@[i]).wf(),
        k < r@.len(),
        r@[k as int].inode == entry_inode,
        r@[k as int].file_type == file_type,
        r@[k as int].name@ == name@,
{
    let mut es = es;
    let ghost es0 = es@;
    let mut e = es.remove(k);
    proof {
        lemma_total_sizes_remove(es0, k as int);
    }
    // The record was free, so its stale name is dropped.
    e.name = Vec::new();
    let mut tail: Option<DirectoryEntry> = None;
    if e.get_total_size() > entry_size + DIRENT_HEADER_SIZE {
        // Reserve the remainder as a new free entry; a tail of exactly one
        // header stays part of the record instead.
        tail = Some(e.split(entry_size));
    }
    e.set_inode(entry_inode);
    e.file_type = file_type;
    e.name = copy_bytes(name);
    proof {
        assert(e.wf());
    }
    match tail {
        Some(t) => {
            proof {
                lemma_total_sizes_insert(es@, k as int, t);
            }
            es.insert(k, t);
        },
        None => {},
    }
    proof {
        lemma_total_sizes_insert(es@, k as int, e);
    }
    es.insert(k, e);
    es
}

/// Whether the parsed views `vs` hold a live record for `inode` with the
/// given type byte and name.
pub open spec fn views_have_entry(
    vs: Seq<(u32, u16, u8, Seq<u8>)>,
    inode: u32,
    file_type: u8,
    name: Seq<u8>,
) -> bool {
    exists|k: int|
        0 <= k < vs.len() && (#[trigger] vs[k]).0 == inode && vs[k].2 == file_type
            && vs[k].3 =~= name
}

/// Frame rule for writing one directory block of a healthy directory:
/// `ino1`/`d1` relate to `ino0`/`d0` as a backed whole-block write of
/// `out` into block `bi` leaves them, so that block's records become `es`
/// and every other block keeps its bytes.
proof fn lemma_dir_block_frame(
    ino0: Ext2INode,
    d0: Disk,
    ino1: Ext2INode,
    d1: Disk,
    bi: int,
    out: Seq<u8>,
    es: Seq<DirectoryEntry>,
)
    requires
        ino0.dir_backed(d0),
        0 <= bi < ino0.size_spec(d0) / d0.block_size as int,
        out.len() == d0.block_size,
        parse_spec(out, 0) == Some(es.map_values(|e: DirectoryEntry| ent_view(e))),
        ino1.dir_ok(d1),
        d1.block_size == d0.block_size,
        d1.blocks@.len() == d0.blocks@.len(),
        ino1.size_spec(d1) == ino0.size_spec(d0),
        ino1.direct_block_ptrs@ == ino0.direct_block_ptrs@,
        d1.used@ == d0.used@,
        forall|p: int| bi * d0.block_size <= p < (bi + 1) * d0.block_size
            ==> #[trigger] ino1.byte_at(d1, p) == out[p - bi * d0.block_size],
        forall|b2: int| 0 <= b2 < d1.blocks@.len()
            && b2 != ino0.direct_block_ptrs@[bi]
            ==> #[trigger] d1.blocks@[b2] == d0.blocks@[b2],
    ensures
        ino1.dir_backed(d1),
        parse_spec(ino1.dir_block_bytes(d1, bi), 0)
            == Some(es.map_values(|e: DirectoryEntry| ent_view(e))),
        forall|b2: int| 0 <= b2 < ino0.size_spec(d0) / d0.block_size as int && b2 != bi
            ==> #[trigger] ino1.dir_block_bytes(d1, b2) == ino0.dir_block_bytes(d0, b2),
{
    let bsi = d0.block_size as int;
    let nblocks = ino0.size_spec(d0) / bsi;
    // The written block's bytes are exactly `out`.
    assert forall|j: int| 0 <= j < bsi
        implies ino1.dir_block_bytes(d1, bi)[j] == out[j] by {
        assert(bi * bsi <= bi * bsi + j < (bi + 1) * bsi) by (nonlinear_arith)
            requires 0 <= j < bsi,
        ;
        assert(ino1.byte_at(d1, bi * bsi + j) == out[bi * bsi + j - bi * bsi]);
    }
    assert(ino1.dir_block_bytes(d1, bi) =~= out);
    // Every other block of the directory keeps its bytes.
    assert forall|b2: int| 0 <= b2 < nblocks && b2 != bi
        implies #[trigger] ino1.dir_block_bytes(d1, b2) == ino0.dir_block_bytes(d0, b2) by {
        let bp = ino0.direct_block_ptrs@[b2];
        assert(bp != 0 && d0.block_ok(bp));
        assert(bp != ino0.direct_block_ptrs@[bi]);
        assert(d1.blocks@[bp as int] == d0.blocks@[bp as int]);
        assert forall|j: int| 0 <= j < bsi
            implies ino1.dir_block_bytes(d1, b2)[j] == ino0.dir_block_bytes(d0, b2)[j] by {
            let p = b2 * bsi + j;
            vstd::arithmetic::div_mod::lemma_fundamental_div_mod_converse_div(
                p,
                bsi,
                b2,
                j,
            );
            vstd::arithmetic::div_mod::lemma_fundamental_div_mod_converse_mod(
                p,
                bsi,
                b2,
                j,
            );
            assert(nblocks <= crate::ext2::inode::DIRECT_BLOCKS_COUNT);
            assert(ino1.lookup_spec(d1, b2) == Some(bp));
            assert(ino0.lookup_spec(d0, b2) == Some(bp));
            assert(ino1.byte_at(d1, p) == d1.blocks@[bp as int]@[j]);
            assert(ino0.byte_at(d0, p) == d0.blocks@[bp as int]@[j]);
        }
        assert(ino1.dir_block_bytes(d1, b2) =~= ino0.dir_block_bytes(d0, b2));
    }
    // The directory stays healthy: same shape, same backings, and every
    // block still parses.
    assert forall|b3: int| 0 <= b3 < nblocks
        implies parse_spec(#[trigger] ino1.dir_block_bytes(d1, b3), 0) is Some by {
        if b3 == bi {
        } else {
            assert(ino1.dir_block_bytes(d1, b3) == ino0.dir_block_bytes(d0, b3));
        }
    }
}

/// Record counts of a tiled block are bounded by the block size.
pub proof fn lemma_entries_bounded(es: Seq<DirectoryEntry>, block_size: int)
    requires
        block_tiled(es, block_size),
        block_size <= 65536,
    ensures
        es.len() <= 0x10000,
    decreases es.len(),
{
    lemma_len_le_total(es);
}

/// Each record is at least one byte, so a sequence has no more records
/// than the bytes they sum to.
pub proof fn lemma_len_le_total(es: Seq<DirectoryEntry>)
    requires
        forall|i: int| 0 <= i < es.len() ==> (#[trigger] es[i]).wf(),
    ensures
        es.len() <= total_sizes(es),
    decreases es.len(),
{
    if es.len() > 0 {
        assert(forall|i: int| 0 <= i < es.len() - 1 ==> es.drop_last()[i] == es[i]);
        lemma_len_le_total(es.drop_last());
    }
}

} // verus!

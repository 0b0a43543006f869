//! The binary ABI encoders: the fixed-layout stat record and the
//! directory-entry stream, laid out byte for byte as the external ABI
//! dictates (little-endian fields, 8-byte-aligned dirent records).

use vstd::prelude::*;

use crate::fs::{FileType, Metadata, Timespec};

verus! {

/// Type tag: FIFO.
pub const MODE_FIFO: u32 = 0o010000;

/// Type tag: character device.
pub const MODE_CHAR: u32 = 0o020000;

/// Type tag: directory.
pub const MODE_DIR: u32 = 0o040000;

/// Type tag: block device.
pub const MODE_BLOCK: u32 = 0o060000;

/// Type tag: regular file.
pub const MODE_FILE: u32 = 0o100000;

/// Type tag: symbolic link.
pub const MODE_LINK: u32 = 0o120000;

/// Type tag: socket.
pub const MODE_SOCKET: u32 = 0o140000;

/// The bits of a mode word that have a defined meaning besides the
/// type tag: set-id bits and the three permission triples.
pub const MODE_PERM_MASK: u32 = 0o006777;

/// The little-endian bytes of a 16-bit value.
pub open spec fn u16_le(v: u16) -> Seq<u8> {
    seq![(v & 0xff) as u8, ((v >> 8) & 0xff) as u8]
}

/// The little-endian bytes of a 32-bit value.
pub open spec fn u32_le(v: u32) -> Seq<u8> {
    seq![
        (v & 0xff) as u8,
        ((v >> 8) & 0xff) as u8,
        ((v >> 16) & 0xff) as u8,
        ((v >> 24) & 0xff) as u8,
    ]
}

/// The little-endian bytes of a 64-bit value.
pub open spec fn u64_le(v: u64) -> Seq<u8> {
    seq![
        (v & 0xff) as u8,
        ((v >> 8) & 0xff) as u8,
        ((v >> 16) & 0xff) as u8,
        ((v >> 24) & 0xff) as u8,
        ((v >> 32) & 0xff) as u8,
        ((v >> 40) & 0xff) as u8,
        ((v >> 48) & 0xff) as u8,
        ((v >> 56) & 0xff) as u8,
    ]
}

/// Appends the two little-endian bytes of `v`.
pub fn push_u16(out: &mut Vec<u8>, v: u16)
    ensures
        final(out)@ == old(out)@ + u16_le(v),
{
    out.push((v & 0xff) as u8);
    out.push(((v >> 8) & 0xff) as u8);
    proof {
        assert(out@ =~= old(out)@ + u16_le(v));
    }
}

/// Appends the four little-endian bytes of `v`.
pub fn push_u32(out: &mut Vec<u8>, v: u32)
    ensures
        final(out)@ == old(out)@ + u32_le(v),
{
    out.push((v & 0xff) as u8);
    out.push(((v >> 8) & 0xff) as u8);
    out.push(((v >> 16) & 0xff) as u8);
    out.push(((v >> 24) & 0xff) as u8);
    proof {
        assert(out@ =~= old(out)@ + u32_le(v));
    }
}

/// Appends the eight little-endian bytes of `v`.
pub fn push_u64(out: &mut Vec<u8>, v: u64)
    ensures
        final(out)@ == old(out)@ + u64_le(v),
{
    out.push((v & 0xff) as u8);
    out.push(((v >> 8) & 0xff) as u8);
    out.push(((v >> 16) & 0xff) as u8);
    out.push(((v >> 24) & 0xff) as u8);
    out.push(((v >> 32) & 0xff) as u8);
    out.push(((v >> 40) & 0xff) as u8);
    out.push(((v >> 48) & 0xff) as u8);
    out.push(((v >> 56) & 0xff) as u8);
    proof {
        assert(out@ =~= old(out)@ + u64_le(v));
    }
}

/// The combined type-and-permission mode word: the type tag OR the
/// defined permission bits of the inode's mode.
pub open spec fn mode_of(type_: FileType, mode: u16) -> u32 {
    type_tag(type_) | (mode as u32 & MODE_PERM_MASK)
}

/// The type tag a file type encodes to.
pub open spec fn type_tag(type_: FileType) -> u32 {
    match type_ {
        FileType::File => MODE_FILE,
        FileType::Dir => MODE_DIR,
        FileType::SymLink => MODE_LINK,
        FileType::CharDevice => MODE_CHAR,
        FileType::BlockDevice => MODE_BLOCK,
        FileType::Socket => MODE_SOCKET,
        FileType::NamedPipe => MODE_FIFO,
    }
}

/// Builds the combined type-and-permission mode word.
pub fn from_type_mode(type_: FileType, mode: u16) -> (r: u32)
    ensures
        r == mode_of(type_, mode),
{
    let tag: u32 = match type_ {
        FileType::File => MODE_FILE,
        FileType::Dir => MODE_DIR,
        FileType::SymLink => MODE_LINK,
        FileType::CharDevice => MODE_CHAR,
        FileType::BlockDevice => MODE_BLOCK,
        FileType::Socket => MODE_SOCKET,
        FileType::NamedPipe => MODE_FIFO,
    };
    tag | (mode as u32 & MODE_PERM_MASK)
}

/// The stat record, field for field as the fixed ABI lays it out.
#[derive(Clone, Copy, Debug, PartialEq, Eq, Structural)]
pub struct Stat {
    /// ID of the device containing the file.
    pub dev: u64,
    /// Inode number.
    pub ino: u64,
    /// Number of hard links.
    pub nlink: u64,
    /// Combined file type and permission mode.
    pub mode: u32,
    /// Owning user.
    pub uid: u32,
    /// Owning group.
    pub gid: u32,
    /// Padding dictated by the layout.
    pub pad0: u32,
    /// Device ID, for special files.
    pub rdev: u64,
    /// Total size in bytes.
    pub size: u64,
    /// Block size for filesystem I/O.
    pub blksize: u64,
    /// Number of 512-byte blocks allocated.
    pub blocks: u64,
    /// Last access time.
    pub atime: Timespec,
    /// Last modification time.
    pub mtime: Timespec,
    /// Last status change time.
    pub ctime: Timespec,
}

/// The stat record a metadata report encodes to.
pub open spec fn stat_of(info: Metadata) -> Stat {
    Stat {
        dev: info.dev as u64,
        ino: info.inode as u64,
        nlink: info.nlinks as u64,
        mode: mode_of(info.type_, info.mode),
        uid: info.uid as u32,
        gid: info.gid as u32,
        pad0: 0,
        rdev: 0,
        size: info.size as u64,
        blksize: info.blk_size as u64,
        blocks: info.blocks as u64,
        atime: info.atime,
        mtime: info.mtime,
        ctime: info.ctime,
    }
}

impl From<Metadata> for Stat {
    fn from(info: Metadata) -> (r: Stat) {
        Stat {
            dev: info.dev as u64,
            ino: info.inode as u64,
            nlink: info.nlinks as u64,
            mode: from_type_mode(info.type_, info.mode),
            uid: info.uid as u32,
            gid: info.gid as u32,
            pad0: 0,
            rdev: 0,
            size: info.size as u64,
            blksize: info.blk_size as u64,
            blocks: info.blocks as u64,
            atime: info.atime,
            mtime: info.mtime,
            ctime: info.ctime,
        }
    }
}

impl vstd::std_specs::convert::FromSpecImpl<Metadata> for Stat {
    open spec fn obeys_from_spec() -> bool {
        true
    }

    open spec fn from_spec(info: Metadata) -> Stat {
        stat_of(info)
    }
}

/// The sixteen bytes a timestamp occupies: seconds, then nanoseconds.
pub open spec fn timespec_bytes(t: Timespec) -> Seq<u8> {
    u64_le(t.sec as u64) + u64_le(t.nsec as u64)
}

/// The 120 bytes a stat record occupies under the fixed ABI: dev, ino,
/// nlink, mode, uid, gid, padding, rdev, size, blksize, blocks and the
/// three timestamps, all little-endian. The size field starts at byte
/// 48 and the mode field at byte 24.
pub open spec fn stat_bytes(s: Stat) -> Seq<u8> {
    u64_le(s.dev) + u64_le(s.ino) + u64_le(s.nlink) + u32_le(s.mode) + u32_le(s.uid) + u32_le(
        s.gid,
    ) + u32_le(s.pad0) + u64_le(s.rdev) + u64_le(s.size) + u64_le(s.blksize) + u64_le(s.blocks)
        + timespec_bytes(s.atime) + timespec_bytes(s.mtime) + timespec_bytes(s.ctime)
}

/// Encodes a stat record into its fixed 120-byte layout.
pub fn encode_stat(s: &Stat) -> (r: Vec<u8>)
    ensures
        r@ == stat_bytes(*s),
        r@.len() == 120,
{
    let mut out: Vec<u8> = Vec::new();
    push_u64(&mut out, s.dev);
    push_u64(&mut out, s.ino);
    push_u64(&mut out, s.nlink);
    push_u32(&mut out, s.mode);
    push_u32(&mut out, s.uid);
    push_u32(&mut out, s.gid);
    push_u32(&mut out, s.pad0);
    push_u64(&mut out, s.rdev);
    push_u64(&mut out, s.size);
    push_u64(&mut out, s.blksize);
    push_u64(&mut out, s.blocks);
    push_u64(&mut out, s.atime.sec as u64);
    push_u64(&mut out, s.atime.nsec as u64);
    push_u64(&mut out, s.mtime.sec as u64);
    push_u64(&mut out, s.mtime.nsec as u64);
    push_u64(&mut out, s.ctime.sec as u64);
    push_u64(&mut out, s.ctime.nsec as u64);
    proof {
        assert(out@ =~= stat_bytes(*s));
    }
    out
}

/// A run of zero bytes.
pub open spec fn zeros(n: int) -> Seq<u8> {
    Seq::new(n as nat, |y: int| 0u8)
}

/// The bytes of the fixed dirent header: 8 for the inode number, 8 for
/// the offset to the next record, 2 for the record length, 1 for the
/// type tag — the name follows.
pub const DIRENT_HEADER_LEN: usize = 19;

/// One directory-entry record: header, null-terminated name, zero
/// padding up to `reclen`, which the encoder rounds to the next 8-byte
/// boundary.
pub open spec fn dirent_bytes(ino: u64, type_: u8, name: Seq<u8>, reclen: int) -> Seq<u8> {
    u64_le(ino) + u64_le(0) + u16_le(reclen as u16) + seq![type_] + name + seq![0u8] + zeros(
        reclen - 19 - name.len() - 1,
    )
}

/// Fills a caller-supplied buffer with directory-entry records and
/// stops, rather than overflow it: the record that does not fit is not
/// written and the writer reports how much it has written so far.
pub struct DirentBufWriter {
    /// The encoded records so far.
    pub buf: Vec<u8>,
    /// Room still free in the caller's buffer.
    pub rest_size: usize,
    /// Bytes written so far.
    pub written_size: usize,
}

impl DirentBufWriter {
    /// A writer for a buffer of `size` bytes.
    pub fn new(size: usize) -> (r: DirentBufWriter)
        ensures
            r.buf@ == Seq::<u8>::empty(),
            r.rest_size == size,
            r.written_size == 0,
    {
        DirentBufWriter { buf: Vec::new(), rest_size: size, written_size: 0 }
    }

    /// Tries to append one record; reports `false`, changing nothing,
    /// when the 8-byte-aligned record would not fit in the space that
    /// is left (or its length would not even fit the record-length
    /// field).
    pub fn try_write(&mut self, inode: u64, type_: u8, name: &[u8]) -> (r: bool)
        requires
            old(self).written_size + old(self).rest_size <= usize::MAX,
            old(self).buf@.len() == old(self).written_size,
        ensures
            final(self).written_size + final(self).rest_size == old(self).written_size + old(
                self,
            ).rest_size,
            final(self).buf@.len() == final(self).written_size,
            !r ==> *final(self) == *old(self),
            r ==> {
                &&& final(self).buf@ == old(self).buf@ + dirent_bytes(
                    inode,
                    type_,
                    name@,
                    dirent_len(name@.len() as int),
                )
                &&& final(self).written_size == old(self).written_size + dirent_len(
                    name@.len() as int,
                )
                &&& dirent_len(name@.len() as int) <= old(self).rest_size
            },
            r <==> (name@.len() + 27 <= usize::MAX && dirent_len(name@.len() as int) <= 65535
                && dirent_len(name@.len() as int) <= old(self).rest_size),
    {
        if name.len() > usize::MAX - 27 {
            return false;
        }
        let len: usize = (DIRENT_HEADER_LEN + name.len() + 1 + 7) / 8 * 8;
        if len > 65535 {
            return false;
        }
        if self.rest_size < len {
            return false;
        }
        let ghost pre_buf = self.buf@;
        push_u64(&mut self.buf, inode);
        push_u64(&mut self.buf, 0);
        push_u16(&mut self.buf, len as u16);
        self.buf.push(type_);
        proof {
            assert(self.buf@ =~= pre_buf + u64_le(inode) + u64_le(0) + u16_le(len as u16) + seq![
                type_,
            ] + name@.subrange(0, 0));
        }
        let mut x: usize = 0;
        while x < name.len()
            invariant
                x <= name@.len(),
                name@.len() + 27 <= usize::MAX,
                len == dirent_len(name@.len() as int),
                len <= 65535,
                self.rest_size == old(self).rest_size,
                self.written_size == old(self).written_size,
                self.written_size == pre_buf.len(),
                len <= self.rest_size,
                self.written_size + self.rest_size <= usize::MAX,
                self.buf@ == pre_buf + u64_le(inode) + u64_le(0) + u16_le(len as u16) + seq![
                    type_,
                ] + name@.subrange(0, x as int),
            decreases name@.len() - x,
        {
            self.buf.push(name[x]);
            proof {
                assert(name@.subrange(0, (x + 1) as int) =~= name@.subrange(0, x as int).push(
                    name@[x as int],
                ));
                assert(self.buf@ =~= pre_buf + u64_le(inode) + u64_le(0) + u16_le(len as u16)
                    + seq![type_] + name@.subrange(0, (x + 1) as int));
            }
            x = x + 1;
        }
        proof {
            assert(name@.subrange(0, name@.len() as int) =~= name@);
        }
        self.buf.push(0u8);
        proof {
            assert(self.buf@ =~= pre_buf + u64_le(inode) + u64_le(0) + u16_le(len as u16) + seq![
                type_,
            ] + name@ + seq![0u8] + zeros(0));
        }
        let end = self.written_size + len;
        while self.buf.len() < end
            invariant
                name@.len() + 27 <= usize::MAX,
                len == dirent_len(name@.len() as int),
                self.rest_size == old(self).rest_size,
                self.written_size == old(self).written_size,
                len <= self.rest_size,
                self.written_size + self.rest_size <= usize::MAX,
                end == self.written_size + len,
                self.written_size == pre_buf.len(),
                self.buf@.len() >= pre_buf.len() + 19 + name@.len() + 1,
                self.buf@.len() <= end,
                self.buf@ == pre_buf + u64_le(inode) + u64_le(0) + u16_le(len as u16) + seq![
                    type_,
                ] + name@ + seq![0u8] + zeros(
                    self.buf@.len() - pre_buf.len() - 19 - name@.len() - 1,
                ),
            decreases end - self.buf@.len(),
        {
            self.buf.push(0u8);
            proof {
                assert(self.buf@ =~= pre_buf + u64_le(inode) + u64_le(0) + u16_le(len as u16)
                    + seq![type_] + name@ + seq![0u8] + zeros(
                    self.buf@.len() - pre_buf.len() - 19 - name@.len() - 1,
                ));
            }
        }
        self.rest_size = self.rest_size - len;
        self.written_size = self.written_size + len;
        proof {
            assert(self.buf@ =~= pre_buf + dirent_bytes(
                inode,
                type_,
                name@,
                dirent_len(name@.len() as int),
            ));
        }
        true
    }
}

/// The 8-byte-aligned length of a record naming `name_len` bytes.
pub open spec fn dirent_len(name_len: int) -> int {
    (19 + name_len + 1 + 7) / 8 * 8
}

} // verus!

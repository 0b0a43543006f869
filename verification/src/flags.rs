//! Open flags, seek origins and poll event masks: the small bit-level
//! vocabulary the syscall surface is spoken in.

use vstd::prelude::*;

verus! {

/// Access mode occupies the two lowest bits of the open flags.
pub const OPEN_ACCESS_MASK: usize = 3;

/// Open for reading only (access-mode value).
pub const OPEN_RDONLY: usize = 0;

/// Open for writing only (access-mode value).
pub const OPEN_WRONLY: usize = 1;

/// Open for reading and writing (access-mode value).
pub const OPEN_RDWR: usize = 2;

/// Create the file if it does not exist.
pub const OPEN_CREATE: usize = 64;

/// Together with CREATE: fail if the file already exists.
pub const OPEN_EXCLUSIVE: usize = 128;

/// Truncate the file upon open (accepted, unused by this layer).
pub const OPEN_TRUNCATE: usize = 512;

/// Every write appends.
pub const OPEN_APPEND: usize = 1024;

/// All bits that have a defined meaning.
pub const OPEN_KNOWN_MASK: usize = 1731;

/// Open flags as user mode hands them in: two access-mode bits plus
/// independent toggles.
#[derive(Clone, Copy, Debug, PartialEq, Eq, Structural)]
pub struct OpenFlags {
    pub bits: usize,
}

/// The resolved mode a file handle is opened with.
#[derive(Clone, Copy, Debug, PartialEq, Eq, Structural)]
pub struct OpenOptions {
    pub read: bool,
    pub write: bool,
    pub append: bool,
}

impl OpenFlags {
    /// Whether the flag word grants read access.
    pub open spec fn readable_spec(self) -> bool {
        self.bits % 4 == OPEN_RDONLY || self.bits % 4 == OPEN_RDWR
    }

    /// Whether the flag word grants write access.
    pub open spec fn writable_spec(self) -> bool {
        self.bits % 4 == OPEN_WRONLY || self.bits % 4 == OPEN_RDWR
    }

    /// Whether all bits of `flag` are set.
    pub open spec fn contains_spec(self, flag: usize) -> bool {
        self.bits & flag == flag
    }

    /// Keeps the defined bits of a raw flag word and drops the rest.
    pub fn from_bits_truncate(bits: usize) -> (r: OpenFlags)
        ensures
            r.bits == bits & OPEN_KNOWN_MASK,
    {
        OpenFlags { bits: bits & OPEN_KNOWN_MASK }
    }

    /// Whether all bits of `flag` are set.
    pub fn contains(&self, flag: usize) -> (r: bool)
        ensures
            r == self.contains_spec(flag),
    {
        self.bits & flag == flag
    }

    /// The access-mode bits grant read access.
    pub fn readable(&self) -> (r: bool)
        ensures
            r == self.readable_spec(),
    {
        let b: usize = self.bits & OPEN_ACCESS_MASK;
        proof {
            let w = self.bits;
            assert(w & 3 == w % 4) by (bit_vector);
        }
        b == OPEN_RDONLY || b == OPEN_RDWR
    }

    /// The access-mode bits grant write access.
    pub fn writable(&self) -> (r: bool)
        ensures
            r == self.writable_spec(),
    {
        let b: usize = self.bits & OPEN_ACCESS_MASK;
        proof {
            let w = self.bits;
            assert(w & 3 == w % 4) by (bit_vector);
        }
        b == OPEN_WRONLY || b == OPEN_RDWR
    }

    /// The options a handle opened with these flags carries.
    pub fn to_options(&self) -> (r: OpenOptions)
        ensures
            r.read == self.readable_spec(),
            r.write == self.writable_spec(),
            r.append == self.contains_spec(OPEN_APPEND),
    {
        OpenOptions {
            read: self.readable(),
            write: self.writable(),
            append: self.contains(OPEN_APPEND),
        }
    }
}

/// Whence value: measure from the start of the file.
pub const SEEK_SET: u8 = 1;

/// Whence value: measure from the current cursor.
pub const SEEK_CUR: u8 = 2;

/// Whence value: measure from the end of the file.
pub const SEEK_END: u8 = 4;

/// Poll interest/result bit: there is data to read.
pub const POLL_IN: u16 = 1;

/// Poll interest/result bit: writing is now possible.
pub const POLL_OUT: u16 = 4;

/// Poll result bit: error condition.
pub const POLL_ERR: u16 = 8;

/// Poll result bit: hang up.
pub const POLL_HUP: u16 = 16;

/// Poll result bit: the descriptor is not open.
pub const POLL_INVAL: u16 = 32;

} // verus!

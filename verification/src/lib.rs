//! A verified file-I/O syscall layer: it translates untrusted requests
//! (read, write, open, stat, poll, readv/writev, directory listing,
//! link/rename/unlink, dup) into operations on a tagged-variant inode
//! model, validates every user-supplied address range against the
//! caller's address-space model before touching it, and unifies regular
//! files, directories, a console device and network sockets behind one
//! descriptor table.
//!
//! Blocking (console reads, poll) is expressed as decisions: a call that
//! would block reports so, and the surrounding runtime waits on its wake
//! signal and retries.

pub mod abi;
pub mod console;
pub mod error;
pub mod flags;
pub mod fs;
pub mod iovec;
pub mod path;
pub mod process;
pub mod syscall;
pub mod usermem;

//! The syscall entry points: validate every user-supplied range first,
//! look the descriptor up, delegate to the inode model or report the
//! socket operation for the network collaborator to perform, and
//! marshal results through the ABI encoders.
//!
//! A call that would block returns `Block`: the runtime waits on the
//! relevant wake signal and calls again.

use vstd::prelude::*;

use crate::abi::{encode_stat, stat_bytes, stat_of, DirentBufWriter};
use crate::error::{FsError, SysError};
use crate::flags::{
    OpenFlags, OpenOptions, OPEN_APPEND, OPEN_CREATE, OPEN_EXCLUSIVE, OPEN_KNOWN_MASK, SEEK_CUR,
    SEEK_END, SEEK_SET,
};
use crate::fs::{read_span, write_span, FileType, FsTree};
use crate::process::{resolve_abs, FileHandle, FileLike, Process};
use crate::usermem::{bytes_at, cstr_at, has_cstr, UserMem};
use crate::path::{dir_part, name_part};

verus! {

/// What a syscall that may suspend or defer reports: a finished result,
/// a decision to block and re-check after the wake signal, or a socket
/// operation for the network collaborator to carry out on the given
/// handle.
#[derive(Clone, Copy, Debug, PartialEq, Eq, Structural)]
pub enum SysStep {
    Ret(isize),
    Block,
    SocketRead(usize),
    SocketWrite(usize),
    SocketClose(usize),
}

/// What a finished file read did, stated over the states before and
/// after the call. The descriptor was validated to refer to a file
/// handle and the buffer range was validated writable.
pub open spec fn read_file_post(
    pre_p: Process,
    pre_m: UserMem,
    post_p: Process,
    post_m: UserMem,
    fd: int,
    base: int,
    len: int,
    r: Result<SysStep, SysError>,
) -> bool {
    match pre_p.fd_get(fd) {
        Some(FileLike::File(h)) => {
            let ino = h.ino as int;
            if !h.options.read {
                r == Result::<SysStep, SysError>::Err(SysError::EINVAL) && post_p == pre_p
                    && post_m == pre_m
            } else if pre_p.fs.is_console_in(ino) {
                if len == 0 {
                    r == Result::<SysStep, SysError>::Ok(SysStep::Ret(0)) && post_p == pre_p
                        && post_m == pre_m
                } else if pre_p.fs.console_pending(ino).len() == 0 {
                    // nothing is pending: block and re-check after the wake signal
                    r == Result::<SysStep, SysError>::Ok(SysStep::Block) && post_m == pre_m
                        && post_p.files@ == pre_p.files@ && post_p.cwd == pre_p.cwd
                        && post_p.fs.console_pending(ino) == pre_p.fs.console_pending(ino)
                        && post_p.fs.len() == pre_p.fs.len()
                } else {
                    // one pending character is delivered as one byte
                    &&& r == Result::<SysStep, SysError>::Ok(SysStep::Ret(1))
                    &&& post_p.files@ == pre_p.files@
                    &&& post_p.cwd == pre_p.cwd
                    &&& post_p.fs.len() == pre_p.fs.len()
                    &&& post_p.fs.console_pending(ino) == pre_p.fs.console_pending(
                        ino,
                    ).drop_first()
                    &&& post_m.regions@ == pre_m.regions@
                    &&& post_m.mem@.len() == pre_m.mem@.len()
                    &&& post_m.mem@[base] == ((pre_p.fs.console_pending(ino)[0] as u32) as u8)
                    &&& (forall|x: int|
                        0 <= x < post_m.mem@.len() && x != base ==> post_m.mem@[x]
                            == pre_m.mem@[x])
                }
            } else if pre_p.fs.is_file(ino) {
                // cursor-based read: the transferred span lands in the
                // buffer and the cursor advances by its length
                let bytes = if h.offset <= usize::MAX {
                    read_span(pre_p.fs.file_data(ino), h.offset as int, len)
                } else {
                    Seq::<u8>::empty()
                };
                &&& r == Result::<SysStep, SysError>::Ok(SysStep::Ret(bytes.len() as isize))
                &&& post_p.fs == pre_p.fs
                &&& post_p.cwd == pre_p.cwd
                &&& post_p.files@ == pre_p.files@.update(
                    fd,
                    Some(
                        FileLike::File(
                            FileHandle {
                                ino: h.ino,
                                offset: (h.offset + bytes.len()) as u64,
                                options: h.options,
                            },
                        ),
                    ),
                )
                &&& post_m.regions@ == pre_m.regions@
                &&& post_m.mem@.len() == pre_m.mem@.len()
                &&& (forall|k: int| 0 <= k < bytes.len() ==> post_m.mem@[base + k] == bytes[k])
                &&& (forall|x: int|
                    0 <= x < post_m.mem@.len() && !(base <= x < base + bytes.len())
                        ==> post_m.mem@[x] == pre_m.mem@[x])
            } else if pre_p.fs.is_dir(ino) {
                r == Result::<SysStep, SysError>::Err(SysError::EISDIR) && post_p == pre_p
                    && post_m == pre_m
            } else {
                // console output: reading it is not supported
                r == Result::<SysStep, SysError>::Err(SysError::ENOSYS) && post_p == pre_p
                    && post_m == pre_m
            }
        },
        _ => r == Result::<SysStep, SysError>::Err(SysError::EBADF) && post_p == pre_p && post_m
            == pre_m,
    }
}

/// What a finished file write did, stated over the states before and
/// after the call.
pub open spec fn write_file_post(
    pre_p: Process,
    post_p: Process,
    fd: int,
    data: Seq<u8>,
    r: Result<SysStep, SysError>,
) -> bool {
    match pre_p.fd_get(fd) {
        Some(FileLike::File(h)) => {
            let ino = h.ino as int;
            if !h.options.write {
                r == Result::<SysStep, SysError>::Err(SysError::EINVAL) && post_p == pre_p
            } else if pre_p.fs.is_console_out(ino) {
                // console output accepts everything at once
                &&& r == Result::<SysStep, SysError>::Ok(SysStep::Ret(data.len() as isize))
                &&& post_p.files@ == pre_p.files@
                &&& post_p.cwd == pre_p.cwd
                &&& post_p.fs.len() == pre_p.fs.len()
                &&& post_p.fs.console_written(ino) == pre_p.fs.console_written(ino) + data
            } else if pre_p.fs.is_file(ino) {
                // cursor-based write; append mode writes at the end
                let start = if h.options.append {
                    pre_p.fs.file_data(ino).len() as int
                } else {
                    h.offset as int
                };
                if start + data.len() <= usize::MAX {
                    &&& r == Result::<SysStep, SysError>::Ok(SysStep::Ret(data.len() as isize))
                    &&& post_p.cwd == pre_p.cwd
                    &&& post_p.fs.len() == pre_p.fs.len()
                    &&& post_p.fs.is_file(ino)
                    &&& post_p.fs.file_data(ino) == write_span(
                        pre_p.fs.file_data(ino),
                        start,
                        data,
                    )
                    &&& (forall|j: int|
                        0 <= j < pre_p.fs.len() && j != ino ==> post_p.fs.nodes@[j]
                            == pre_p.fs.nodes@[j])
                    &&& post_p.files@ == pre_p.files@.update(
                        fd,
                        Some(
                            FileLike::File(
                                FileHandle {
                                    ino: h.ino,
                                    offset: (start + data.len()) as u64,
                                    options: h.options,
                                },
                            ),
                        ),
                    )
                } else {
                    r == Result::<SysStep, SysError>::Err(SysError::ENOMEM) && post_p == pre_p
                }
            } else if pre_p.fs.is_dir(ino) {
                r == Result::<SysStep, SysError>::Err(SysError::EISDIR) && post_p == pre_p
            } else {
                // console input: writing it is not supported
                r == Result::<SysStep, SysError>::Err(SysError::ENOSYS) && post_p == pre_p
            }
        },
        _ => r == Result::<SysStep, SysError>::Err(SysError::EBADF) && post_p == pre_p,
    }
}

/// Reads up to `len` bytes through a descriptor into the caller's
/// buffer at `base`: validate, look up, dispatch by handle kind.
/// Socket descriptors report the socket read for the collaborator.
pub fn sys_read(proc: &mut Process, um: &mut UserMem, fd: usize, base: usize, len: usize) -> (r:
    Result<SysStep, SysError>)
    requires
        old(proc).wf(),
        old(um).wf(),
    ensures
        final(proc).wf(),
        final(um).wf(),
        !(base + len <= usize::MAX && old(um).range_writable(base as int, len as int)) ==> r
            == Result::<SysStep, SysError>::Err(SysError::EINVAL) && *final(proc) == *old(proc)
            && *final(um) == *old(um),
        base + len <= usize::MAX && old(um).range_writable(base as int, len as int) ==> match old(proc).fd_get(fd as int) {
            None => r == Result::<SysStep, SysError>::Err(SysError::EINVAL) && *final(proc)
                == *old(proc) && *final(um) == *old(um),
            Some(FileLike::Socket(s)) => r == Result::<SysStep, SysError>::Ok(
                SysStep::SocketRead(s.handle),
            ) && *final(proc) == *old(proc) && *final(um) == *old(um),
            Some(FileLike::File(_)) => read_file_post(
                *old(proc),
                *old(um),
                *final(proc),
                *final(um),
                fd as int,
                base as int,
                len as int,
                r,
            ),
        },
{
    if um.check_mut_array(base, len).is_err() {
        return Err(SysError::EINVAL);
    }
    if fd >= proc.files.len() {
        return Err(SysError::EINVAL);
    }
    match &proc.files[fd] {
        Some(FileLike::File(_)) => sys_read_file(proc, um, fd, base, len),
        Some(FileLike::Socket(s)) => Ok(SysStep::SocketRead(s.handle)),
        None => Err(SysError::EINVAL),
    }
}

/// Writes `len` bytes from the caller's buffer at `base` through a
/// descriptor. Socket descriptors report the socket write for the
/// collaborator.
pub fn sys_write(proc: &mut Process, um: &UserMem, fd: usize, base: usize, len: usize) -> (r:
    Result<SysStep, SysError>)
    requires
        old(proc).wf(),
        um.wf(),
    ensures
        final(proc).wf(),
        !(base + len <= usize::MAX && um.range_readable(base as int, len as int)) ==> r
            == Result::<SysStep, SysError>::Err(SysError::EINVAL) && *final(proc) == *old(proc),
        base + len <= usize::MAX && um.range_readable(base as int, len as int) ==> match old(proc).fd_get(fd as int) {
            None => r == Result::<SysStep, SysError>::Err(SysError::EINVAL) && *final(proc)
                == *old(proc),
            Some(FileLike::Socket(s)) => r == Result::<SysStep, SysError>::Ok(
                SysStep::SocketWrite(s.handle),
            ) && *final(proc) == *old(proc),
            Some(FileLike::File(_)) => write_file_post(
                *old(proc),
                *final(proc),
                fd as int,
                bytes_at(um.mem@, base as int, len as int),
                r,
            ),
        },
{
    if um.check_array(base, len).is_err() {
        return Err(SysError::EINVAL);
    }
    if fd >= proc.files.len() {
        return Err(SysError::EINVAL);
    }
    match &proc.files[fd] {
        Some(FileLike::File(_)) => sys_write_file(proc, um, fd, base, len),
        Some(FileLike::Socket(s)) => Ok(SysStep::SocketWrite(s.handle)),
        None => Err(SysError::EINVAL),
    }
}

/// The file half of a read: cursor-based inode I/O, the console input
/// FIFO, or the errors the other kinds report. The buffer range was
/// validated by the caller.
pub fn sys_read_file(proc: &mut Process, um: &mut UserMem, fd: usize, base: usize, len: usize) -> (
    r: Result<SysStep, SysError>)
    requires
        old(proc).wf(),
        old(um).wf(),
        base + len <= usize::MAX,
        old(um).range_writable(base as int, len as int),
    ensures
        final(proc).wf(),
        final(um).wf(),
        read_file_post(
            *old(proc),
            *old(um),
            *final(proc),
            *final(um),
            fd as int,
            base as int,
            len as int,
            r,
        ),
{
    let h = match proc.get_file(fd) {
        Ok(h) => h,
        Err(e) => {
            return Err(e);
        },
    };
    if !h.options.read {
        return Err(SysError::EINVAL);
    }
    let kind: u8 = match &proc.fs.nodes[h.ino].kind {
        crate::fs::NodeKind::ConsoleIn(_) => 0,
        crate::fs::NodeKind::File(_) => 1,
        crate::fs::NodeKind::Dir(_) => 2,
        crate::fs::NodeKind::ConsoleOut(_) => 3,
    };
    if kind == 0 {
        if len == 0 {
            return Ok(SysStep::Ret(0));
        }
        match proc.fs.console_pop(h.ino) {
            Ok(Some(c)) => {
                let byte: u8 = (c as u32) as u8;
                let mut one: Vec<u8> = Vec::new();
                one.push(byte);
                proof {
                    old(um).lemma_writable_transfer(old(um), base as int, len as int, 1);
                }
                um.write_bytes(base, one.as_slice());
                Ok(SysStep::Ret(1))
            },
            Ok(None) => Ok(SysStep::Block),
            Err(_) => Err(SysError::ENOSYS),
        }
    } else if kind == 1 {
        let size = match &proc.fs.nodes[h.ino].kind {
            crate::fs::NodeKind::File(d) => d.len(),
            _ => 0,
        };
        let offset_big = h.offset > usize::MAX as u64;
        let bytes = if offset_big {
            Vec::new()
        } else {
            match proc.fs.file_read_at(h.ino, h.offset as usize, len) {
                Ok(v) => v,
                Err(_) => {
                    return Err(SysError::EIO);
                },
            }
        };
        proof {
            assert(proc.fs.file_data(h.ino as int).len() == size);
            assert(bytes@.len() <= len);
            assert(offset_big ==> bytes@.len() == 0);
            assert(!offset_big ==> h.offset + bytes@.len() <= usize::MAX);
            old(um).lemma_writable_transfer(old(um), base as int, len as int, bytes@.len() as int);
        }
        um.write_bytes(base, bytes.as_slice());
        let n = bytes.len();
        proc.set_file(
            fd,
            FileHandle { ino: h.ino, offset: h.offset + n as u64, options: h.options },
        );
        Ok(SysStep::Ret(n as isize))
    } else if kind == 2 {
        Err(SysError::EISDIR)
    } else {
        Err(SysError::ENOSYS)
    }
}

/// The file half of a write: cursor-based inode I/O (append mode
/// writes at the end), console output, or the errors the other kinds
/// report. The buffer range was validated by the caller.
pub fn sys_write_file(proc: &mut Process, um: &UserMem, fd: usize, base: usize, len: usize) -> (r:
    Result<SysStep, SysError>)
    requires
        old(proc).wf(),
        um.wf(),
        base + len <= usize::MAX,
        um.range_readable(base as int, len as int),
    ensures
        final(proc).wf(),
        write_file_post(
            *old(proc),
            *final(proc),
            fd as int,
            bytes_at(um.mem@, base as int, len as int),
            r,
        ),
{
    let h = match proc.get_file(fd) {
        Ok(h) => h,
        Err(e) => {
            return Err(e);
        },
    };
    if !h.options.write {
        return Err(SysError::EINVAL);
    }
    let data = um.read_bytes(base, len);
    proof {
        assert(data@ =~= bytes_at(um.mem@, base as int, len as int));
    }
    let kind: u8 = match &proc.fs.nodes[h.ino].kind {
        crate::fs::NodeKind::ConsoleOut(_) => 0,
        crate::fs::NodeKind::File(_) => 1,
        crate::fs::NodeKind::Dir(_) => 2,
        crate::fs::NodeKind::ConsoleIn(_) => 3,
    };
    if kind == 0 {
        match proc.fs.console_write(h.ino, data.as_slice()) {
            Ok(n) => Ok(SysStep::Ret(n as isize)),
            Err(_) => Err(SysError::ENOSYS),
        }
    } else if kind == 1 {
        let start: u64 = if h.options.append {
            let size = match &proc.fs.nodes[h.ino].kind {
                crate::fs::NodeKind::File(d) => d.len(),
                _ => 0,
            };
            size as u64
        } else {
            h.offset
        };
        if start > usize::MAX as u64 || usize::MAX as u64 - start < len as u64 {
            return Err(SysError::ENOMEM);
        }
        match proc.fs.file_write_at(h.ino, start as usize, data.as_slice()) {
            Ok(n) => {
                proc.set_file(
                    fd,
                    FileHandle { ino: h.ino, offset: start + n as u64, options: h.options },
                );
                Ok(SysStep::Ret(n as isize))
            },
            Err(_) => Err(SysError::EIO),
        }
    } else if kind == 2 {
        Err(SysError::EISDIR)
    } else {
        Err(SysError::ENOSYS)
    }
}

/// Removes a descriptor: the entry leaves the table and the underlying
/// resource is thereby released exactly once. For a socket entry the
/// result names the handle, so the network collaborator releases the
/// socket it knows under it.
pub fn sys_close(proc: &mut Process, fd: usize) -> (r: Result<SysStep, SysError>)
    requires
        old(proc).wf(),
    ensures
        final(proc).wf(),
        old(proc).fd_get(fd as int) is None ==> r == Result::<SysStep, SysError>::Err(
            SysError::EINVAL,
        ) && *final(proc) == *old(proc),
        old(proc).fd_get(fd as int) is Some ==> {
            &&& (old(proc).fd_get(fd as int) matches Some(FileLike::File(_)) ==> r == Result::<
                SysStep,
                SysError,
            >::Ok(SysStep::Ret(0)))
            &&& (old(proc).fd_get(fd as int) matches Some(FileLike::Socket(s)) ==> r == Result::<
                SysStep,
                SysError,
            >::Ok(SysStep::SocketClose(s.handle)))
            &&& final(proc).fd_get(fd as int) is None
            &&& (forall|j: int| j != fd ==> final(proc).fd_get(j) == old(proc).fd_get(j))
            &&& final(proc).fs == old(proc).fs
            &&& final(proc).cwd == old(proc).cwd
        },
{
    let entry = proc.remove_fd(fd);
    match entry {
        Some(FileLike::File(_)) => Ok(SysStep::Ret(0)),
        Some(FileLike::Socket(s)) => Ok(SysStep::SocketClose(s.handle)),
        None => Err(SysError::EINVAL),
    }
}

/// Duplicates `fd1`'s file handle into `fd2`. An occupied `fd2` fails
/// invalid-argument and is left untouched: there is no implicit close.
pub fn sys_dup2(proc: &mut Process, fd1: usize, fd2: usize) -> (r: Result<isize, SysError>)
    requires
        old(proc).wf(),
    ensures
        final(proc).wf(),
        old(proc).fd_get(fd2 as int) is Some ==> r == Result::<isize, SysError>::Err(
            SysError::EINVAL,
        ) && *final(proc) == *old(proc),
        old(proc).fd_get(fd2 as int) is None && !(old(proc).fd_get(fd1 as int) matches Some(
            FileLike::File(_),
        )) ==> r == Result::<isize, SysError>::Err(SysError::EBADF) && *final(proc) == *old(proc),
        old(proc).fd_get(fd2 as int) is None && fd2 == usize::MAX && (old(proc).fd_get(
            fd1 as int,
        ) matches Some(FileLike::File(_))) ==> r == Result::<isize, SysError>::Err(
            SysError::EINVAL,
        ) && *final(proc) == *old(proc),
        old(proc).fd_get(fd2 as int) is None && fd2 < usize::MAX ==> (old(proc).fd_get(
            fd1 as int,
        ) matches Some(FileLike::File(h)) ==> {
            &&& r == Result::<isize, SysError>::Ok(0)
            &&& final(proc).fd_get(fd2 as int) == Some(FileLike::File(h))
            &&& (forall|j: int|
                0 <= j < final(proc).files@.len() && j != fd2 ==> final(proc).fd_get(j) == old(proc).fd_get(j))
            &&& final(proc).fs == old(proc).fs
            &&& final(proc).cwd == old(proc).cwd
        }),
{
    if fd2 < proc.files.len() {
        if proc.files[fd2].is_some() {
            return Err(SysError::EINVAL);
        }
    }
    let h = match proc.get_file(fd1) {
        Ok(h) => h,
        Err(e) => {
            return Err(e);
        },
    };
    if fd2 == usize::MAX {
        return Err(SysError::EINVAL);
    }
    proc.insert_file(fd2, FileLike::File(h));
    Ok(0)
}

/// The cursor position a seek requests, measured from the chosen
/// origin, or nothing when it leaves the representable range.
pub open spec fn seek_target(origin: int, offset: i64) -> int {
    origin + offset
}

/// Computes the absolute cursor from {start, current, end}; an
/// unrecognized whence, or a target outside the representable range,
/// fails invalid-argument. Measuring from the end needs the file's
/// size, so only regular files support it.
pub fn sys_lseek(proc: &mut Process, fd: usize, offset: i64, whence: u8) -> (r: Result<
    isize,
    SysError,
>)
    requires
        old(proc).wf(),
    ensures
        final(proc).wf(),
        r is Err ==> *final(proc) == *old(proc),
        !(whence == SEEK_SET || whence == SEEK_CUR || whence == SEEK_END) ==> r == Result::<
            isize,
            SysError,
        >::Err(SysError::EINVAL),
        (whence == SEEK_SET || whence == SEEK_CUR || whence == SEEK_END) && !(old(proc).fd_get(
            fd as int,
        ) matches Some(FileLike::File(_))) ==> r == Result::<isize, SysError>::Err(SysError::EBADF),
        old(proc).fd_get(fd as int) matches Some(FileLike::File(h)) ==> {
            let origin: int = if whence == SEEK_SET {
                0
            } else if whence == SEEK_CUR {
                h.offset as int
            } else {
                old(proc).fs.file_data(h.ino as int).len() as int
            };
            let target = if whence == SEEK_SET {
                (offset as u64) as int
            } else {
                seek_target(origin, offset)
            };
            &&& (whence == SEEK_END && !old(proc).fs.is_file(h.ino as int) ==> r == Result::<
                isize,
                SysError,
            >::Err(SysError::ENOSYS))
            &&& ((whence == SEEK_SET || whence == SEEK_CUR || (whence == SEEK_END && old(proc).fs.is_file(h.ino as int))) ==> if 0 <= target <= i64::MAX {
                &&& r == Result::<isize, SysError>::Ok(target as isize)
                &&& final(proc).files@ == old(proc).files@.update(
                    fd as int,
                    Some(
                        FileLike::File(
                            FileHandle { ino: h.ino, offset: target as u64, options: h.options },
                        ),
                    ),
                )
                &&& final(proc).fs == old(proc).fs
                &&& final(proc).cwd == old(proc).cwd
            } else {
                r == Result::<isize, SysError>::Err(SysError::EINVAL)
            })
        },
{
    if !(whence == SEEK_SET || whence == SEEK_CUR || whence == SEEK_END) {
        return Err(SysError::EINVAL);
    }
    let h = match proc.get_file(fd) {
        Ok(h) => h,
        Err(e) => {
            return Err(e);
        },
    };
    let target: u64 = if whence == SEEK_SET {
        offset as u64
    } else {
        let origin: u64 = if whence == SEEK_CUR {
            h.offset
        } else {
            let is_file = match &proc.fs.nodes[h.ino].kind {
                crate::fs::NodeKind::File(_) => true,
                _ => false,
            };
            if !is_file {
                return Err(SysError::ENOSYS);
            }
            let size = match &proc.fs.nodes[h.ino].kind {
                crate::fs::NodeKind::File(d) => d.len(),
                _ => 0,
            };
            size as u64
        };
        if offset >= 0 {
            let off_u = offset as u64;
            if u64::MAX - off_u < origin {
                return Err(SysError::EINVAL);
            }
            origin + off_u
        } else {
            let mag: u64 = if offset == i64::MIN {
                9223372036854775808u64
            } else {
                (-offset) as u64
            };
            if mag > origin {
                return Err(SysError::EINVAL);
            }
            origin - mag
        }
    };
    if target > i64::MAX as u64 {
        return Err(SysError::EINVAL);
    }
    proc.set_file(fd, FileHandle { ino: h.ino, offset: target, options: h.options });
    Ok(target as isize)
}

/// Flushes a descriptor in full: the model keeps everything in memory,
/// so a valid descriptor always succeeds.
pub fn sys_fsync(proc: &Process, fd: usize) -> (r: Result<isize, SysError>)
    requires
        proc.wf(),
    ensures
        (proc.fd_get(fd as int) matches Some(FileLike::File(_))) ==> r == Result::<
            isize,
            SysError,
        >::Ok(0),
        !(proc.fd_get(fd as int) matches Some(FileLike::File(_))) ==> r == Result::<
            isize,
            SysError,
        >::Err(SysError::EBADF),
{
    let h = match proc.get_file(fd) {
        Ok(h) => h,
        Err(e) => {
            return Err(e);
        },
    };
    match proc.fs.sync_all(h.ino) {
        Ok(_) => Ok(0),
        Err(e) => Err(SysError::from(e)),
    }
}

/// Flushes a descriptor's data, without metadata: same success
/// condition as a full flush.
pub fn sys_fdatasync(proc: &Process, fd: usize) -> (r: Result<isize, SysError>)
    requires
        proc.wf(),
    ensures
        (proc.fd_get(fd as int) matches Some(FileLike::File(_))) ==> r == Result::<
            isize,
            SysError,
        >::Ok(0),
        !(proc.fd_get(fd as int) matches Some(FileLike::File(_))) ==> r == Result::<
            isize,
            SysError,
        >::Err(SysError::EBADF),
{
    let h = match proc.get_file(fd) {
        Ok(h) => h,
        Err(e) => {
            return Err(e);
        },
    };
    match proc.fs.sync_data(h.ino) {
        Ok(_) => Ok(0),
        Err(e) => Err(SysError::from(e)),
    }
}

/// Truncates the file a descriptor refers to.
pub fn sys_ftruncate(proc: &mut Process, fd: usize, len: usize) -> (r: Result<isize, SysError>)
    requires
        old(proc).wf(),
    ensures
        final(proc).wf(),
        r is Err ==> *final(proc) == *old(proc),
        !(old(proc).fd_get(fd as int) matches Some(FileLike::File(_))) ==> r == Result::<
            isize,
            SysError,
        >::Err(SysError::EBADF),
        old(proc).fd_get(fd as int) matches Some(FileLike::File(h)) ==> {
            &&& (old(proc).fs.is_dir(h.ino as int) ==> r == Result::<isize, SysError>::Err(
                SysError::EISDIR,
            ))
            &&& (!old(proc).fs.is_dir(h.ino as int) && !old(proc).fs.is_file(h.ino as int) ==> r
                == Result::<isize, SysError>::Err(SysError::ENOSYS))
            &&& (old(proc).fs.is_file(h.ino as int) ==> {
                &&& r == Result::<isize, SysError>::Ok(0)
                &&& final(proc).fs.file_data(h.ino as int).len() == len
                &&& (forall|x: int|
                    0 <= x < len && x < old(proc).fs.file_data(h.ino as int).len() ==> final(proc).fs.file_data(h.ino as int)[x] == old(proc).fs.file_data(h.ino as int)[x])
                &&& (forall|x: int|
                    old(proc).fs.file_data(h.ino as int).len() <= x < len ==> final(proc).fs.file_data(h.ino as int)[x] == 0)
                &&& final(proc).files@ == old(proc).files@
                &&& final(proc).cwd == old(proc).cwd
                &&& final(proc).fs.len() == old(proc).fs.len()
            })
        },
{
    let h = match proc.get_file(fd) {
        Ok(h) => h,
        Err(e) => {
            return Err(e);
        },
    };
    match proc.fs.resize(h.ino, len) {
        Ok(_) => Ok(0),
        Err(FsError::NotFile) => Err(SysError::EISDIR),
        Err(_) => Err(SysError::ENOSYS),
    }
}

/// Resolves a path and truncates the file it names.
pub fn sys_truncate(proc: &mut Process, um: &UserMem, path_base: usize, len: usize) -> (r: Result<
    isize,
    SysError,
>)
    requires
        old(proc).wf(),
        um.wf(),
    ensures
        final(proc).wf(),
        r is Err ==> *final(proc) == *old(proc),
        !has_cstr(*um, path_base as int) ==> r == Result::<isize, SysError>::Err(SysError::EINVAL),
        has_cstr(*um, path_base as int) ==> {
            let pr = resolve_abs(*old(proc), cstr_at(*um, path_base as int));
            &&& (pr matches Err(e) ==> r == Result::<isize, SysError>::Err(e))
            &&& (pr matches Ok(i) ==> {
                &&& (old(proc).fs.is_dir(i as int) ==> r == Result::<isize, SysError>::Err(
                    SysError::EISDIR,
                ))
                &&& (!old(proc).fs.is_dir(i as int) && !old(proc).fs.is_file(i as int) ==> r
                    == Result::<isize, SysError>::Err(SysError::ENOSYS))
                &&& (old(proc).fs.is_file(i as int) ==> {
                    &&& r == Result::<isize, SysError>::Ok(0)
                    &&& final(proc).fs.file_data(i as int).len() == len
                    &&& (forall|x: int|
                        0 <= x < len && x < old(proc).fs.file_data(i as int).len() ==> final(proc).fs.file_data(i as int)[x] == old(proc).fs.file_data(i as int)[x])
                    &&& (forall|x: int|
                        old(proc).fs.file_data(i as int).len() <= x < len ==> final(proc).fs.file_data(i as int)[x] == 0)
                    &&& (forall|j: int|
                        0 <= j < old(proc).fs.len() && j != i ==> final(proc).fs.nodes@[j] == old(proc).fs.nodes@[j])
                    &&& final(proc).files@ == old(proc).files@
                    &&& final(proc).cwd == old(proc).cwd
                    &&& final(proc).fs.len() == old(proc).fs.len()
                })
            })
        },
{
    let path = match um.check_and_clone_cstr(path_base) {
        Ok(p) => p,
        Err(e) => {
            return Err(e);
        },
    };
    let ino = match proc.lookup_inode(path.as_slice()) {
        Ok(i) => i,
        Err(e) => {
            return Err(e);
        },
    };
    match proc.fs.resize(ino, len) {
        Ok(_) => Ok(0),
        Err(FsError::NotFile) => Err(SysError::EISDIR),
        Err(_) => Err(SysError::ENOSYS),
    }
}

/// Writes the working directory into the caller's buffer; a buffer too
/// small for it and its terminator fails result-too-large.
pub fn sys_getcwd(proc: &Process, um: &mut UserMem, base: usize, len: usize) -> (r: Result<
    isize,
    SysError,
>)
    requires
        proc.wf(),
        old(um).wf(),
    ensures
        final(um).wf(),
        !(base + len <= usize::MAX && old(um).range_writable(base as int, len as int)) ==> r
            == Result::<isize, SysError>::Err(SysError::EINVAL) && *final(um) == *old(um),
        base + len <= usize::MAX && old(um).range_writable(base as int, len as int)
            && proc.cwd@.len() + 1 > len ==> r == Result::<isize, SysError>::Err(SysError::ERANGE)
            && *final(um) == *old(um),
        base + len <= usize::MAX && old(um).range_writable(base as int, len as int)
            && proc.cwd@.len() + 1 <= len ==> {
            &&& r == Result::<isize, SysError>::Ok(0)
            &&& final(um).regions@ == old(um).regions@
            &&& final(um).mem@.len() == old(um).mem@.len()
            &&& (forall|k: int|
                0 <= k < proc.cwd@.len() ==> final(um).mem@[base + k] == proc.cwd@[k])
            &&& final(um).mem@[base + proc.cwd@.len()] == 0
            &&& (forall|x: int|
                0 <= x < final(um).mem@.len() && !(base <= x <= base + proc.cwd@.len())
                    ==> final(um).mem@[x] == old(um).mem@[x])
        },
{
    if um.check_mut_array(base, len).is_err() {
        return Err(SysError::EINVAL);
    }
    if len == 0 || proc.cwd.len() > len - 1 {
        return Err(SysError::ERANGE);
    }
    proof {
        um.lemma_writable_transfer(old(um), base as int, len as int, proc.cwd@.len() as int + 1);
    }
    um.write_cstr(base, proc.cwd.as_slice());
    Ok(0)
}

/// The bytes of the legacy console-input alias, "stdin:".
pub open spec fn stdin_alias_bytes() -> Seq<u8> {
    seq![115u8, 116u8, 100u8, 105u8, 110u8, 58u8]
}

/// The bytes of the legacy console-output alias, "stdout:".
pub open spec fn stdout_alias_bytes() -> Seq<u8> {
    seq![115u8, 116u8, 100u8, 111u8, 117u8, 116u8, 58u8]
}

/// What a successful open did: the lowest unused descriptor now holds
/// a handle on inode `i` with cursor 0 and the mode the flags resolve
/// to; every other entry and the working directory are untouched.
pub open spec fn opened_at(
    pre: Process,
    post: Process,
    r: Result<isize, SysError>,
    i: usize,
    flags: usize,
) -> bool {
    &&& r is Ok
    &&& (r matches Ok(fdv) ==> {
        let fd = fdv as int;
        &&& 0 <= fdv <= isize::MAX
        &&& pre.fd_get(fd) is None
        &&& (forall|j: int| 0 <= j < fd ==> pre.fd_get(j) is Some)
        &&& post.fd_get(fd) == Some(
            FileLike::File(
                FileHandle {
                    ino: i,
                    offset: 0,
                    options: OpenOptions {
                        read: (OpenFlags { bits: flags & OPEN_KNOWN_MASK }).readable_spec(),
                        write: (OpenFlags { bits: flags & OPEN_KNOWN_MASK }).writable_spec(),
                        append: (OpenFlags { bits: flags & OPEN_KNOWN_MASK }).contains_spec(
                            OPEN_APPEND,
                        ),
                    },
                },
            ),
        )
        &&& (forall|j: int|
            0 <= j < post.files@.len() && j != fd ==> post.fd_get(j) == pre.fd_get(j))
        &&& post.cwd == pre.cwd
    })
}

/// Opens a path: with CREATE the parent is resolved and the leaf
/// looked up — absent, it is created; present under EXCLUSIVE, the
/// call fails "already exists" and changes nothing. Without CREATE the
/// path is resolved directly, with the legacy aliases "stdin:" and
/// "stdout:" mapping to the console capabilities. The lowest unused
/// descriptor is allocated, wrapping the inode with cursor 0 and the
/// resolved mode.
#[verifier::spinoff_prover]
#[verifier::rlimit(80)]
pub fn sys_open(proc: &mut Process, um: &UserMem, path_base: usize, flags: usize, mode: usize) -> (
    r: Result<isize, SysError>)
    requires
        old(proc).wf(),
        um.wf(),
    ensures
        final(proc).wf(),
        r is Err ==> *final(proc) == *old(proc),
        r == Result::<isize, SysError>::Err(SysError::EEXIST) ==> (flags
            & crate::flags::OPEN_KNOWN_MASK) & OPEN_CREATE == OPEN_CREATE && (flags
            & crate::flags::OPEN_KNOWN_MASK) & OPEN_EXCLUSIVE == OPEN_EXCLUSIVE,
        r matches Ok(fdv) ==> 0 <= fdv <= isize::MAX && final(proc).cwd == old(proc).cwd && (
        final(proc).fs.len() == old(proc).fs.len() || final(proc).fs.len() == old(proc).fs.len()
            + 1),
        !has_cstr(*um, path_base as int) ==> r == Result::<isize, SysError>::Err(SysError::EINVAL),
        has_cstr(*um, path_base as int) && old(proc).files@.len() <= isize::MAX ==> {
            let p = cstr_at(*um, path_base as int);
            &&& ((flags & OPEN_KNOWN_MASK) & OPEN_CREATE == OPEN_CREATE ==> {
                let leaf = name_part(p);
                let dr = resolve_abs(*old(proc), dir_part(p));
                &&& (dr matches Err(e) ==> r == Result::<isize, SysError>::Err(e))
                &&& (dr matches Ok(d) ==> {
                    let dd = d as int;
                    &&& (!old(proc).fs.is_dir(dd) ==> r == Result::<isize, SysError>::Err(
                        SysError::ENOTDIR,
                    ))
                    &&& (old(proc).fs.is_dir(dd) && old(proc).fs.dir_has(dd, leaf) && (flags
                        & OPEN_KNOWN_MASK) & OPEN_EXCLUSIVE == OPEN_EXCLUSIVE ==> r == Result::<
                        isize,
                        SysError,
                    >::Err(SysError::EEXIST) && *final(proc) == *old(proc))
                    &&& (old(proc).fs.is_dir(dd) && old(proc).fs.dir_has(dd, leaf) && (flags
                        & OPEN_KNOWN_MASK) & OPEN_EXCLUSIVE != OPEN_EXCLUSIVE ==> opened_at(
                        *old(proc),
                        *final(proc),
                        r,
                        old(proc).fs.ino_of(dd, leaf),
                        flags,
                    ) && final(proc).fs == old(proc).fs)
                    &&& (old(proc).fs.is_dir(dd) && !old(proc).fs.dir_has(dd, leaf) ==> {
                        &&& opened_at(
                            *old(proc),
                            *final(proc),
                            r,
                            old(proc).fs.len() as usize,
                            flags,
                        )
                        &&& final(proc).fs.len() == old(proc).fs.len() + 1
                        &&& final(proc).fs.is_file(old(proc).fs.len())
                        &&& final(proc).fs.file_data(old(proc).fs.len()) == Seq::<u8>::empty()
                        &&& final(proc).fs.entries(dd).len() == old(proc).fs.entries(dd).len() + 1
                        &&& final(proc).fs.entries(dd).last().name@ == leaf
                        &&& final(proc).fs.entries(dd).last().ino == old(proc).fs.len()
                        &&& final(proc).fs.dir_has(dd, leaf)
                        &&& final(proc).fs.ino_of(dd, leaf) == old(proc).fs.len()
                        &&& (forall|j: int|
                            0 <= j < old(proc).fs.len() && j != dd ==> final(proc).fs.nodes@[j]
                                == old(proc).fs.nodes@[j])
                    })
                })
            })
            &&& ((flags & OPEN_KNOWN_MASK) & OPEN_CREATE != OPEN_CREATE ==> {
                &&& (p == stdin_alias_bytes() ==> opened_at(
                    *old(proc),
                    *final(proc),
                    r,
                    crate::fs::STDIN_INO,
                    flags,
                ) && final(proc).fs == old(proc).fs)
                &&& (p == stdout_alias_bytes() ==> opened_at(
                    *old(proc),
                    *final(proc),
                    r,
                    crate::fs::STDOUT_INO,
                    flags,
                ) && final(proc).fs == old(proc).fs)
                &&& (p != stdin_alias_bytes() && p != stdout_alias_bytes() ==> {
                    let pr = resolve_abs(*old(proc), p);
                    &&& (pr matches Err(e) ==> r == Result::<isize, SysError>::Err(e))
                    &&& (pr matches Ok(i) ==> opened_at(*old(proc), *final(proc), r, i, flags)
                        && final(proc).fs == old(proc).fs)
                })
            })
        },
{
    let path = match um.check_and_clone_cstr(path_base) {
        Ok(p) => p,
        Err(e) => {
            return Err(e);
        },
    };
    let fl = OpenFlags::from_bits_truncate(flags);
    if proc.files.len() >= usize::MAX {
        return Err(SysError::ENOMEM);
    }
    let fd = proc.get_free_fd();
    if fd > isize::MAX as usize {
        return Err(SysError::ENOMEM);
    }
    let ino: usize = if fl.contains(OPEN_CREATE) {
        let (dir_path, file_name) = crate::path::split_path(path.as_slice());
        let dir_ino = match proc.lookup_inode(dir_path.as_slice()) {
            Ok(d) => d,
            Err(e) => {
                return Err(e);
            },
        };
        match proc.fs.find(dir_ino, file_name.as_slice()) {
            Ok(i) => {
                if fl.contains(OPEN_EXCLUSIVE) {
                    return Err(SysError::EEXIST);
                }
                i
            },
            Err(FsError::EntryNotFound) => {
                match proc.fs.create(dir_ino, file_name.as_slice(), FileType::File, mode as u32) {
                    Ok(i) => i,
                    Err(e) => {
                        return Err(SysError::from(e));
                    },
                }
            },
            Err(e) => {
                return Err(SysError::from(e));
            },
        }
    } else {
        let mut stdin_alias: Vec<u8> = Vec::new();
        stdin_alias.push(115);
        stdin_alias.push(116);
        stdin_alias.push(100);
        stdin_alias.push(105);
        stdin_alias.push(110);
        stdin_alias.push(58);
        let mut stdout_alias: Vec<u8> = Vec::new();
        stdout_alias.push(115);
        stdout_alias.push(116);
        stdout_alias.push(100);
        stdout_alias.push(111);
        stdout_alias.push(117);
        stdout_alias.push(116);
        stdout_alias.push(58);
        proof {
            assert(stdin_alias@ =~= stdin_alias_bytes());
            assert(stdout_alias@ =~= stdout_alias_bytes());
        }
        if crate::fs::bytes_eq(path.as_slice(), stdin_alias.as_slice()) {
            crate::fs::STDIN_INO
        } else if crate::fs::bytes_eq(path.as_slice(), stdout_alias.as_slice()) {
            crate::fs::STDOUT_INO
        } else {
            match proc.lookup_inode(path.as_slice()) {
                Ok(i) => i,
                Err(e) => {
                    return Err(e);
                },
            }
        }
    };
    proof {
        assert(ino < proc.fs.len());
    }
    proc.insert_file(fd, FileLike::File(FileHandle { ino, offset: 0, options: fl.to_options() }));
    Ok(fd as isize)
}

/// Resolves a path and encodes its metadata into the fixed stat record
/// at `stat_base`. Symlinks are not followed — this call behaves as
/// `sys_lstat` does.
pub fn sys_stat(proc: &Process, um: &mut UserMem, path_base: usize, stat_base: usize) -> (r: Result<
    isize,
    SysError,
>)
    requires
        proc.wf(),
        old(um).wf(),
    ensures
        final(um).wf(),
        r is Err ==> *final(um) == *old(um),
        !has_cstr(*old(um), path_base as int) ==> r == Result::<isize, SysError>::Err(
            SysError::EINVAL,
        ),
        has_cstr(*old(um), path_base as int) && !(stat_base + 120 <= usize::MAX && old(
            um,
        ).range_writable(stat_base as int, 120)) ==> r == Result::<isize, SysError>::Err(
            SysError::EINVAL,
        ),
        has_cstr(*old(um), path_base as int) && stat_base + 120 <= usize::MAX && old(
            um,
        ).range_writable(stat_base as int, 120) ==> {
            let pr = resolve_abs(*proc, cstr_at(*old(um), path_base as int));
            &&& (pr matches Err(e) ==> r == Result::<isize, SysError>::Err(e))
            &&& (pr matches Ok(i) ==> {
                &&& (!(proc.fs.is_file(i as int) || proc.fs.is_dir(i as int)) ==> r == Result::<
                    isize,
                    SysError,
                >::Err(SysError::ENOSYS))
                &&& (proc.fs.is_file(i as int) || proc.fs.is_dir(i as int) ==> {
                    &&& r == Result::<isize, SysError>::Ok(0)
                    &&& final(um).regions@ == old(um).regions@
                    &&& final(um).mem@.len() == old(um).mem@.len()
                    &&& bytes_at(final(um).mem@, stat_base as int, 120) == stat_bytes(
                        stat_of(proc.fs.meta_spec(i as int)),
                    )
                    &&& (forall|x: int|
                        0 <= x < final(um).mem@.len() && !(stat_base <= x < stat_base + 120)
                            ==> final(um).mem@[x] == old(um).mem@[x])
                })
            })
        },
{
    sys_lstat(proc, um, path_base, stat_base)
}

/// Resolves a path without following a final symlink and encodes its
/// metadata into the fixed stat record at `stat_base`.
pub fn sys_lstat(proc: &Process, um: &mut UserMem, path_base: usize, stat_base: usize) -> (r:
    Result<isize, SysError>)
    requires
        proc.wf(),
        old(um).wf(),
    ensures
        final(um).wf(),
        r is Err ==> *final(um) == *old(um),
        !has_cstr(*old(um), path_base as int) ==> r == Result::<isize, SysError>::Err(
            SysError::EINVAL,
        ),
        has_cstr(*old(um), path_base as int) && !(stat_base + 120 <= usize::MAX && old(
            um,
        ).range_writable(stat_base as int, 120)) ==> r == Result::<isize, SysError>::Err(
            SysError::EINVAL,
        ),
        has_cstr(*old(um), path_base as int) && stat_base + 120 <= usize::MAX && old(
            um,
        ).range_writable(stat_base as int, 120) ==> {
            let pr = resolve_abs(*proc, cstr_at(*old(um), path_base as int));
            &&& (pr matches Err(e) ==> r == Result::<isize, SysError>::Err(e))
            &&& (pr matches Ok(i) ==> {
                &&& (!(proc.fs.is_file(i as int) || proc.fs.is_dir(i as int)) ==> r == Result::<
                    isize,
                    SysError,
                >::Err(SysError::ENOSYS))
                &&& (proc.fs.is_file(i as int) || proc.fs.is_dir(i as int) ==> {
                    &&& r == Result::<isize, SysError>::Ok(0)
                    &&& final(um).regions@ == old(um).regions@
                    &&& final(um).mem@.len() == old(um).mem@.len()
                    &&& bytes_at(final(um).mem@, stat_base as int, 120) == stat_bytes(
                        stat_of(proc.fs.meta_spec(i as int)),
                    )
                    &&& (forall|x: int|
                        0 <= x < final(um).mem@.len() && !(stat_base <= x < stat_base + 120)
                            ==> final(um).mem@[x] == old(um).mem@[x])
                })
            })
        },
{
    let path = match um.check_and_clone_cstr(path_base) {
        Ok(p) => p,
        Err(e) => {
            return Err(e);
        },
    };
    if um.check_mut_array(stat_base, 120).is_err() {
        return Err(SysError::EINVAL);
    }
    let ino = match proc.lookup_inode(path.as_slice()) {
        Ok(i) => i,
        Err(e) => {
            return Err(e);
        },
    };
    let meta = match proc.fs.metadata(ino) {
        Ok(m) => m,
        Err(e) => {
            return Err(SysError::from(e));
        },
    };
    let stat = crate::abi::Stat::from(meta);
    let bytes = encode_stat(&stat);
    proof {
        um.lemma_writable_transfer(old(um), stat_base as int, 120, 120);
        assert(stat == stat_of(proc.fs.meta_spec(ino as int)));
    }
    um.write_bytes(stat_base, bytes.as_slice());
    proof {
        assert(bytes_at(um.mem@, stat_base as int, 120) =~= stat_bytes(stat_of(
            proc.fs.meta_spec(ino as int),
        )));
    }
    Ok(0)
}

/// Encodes the metadata of the inode behind a descriptor into the
/// fixed stat record at `stat_base`.
pub fn sys_fstat(proc: &Process, um: &mut UserMem, fd: usize, stat_base: usize) -> (r: Result<
    isize,
    SysError,
>)
    requires
        proc.wf(),
        old(um).wf(),
    ensures
        final(um).wf(),
        r is Err ==> *final(um) == *old(um),
        !(stat_base + 120 <= usize::MAX && old(um).range_writable(stat_base as int, 120)) ==> r
            == Result::<isize, SysError>::Err(SysError::EINVAL),
        stat_base + 120 <= usize::MAX && old(um).range_writable(stat_base as int, 120) && !(
        proc.fd_get(fd as int) matches Some(FileLike::File(_))) ==> r == Result::<
            isize,
            SysError,
        >::Err(SysError::EBADF),
        proc.fd_get(fd as int) matches Some(FileLike::File(h)) ==> {
            &&& (stat_base + 120 <= usize::MAX && old(um).range_writable(stat_base as int, 120)
                && !(proc.fs.is_file(h.ino as int) || proc.fs.is_dir(h.ino as int)) ==> r
                == Result::<isize, SysError>::Err(SysError::ENOSYS))
            &&& (stat_base + 120 <= usize::MAX && old(um).range_writable(stat_base as int, 120)
                && (proc.fs.is_file(h.ino as int) || proc.fs.is_dir(h.ino as int)) ==> {
                &&& r == Result::<isize, SysError>::Ok(0)
                &&& final(um).regions@ == old(um).regions@
                &&& final(um).mem@.len() == old(um).mem@.len()
                &&& bytes_at(final(um).mem@, stat_base as int, 120) == stat_bytes(
                    stat_of(proc.fs.meta_spec(h.ino as int)),
                )
                &&& (forall|x: int|
                    0 <= x < final(um).mem@.len() && !(stat_base <= x < stat_base + 120)
                        ==> final(um).mem@[x] == old(um).mem@[x])
            })
        },
{
    if um.check_mut_array(stat_base, 120).is_err() {
        return Err(SysError::EINVAL);
    }
    let h = match proc.get_file(fd) {
        Ok(h) => h,
        Err(e) => {
            return Err(e);
        },
    };
    let meta = match proc.fs.metadata(h.ino) {
        Ok(m) => m,
        Err(e) => {
            return Err(SysError::from(e));
        },
    };
    let stat = crate::abi::Stat::from(meta);
    let bytes = encode_stat(&stat);
    proof {
        um.lemma_writable_transfer(old(um), stat_base as int, 120, 120);
        assert(stat == stat_of(proc.fs.meta_spec(h.ino as int)));
    }
    um.write_bytes(stat_base, bytes.as_slice());
    proof {
        assert(bytes_at(um.mem@, stat_base as int, 120) =~= stat_bytes(stat_of(
            proc.fs.meta_spec(h.ino as int),
        )));
    }
    Ok(0)
}

/// Changes the working directory: the target must be a directory; the
/// path is appended to the working directory without canonicalization,
/// a documented simplification.
pub fn sys_chdir(proc: &mut Process, um: &UserMem, path_base: usize) -> (r: Result<isize, SysError>)
    requires
        old(proc).wf(),
        um.wf(),
    ensures
        final(proc).wf(),
        r is Err ==> *final(proc) == *old(proc),
        !has_cstr(*um, path_base as int) ==> r == Result::<isize, SysError>::Err(SysError::EINVAL),
        has_cstr(*um, path_base as int) ==> {
            let p = cstr_at(*um, path_base as int);
            let pr = resolve_abs(*old(proc), p);
            &&& (pr matches Err(e) ==> r == Result::<isize, SysError>::Err(e))
            &&& (pr matches Ok(i) ==> {
                &&& (old(proc).fs.is_file(i as int) ==> r == Result::<isize, SysError>::Err(
                    SysError::ENOTDIR,
                ))
                &&& (!old(proc).fs.is_file(i as int) && !old(proc).fs.is_dir(i as int) ==> r
                    == Result::<isize, SysError>::Err(SysError::ENOSYS))
                &&& (old(proc).fs.is_dir(i as int) ==> {
                    &&& r == Result::<isize, SysError>::Ok(0)
                    &&& final(proc).fs == old(proc).fs
                    &&& final(proc).files@ == old(proc).files@
                    &&& final(proc).cwd@ == old(proc).cwd@ + p
                })
            })
        },
{
    let path = match um.check_and_clone_cstr(path_base) {
        Ok(p) => p,
        Err(e) => {
            return Err(e);
        },
    };
    let ino = match proc.lookup_inode(path.as_slice()) {
        Ok(i) => i,
        Err(e) => {
            return Err(e);
        },
    };
    let is_dir = match &proc.fs.nodes[ino].kind {
        crate::fs::NodeKind::Dir(_) => true,
        _ => false,
    };
    if !is_dir {
        let is_fs_node = match &proc.fs.nodes[ino].kind {
            crate::fs::NodeKind::File(_) => true,
            _ => false,
        };
        if is_fs_node {
            return Err(SysError::ENOTDIR);
        }
        return Err(SysError::ENOSYS);
    }
    let ghost pre_cwd = proc.cwd@;
    let mut x: usize = 0;
    while x < path.len()
        invariant
            old(proc).wf(),
            x <= path@.len(),
            proc.fs == old(proc).fs,
            proc.files@ == old(proc).files@,
            proc.cwd@ == pre_cwd + path@.subrange(0, x as int),
            pre_cwd == old(proc).cwd@,
        decreases path@.len() - x,
    {
        proc.cwd.push(path[x]);
        proof {
            assert(path@.subrange(0, (x + 1) as int) =~= path@.subrange(0, x as int).push(
                path@[x as int],
            ));
        }
        x = x + 1;
    }
    proof {
        assert(path@.subrange(0, path@.len() as int) =~= path@);
        assert(proc.cwd@ == old(proc).cwd@ + cstr_at(*um, path_base as int));
    }
    Ok(0)
}

/// Creates a directory at a path: split into parent and leaf, fail
/// "already exists" on a present leaf, else create.
pub fn sys_mkdir(proc: &mut Process, um: &UserMem, path_base: usize, mode: usize) -> (r: Result<
    isize,
    SysError,
>)
    requires
        old(proc).wf(),
        um.wf(),
    ensures
        final(proc).wf(),
        r is Err ==> *final(proc) == *old(proc),
        !has_cstr(*um, path_base as int) ==> r == Result::<isize, SysError>::Err(SysError::EINVAL),
        has_cstr(*um, path_base as int) ==> {
            let p = cstr_at(*um, path_base as int);
            let leaf = name_part(p);
            let dr = resolve_abs(*old(proc), dir_part(p));
            &&& (dr matches Err(e) ==> r == Result::<isize, SysError>::Err(e))
            &&& (dr matches Ok(d) ==> {
                let dd = d as int;
                &&& (!old(proc).fs.is_dir(dd) ==> r == Result::<isize, SysError>::Err(
                    SysError::ENOTDIR,
                ))
                &&& (old(proc).fs.is_dir(dd) && old(proc).fs.dir_has(dd, leaf) ==> r == Result::<
                    isize,
                    SysError,
                >::Err(SysError::EEXIST))
                &&& (old(proc).fs.is_dir(dd) && !old(proc).fs.dir_has(dd, leaf) ==> {
                    &&& r == Result::<isize, SysError>::Ok(0)
                    &&& final(proc).fs.len() == old(proc).fs.len() + 1
                    &&& final(proc).fs.is_dir(old(proc).fs.len())
                    &&& final(proc).fs.entries(old(proc).fs.len()) == Seq::<
                        crate::fs::DirEntry,
                    >::empty()
                    &&& final(proc).fs.entries(dd).len() == old(proc).fs.entries(dd).len() + 1
                    &&& (forall|k: int|
                        0 <= k < old(proc).fs.entries(dd).len() ==> final(proc).fs.entries(dd)[k]
                            == old(proc).fs.entries(dd)[k])
                    &&& final(proc).fs.entries(dd).last().name@ == leaf
                    &&& final(proc).fs.entries(dd).last().ino == old(proc).fs.len()
                    &&& final(proc).fs.dir_has(dd, leaf)
                    &&& final(proc).fs.ino_of(dd, leaf) == old(proc).fs.len()
                    &&& (forall|j: int|
                        0 <= j < old(proc).fs.len() && j != dd ==> final(proc).fs.nodes@[j] == old(proc).fs.nodes@[j])
                    &&& final(proc).files@ == old(proc).files@
                    &&& final(proc).cwd == old(proc).cwd
                })
            })
        },
{
    let path = match um.check_and_clone_cstr(path_base) {
        Ok(p) => p,
        Err(e) => {
            return Err(e);
        },
    };
    let (dir_path, file_name) = crate::path::split_path(path.as_slice());
    let dir_ino = match proc.lookup_inode(dir_path.as_slice()) {
        Ok(d) => d,
        Err(e) => {
            return Err(e);
        },
    };
    if proc.fs.find(dir_ino, file_name.as_slice()).is_ok() {
        return Err(SysError::EEXIST);
    }
    match proc.fs.create(dir_ino, file_name.as_slice(), FileType::Dir, mode as u32) {
        Ok(_) => Ok(0),
        Err(e) => Err(SysError::from(e)),
    }
}

/// Adds a hard link: the new parent directory gains the new leaf name
/// referring to the old path's inode.
pub fn sys_link(proc: &mut Process, um: &UserMem, old_base: usize, new_base: usize) -> (r: Result<
    isize,
    SysError,
>)
    requires
        old(proc).wf(),
        um.wf(),
    ensures
        final(proc).wf(),
        r is Err ==> *final(proc) == *old(proc),
        !(has_cstr(*um, old_base as int) && has_cstr(*um, new_base as int)) ==> r == Result::<
            isize,
            SysError,
        >::Err(SysError::EINVAL),
        has_cstr(*um, old_base as int) && has_cstr(*um, new_base as int) ==> {
            let op = cstr_at(*um, old_base as int);
            let np = cstr_at(*um, new_base as int);
            let nleaf = name_part(np);
            let ir = resolve_abs(*old(proc), op);
            &&& (ir matches Err(e) ==> r == Result::<isize, SysError>::Err(e))
            &&& (ir matches Ok(i) ==> {
                let dr = resolve_abs(*old(proc), dir_part(np));
                &&& (dr matches Err(e) ==> r == Result::<isize, SysError>::Err(e))
                &&& (dr matches Ok(d) ==> {
                    let dd = d as int;
                    &&& (!old(proc).fs.is_dir(dd) ==> r == Result::<isize, SysError>::Err(
                        SysError::ENOTDIR,
                    ))
                    &&& (old(proc).fs.is_dir(dd) && old(proc).fs.dir_has(dd, nleaf) ==> r
                        == Result::<isize, SysError>::Err(SysError::EEXIST))
                    &&& (old(proc).fs.is_dir(dd) && !old(proc).fs.dir_has(dd, nleaf) && old(
                        proc,
                    ).fs.is_dir(i as int) ==> r == Result::<isize, SysError>::Err(
                        SysError::EISDIR,
                    ))
                    &&& (old(proc).fs.is_dir(dd) && !old(proc).fs.dir_has(dd, nleaf) && !old(
                        proc,
                    ).fs.is_dir(i as int) && old(proc).fs.nodes@[i as int].nlinks < usize::MAX
                        ==> {
                        &&& r == Result::<isize, SysError>::Ok(0)
                        &&& final(proc).fs.entries(dd).len() == old(proc).fs.entries(dd).len() + 1
                        &&& final(proc).fs.entries(dd).last().name@ == nleaf
                        &&& final(proc).fs.entries(dd).last().ino == i
                        &&& final(proc).fs.dir_has(dd, nleaf)
                        &&& final(proc).fs.ino_of(dd, nleaf) == i
                        &&& final(proc).fs.nodes@[i as int].nlinks == old(
                            proc,
                        ).fs.nodes@[i as int].nlinks + 1
                        &&& final(proc).fs.nodes@[i as int].kind == old(proc).fs.nodes@[i as int].kind
                        &&& final(proc).files@ == old(proc).files@
                        &&& final(proc).cwd == old(proc).cwd
                        &&& final(proc).fs.len() == old(proc).fs.len()
                    })
                })
            })
        },
{
    let oldpath = match um.check_and_clone_cstr(old_base) {
        Ok(p) => p,
        Err(e) => {
            return Err(e);
        },
    };
    let newpath = match um.check_and_clone_cstr(new_base) {
        Ok(p) => p,
        Err(e) => {
            return Err(e);
        },
    };
    let (new_dir_path, new_file_name) = crate::path::split_path(newpath.as_slice());
    let ino = match proc.lookup_inode(oldpath.as_slice()) {
        Ok(i) => i,
        Err(e) => {
            return Err(e);
        },
    };
    let new_dir = match proc.lookup_inode(new_dir_path.as_slice()) {
        Ok(d) => d,
        Err(e) => {
            return Err(e);
        },
    };
    match proc.fs.link(new_dir, new_file_name.as_slice(), ino) {
        Ok(_) => Ok(0),
        Err(e) => Err(SysError::from(e)),
    }
}

/// Removes a name: split into parent and leaf and unlink the leaf.
#[verifier::spinoff_prover]
#[verifier::rlimit(60)]
pub fn sys_unlink(proc: &mut Process, um: &UserMem, path_base: usize) -> (r: Result<
    isize,
    SysError,
>)
    requires
        old(proc).wf(),
        um.wf(),
    ensures
        final(proc).wf(),
        r is Err ==> *final(proc) == *old(proc),
        !has_cstr(*um, path_base as int) ==> r == Result::<isize, SysError>::Err(SysError::EINVAL),
        has_cstr(*um, path_base as int) ==> {
            let p = cstr_at(*um, path_base as int);
            let leaf = name_part(p);
            let dr = resolve_abs(*old(proc), dir_part(p));
            &&& (dr matches Err(e) ==> r == Result::<isize, SysError>::Err(e))
            &&& (dr matches Ok(d) ==> {
                let dd = d as int;
                &&& (!old(proc).fs.is_dir(dd) ==> r == Result::<isize, SysError>::Err(
                    SysError::ENOTDIR,
                ))
                &&& (old(proc).fs.is_dir(dd) && !old(proc).fs.dir_has(dd, leaf) ==> r == Result::<
                    isize,
                    SysError,
                >::Err(SysError::ENOENT))
                &&& (old(proc).fs.is_dir(dd) && old(proc).fs.dir_has(dd, leaf) && old(proc).fs.is_dir(old(proc).fs.ino_of(dd, leaf) as int) && old(proc).fs.entries(
                    old(proc).fs.ino_of(dd, leaf) as int,
                ).len() > 0 ==> r == Result::<isize, SysError>::Err(SysError::ENOTEMPTY))
                &&& (old(proc).fs.is_dir(dd) && old(proc).fs.dir_has(dd, leaf) && !(old(proc).fs.is_dir(old(proc).fs.ino_of(dd, leaf) as int) && old(proc).fs.entries(
                    old(proc).fs.ino_of(dd, leaf) as int,
                ).len() > 0) ==> {
                    &&& r == Result::<isize, SysError>::Ok(0)
                    &&& final(proc).fs.entries(dd) == old(proc).fs.entries(dd).remove(
                        old(proc).fs.entry_index(dd, leaf),
                    )
                    &&& !final(proc).fs.dir_has(dd, leaf)
                    &&& final(proc).files@ == old(proc).files@
                    &&& final(proc).cwd == old(proc).cwd
                    &&& final(proc).fs.len() == old(proc).fs.len()
                })
            })
        },
{
    let path = match um.check_and_clone_cstr(path_base) {
        Ok(p) => p,
        Err(e) => {
            return Err(e);
        },
    };
    let (dir_path, file_name) = crate::path::split_path(path.as_slice());
    let dir_ino = match proc.lookup_inode(dir_path.as_slice()) {
        Ok(d) => d,
        Err(e) => {
            return Err(e);
        },
    };
    match proc.fs.unlink(dir_ino, file_name.as_slice()) {
        Ok(_) => Ok(0),
        Err(e) => Err(SysError::from(e)),
    }
}

/// Renames a path: within one directory the same-parent fast path
/// renames the entry in place; across two directories the entry is
/// moved, removing the old name and leaving the new name referring to
/// the original entry's data. Which path runs is decided by comparing
/// the resolved parent directories.
pub fn sys_rename(proc: &mut Process, um: &UserMem, old_base: usize, new_base: usize) -> (r: Result<
    isize,
    SysError,
>)
    requires
        old(proc).wf(),
        um.wf(),
    ensures
        final(proc).wf(),
        r is Err ==> *final(proc) == *old(proc),
        r is Ok ==> r == Result::<isize, SysError>::Ok(0) && final(proc).files@ == old(
            proc,
        ).files@ && final(proc).cwd == old(proc).cwd && final(proc).fs.len() == old(proc).fs.len(),
        !(has_cstr(*um, old_base as int) && has_cstr(*um, new_base as int)) ==> r == Result::<
            isize,
            SysError,
        >::Err(SysError::EINVAL),
        has_cstr(*um, old_base as int) && has_cstr(*um, new_base as int) ==> {
            let op = cstr_at(*um, old_base as int);
            let np = cstr_at(*um, new_base as int);
            let oleaf = name_part(op);
            let nleaf = name_part(np);
            let odr = resolve_abs(*old(proc), dir_part(op));
            &&& (odr matches Err(e) ==> r == Result::<isize, SysError>::Err(e))
            &&& (odr matches Ok(od) ==> {
                let ndr = resolve_abs(*old(proc), dir_part(np));
                &&& (ndr matches Err(e) ==> r == Result::<isize, SysError>::Err(e))
                &&& (ndr matches Ok(nd) ==> if od == nd {
                    // the same-parent fast path renames the entry in
                    // place: the cross-directory move is never taken
                    let dd = od as int;
                    &&& (!old(proc).fs.is_dir(dd) ==> r == Result::<isize, SysError>::Err(
                        SysError::ENOTDIR,
                    ))
                    &&& (old(proc).fs.is_dir(dd) && !old(proc).fs.dir_has(dd, oleaf) ==> r
                        == Result::<isize, SysError>::Err(SysError::ENOENT))
                    &&& (old(proc).fs.is_dir(dd) && old(proc).fs.dir_has(dd, oleaf) && old(
                        proc,
                    ).fs.dir_has(dd, nleaf) ==> r == Result::<isize, SysError>::Err(
                        SysError::EEXIST,
                    ))
                    &&& (old(proc).fs.is_dir(dd) && old(proc).fs.dir_has(dd, oleaf) && !old(
                        proc,
                    ).fs.dir_has(dd, nleaf) ==> {
                        &&& r == Result::<isize, SysError>::Ok(0)
                        &&& final(proc).fs.entries(dd).len() == old(proc).fs.entries(dd).len()
                        &&& final(proc).fs.dir_has(dd, nleaf)
                        &&& final(proc).fs.ino_of(dd, nleaf) == old(proc).fs.ino_of(dd, oleaf)
                        &&& !final(proc).fs.dir_has(dd, oleaf)
                        &&& (forall|j: int|
                            0 <= j < old(proc).fs.len() && j != dd ==> final(proc).fs.nodes@[j]
                                == old(proc).fs.nodes@[j])
                    })
                } else {
                    let odi = od as int;
                    let ndi = nd as int;
                    &&& (!(old(proc).fs.is_dir(odi) && old(proc).fs.is_dir(ndi)) ==> r
                        == Result::<isize, SysError>::Err(SysError::ENOTDIR))
                    &&& (old(proc).fs.is_dir(odi) && old(proc).fs.is_dir(ndi) && !old(
                        proc,
                    ).fs.dir_has(odi, oleaf) ==> r == Result::<isize, SysError>::Err(
                        SysError::ENOENT,
                    ))
                    &&& (old(proc).fs.is_dir(odi) && old(proc).fs.is_dir(ndi) && old(
                        proc,
                    ).fs.dir_has(odi, oleaf) && old(proc).fs.dir_has(ndi, nleaf) ==> r
                        == Result::<isize, SysError>::Err(SysError::EEXIST))
                    &&& (old(proc).fs.is_dir(odi) && old(proc).fs.is_dir(ndi) && old(
                        proc,
                    ).fs.dir_has(odi, oleaf) && !old(proc).fs.dir_has(ndi, nleaf) && old(
                        proc,
                    ).fs.ino_of(odi, oleaf) != od && old(proc).fs.ino_of(odi, oleaf) != nd ==> {
                        // the old name disappears and the new name
                        // refers to the original entry's inode
                        &&& r == Result::<isize, SysError>::Ok(0)
                        &&& final(proc).fs.entries(odi) == old(proc).fs.entries(odi).remove(
                            old(proc).fs.entry_index(odi, oleaf),
                        )
                        &&& !final(proc).fs.dir_has(odi, oleaf)
                        &&& final(proc).fs.dir_has(ndi, nleaf)
                        &&& final(proc).fs.ino_of(ndi, nleaf) == old(proc).fs.ino_of(odi, oleaf)
                        &&& final(proc).fs.nodes@[old(proc).fs.ino_of(odi, oleaf) as int].kind
                            == old(proc).fs.nodes@[old(proc).fs.ino_of(odi, oleaf) as int].kind
                    })
                })
            })
        },
{
    let oldpath = match um.check_and_clone_cstr(old_base) {
        Ok(p) => p,
        Err(e) => {
            return Err(e);
        },
    };
    let newpath = match um.check_and_clone_cstr(new_base) {
        Ok(p) => p,
        Err(e) => {
            return Err(e);
        },
    };
    let (old_dir_path, old_file_name) = crate::path::split_path(oldpath.as_slice());
    let (new_dir_path, new_file_name) = crate::path::split_path(newpath.as_slice());
    let old_dir = match proc.lookup_inode(old_dir_path.as_slice()) {
        Ok(d) => d,
        Err(e) => {
            return Err(e);
        },
    };
    let new_dir = match proc.lookup_inode(new_dir_path.as_slice()) {
        Ok(d) => d,
        Err(e) => {
            return Err(e);
        },
    };
    if old_dir == new_dir {
        match proc.fs.rename(old_dir, old_file_name.as_slice(), new_file_name.as_slice()) {
            Ok(_) => Ok(0),
            Err(e) => Err(SysError::from(e)),
        }
    } else {
        match proc.fs.move_entry(
            old_dir,
            old_file_name.as_slice(),
            new_dir,
            new_file_name.as_slice(),
        ) {
            Ok(_) => Ok(0),
            Err(e) => Err(SysError::from(e)),
        }
    }
}

/// Reads through a descriptor into a scatter list: every segment is
/// validated writable up front, one contiguous staging buffer receives
/// a single read, and the transferred prefix is copied back out across
/// the segments in order.
#[verifier::spinoff_prover]
#[verifier::rlimit(80)]
pub fn sys_readv(proc: &mut Process, um: &mut UserMem, fd: usize, iovs: &Vec<crate::iovec::IoVec>)
    -> (r: Result<SysStep, SysError>)
    requires
        old(proc).wf(),
        old(um).wf(),
    ensures
        final(proc).wf(),
        final(um).wf(),
        !crate::iovec::segments_valid(*old(um), iovs@, true) ==> r == Result::<
            SysStep,
            SysError,
        >::Err(SysError::EINVAL) && *final(proc) == *old(proc) && *final(um) == *old(um),
        crate::iovec::segments_valid(*old(um), iovs@, true) && crate::iovec::total_len(iovs@)
            > usize::MAX ==> r == Result::<SysStep, SysError>::Err(SysError::EINVAL) && *final(proc) == *old(proc) && *final(um) == *old(um),
        r is Ok ==> final(um).regions@ == old(um).regions@ && final(um).mem@.len() == old(um).mem@.len() && (forall|a: int|
            0 <= a < final(um).mem@.len() && !crate::iovec::in_segments(iovs@, a) ==> final(um).mem@[a] == old(um).mem@[a]),
        crate::iovec::segments_valid(*old(um), iovs@, true) && crate::iovec::total_len(iovs@)
            <= usize::MAX ==> (old(proc).fd_get(fd as int) matches Some(FileLike::File(h)) ==> {
            let total = crate::iovec::total_len(iovs@);
            let ino = h.ino as int;
            &&& (h.options.read && old(proc).fs.is_file(ino) ==> {
                let bytes = if h.offset <= usize::MAX {
                    read_span(old(proc).fs.file_data(ino), h.offset as int, total)
                } else {
                    Seq::<u8>::empty()
                };
                &&& r == Result::<SysStep, SysError>::Ok(SysStep::Ret(bytes.len() as isize))
                &&& final(proc).fs == old(proc).fs
                &&& final(proc).cwd == old(proc).cwd
                &&& final(proc).files@ == old(proc).files@.update(
                    fd as int,
                    Some(
                        FileLike::File(
                            FileHandle {
                                ino: h.ino,
                                offset: (h.offset + bytes.len()) as u64,
                                options: h.options,
                            },
                        ),
                    ),
                )
                &&& (crate::iovec::segments_disjoint(iovs@) ==> (forall|j: int, k: int|
                    0 <= j < iovs@.len() && 0 <= k < iovs@[j].len && crate::iovec::prefix_len(
                        iovs@,
                        j,
                    ) + k < bytes.len() ==> #[trigger] crate::iovec::seg_byte(
                        final(um).mem@,
                        iovs@[j],
                        k,
                    ) == bytes[crate::iovec::prefix_len(iovs@, j) + k]))
            })
            &&& (h.options.read && old(proc).fs.is_console_in(ino) && total > 0 && old(proc).fs.console_pending(ino).len() == 0 ==> r == Result::<SysStep, SysError>::Ok(
                SysStep::Block,
            ) && *final(um) == *old(um))
            &&& (h.options.read && old(proc).fs.is_console_in(ino) && total > 0 && old(proc).fs.console_pending(ino).len() > 0 ==> {
                // one pending character lands at the start of the
                // scatter list and leaves the queue
                &&& r == Result::<SysStep, SysError>::Ok(SysStep::Ret(1))
                &&& final(proc).fs.console_pending(ino) == old(proc).fs.console_pending(
                    ino,
                ).drop_first()
                &&& final(proc).files@ == old(proc).files@
                &&& (crate::iovec::segments_disjoint(iovs@) ==> (forall|j: int, k: int|
                    0 <= j < iovs@.len() && 0 <= k < iovs@[j].len && crate::iovec::prefix_len(
                        iovs@,
                        j,
                    ) + k < 1 ==> #[trigger] crate::iovec::seg_byte(final(um).mem@, iovs@[j], k)
                        == ((old(proc).fs.console_pending(ino)[0] as u32) as u8)))
            })
        }),
{
    let v = match crate::iovec::IoVecs::check_and_new(iovs, um, true) {
        Ok(v) => v,
        Err(e) => {
            return Err(e);
        },
    };
    let total = match v.total_length() {
        Ok(t) => t,
        Err(e) => {
            return Err(e);
        },
    };
    let h = match proc.get_file(fd) {
        Ok(h) => h,
        Err(e) => {
            return Err(e);
        },
    };
    if !h.options.read {
        return Err(SysError::EINVAL);
    }
    let kind: u8 = match &proc.fs.nodes[h.ino].kind {
        crate::fs::NodeKind::ConsoleIn(_) => 0,
        crate::fs::NodeKind::File(_) => 1,
        crate::fs::NodeKind::Dir(_) => 2,
        crate::fs::NodeKind::ConsoleOut(_) => 3,
    };
    if kind == 0 {
        if total == 0 {
            return Ok(SysStep::Ret(0));
        }
        match proc.fs.console_pop(h.ino) {
            Ok(Some(c)) => {
                let byte: u8 = (c as u32) as u8;
                let mut one: Vec<u8> = Vec::new();
                one.push(byte);
                proof {
                    crate::iovec::lemma_total_len_nonneg(iovs@);
                }
                v.write_all_from_slice(um, one.as_slice());
                proof {
                    if crate::iovec::segments_disjoint(iovs@) {
                        assert(crate::iovec::segments_disjoint(v.vecs@));
                        assert forall|j: int, k: int|
                            0 <= j < iovs@.len() && 0 <= k < iovs@[j].len
                                && crate::iovec::prefix_len(iovs@, j) + k < 1 implies #[trigger] crate::iovec::seg_byte(
                            um.mem@,
                            iovs@[j],
                            k,
                        ) == byte by {
                            crate::iovec::lemma_prefix_nonneg(iovs@, j);
                            assert(v.vecs@[j] == iovs@[j]);
                            assert(crate::iovec::prefix_len(v.vecs@, j) == crate::iovec::prefix_len(
                                iovs@,
                                j,
                            ));
                            assert(crate::iovec::seg_byte(um.mem@, v.vecs@[j], k) == one@[
                            crate::iovec::prefix_len(v.vecs@, j) + k]);
                        }
                    }
                }
                Ok(SysStep::Ret(1))
            },
            Ok(None) => Ok(SysStep::Block),
            Err(_) => Err(SysError::ENOSYS),
        }
    } else if kind == 1 {
        let offset_big = h.offset > usize::MAX as u64;
        let bytes = if offset_big {
            Vec::new()
        } else {
            match proc.fs.file_read_at(h.ino, h.offset as usize, total) {
                Ok(b) => b,
                Err(_) => {
                    return Err(SysError::EIO);
                },
            }
        };
        let size = match &proc.fs.nodes[h.ino].kind {
            crate::fs::NodeKind::File(d) => d.len(),
            _ => 0,
        };
        proof {
            assert(proc.fs.file_data(h.ino as int).len() == size);
            assert(offset_big ==> bytes@.len() == 0);
            assert(!offset_big ==> h.offset + bytes@.len() <= usize::MAX);
            assert(bytes@.len() <= total);
            crate::iovec::lemma_total_len_nonneg(iovs@);
        }
        v.write_all_from_slice(um, bytes.as_slice());
        let n = bytes.len();
        proc.set_file(
            fd,
            FileHandle { ino: h.ino, offset: h.offset + n as u64, options: h.options },
        );
        Ok(SysStep::Ret(n as isize))
    } else if kind == 2 {
        Err(SysError::EISDIR)
    } else {
        Err(SysError::ENOSYS)
    }
}

/// Writes a gather list through a descriptor: every segment is
/// validated readable up front, all segments are copied into one
/// contiguous buffer in order, and that whole buffer is written at
/// once.
pub fn sys_writev(proc: &mut Process, um: &UserMem, fd: usize, iovs: &Vec<crate::iovec::IoVec>)
    -> (r: Result<SysStep, SysError>)
    requires
        old(proc).wf(),
        um.wf(),
    ensures
        final(proc).wf(),
        !crate::iovec::segments_valid(*um, iovs@, false) ==> r == Result::<SysStep, SysError>::Err(
            SysError::EINVAL,
        ) && *final(proc) == *old(proc),
        crate::iovec::segments_valid(*um, iovs@, false) && crate::iovec::total_len(iovs@)
            > usize::MAX ==> r == Result::<SysStep, SysError>::Err(SysError::EINVAL) && *final(proc) == *old(proc),
        crate::iovec::segments_valid(*um, iovs@, false) && crate::iovec::total_len(iovs@)
            <= usize::MAX ==> write_file_post(
            *old(proc),
            *final(proc),
            fd as int,
            crate::iovec::gather(um.mem@, iovs@),
            r,
        ),
{
    let v = match crate::iovec::IoVecs::check_and_new(iovs, um, false) {
        Ok(v) => v,
        Err(e) => {
            return Err(e);
        },
    };
    let buf = match v.read_all_to_vec(um) {
        Ok(b) => b,
        Err(e) => {
            return Err(e);
        },
    };
    let h = match proc.get_file(fd) {
        Ok(h) => h,
        Err(e) => {
            return Err(e);
        },
    };
    if !h.options.write {
        return Err(SysError::EINVAL);
    }
    let kind: u8 = match &proc.fs.nodes[h.ino].kind {
        crate::fs::NodeKind::ConsoleOut(_) => 0,
        crate::fs::NodeKind::File(_) => 1,
        crate::fs::NodeKind::Dir(_) => 2,
        crate::fs::NodeKind::ConsoleIn(_) => 3,
    };
    if kind == 0 {
        match proc.fs.console_write(h.ino, buf.as_slice()) {
            Ok(n) => Ok(SysStep::Ret(n as isize)),
            Err(_) => Err(SysError::ENOSYS),
        }
    } else if kind == 1 {
        let start: u64 = if h.options.append {
            let size = match &proc.fs.nodes[h.ino].kind {
                crate::fs::NodeKind::File(d) => d.len(),
                _ => 0,
            };
            size as u64
        } else {
            h.offset
        };
        if start > usize::MAX as u64 || usize::MAX as u64 - start < buf.len() as u64 {
            return Err(SysError::ENOMEM);
        }
        match proc.fs.file_write_at(h.ino, start as usize, buf.as_slice()) {
            Ok(n) => {
                proc.set_file(
                    fd,
                    FileHandle { ino: h.ino, offset: start + n as u64, options: h.options },
                );
                Ok(SysStep::Ret(n as isize))
            },
            Err(_) => Err(SysError::EIO),
        }
    } else if kind == 2 {
        Err(SysError::EISDIR)
    } else {
        Err(SysError::ENOSYS)
    }
}

/// One entry of a poll request: the descriptor, the events of
/// interest, and the result mask the call carries back.
#[derive(Clone, Copy, Debug, PartialEq, Eq, Structural)]
pub struct PollFd {
    pub fd: u32,
    pub events: u16,
    pub revents: u16,
}

/// What one poll pass reports: one entry became ready (the standard
/// call reports all ready entries at once; returning on the first is
/// this layer's documented deviation), or nothing is ready and the
/// caller blocks on the combined wake signal before re-scanning.
#[derive(Clone, Copy, Debug, PartialEq, Eq, Structural)]
pub enum PollOutcome {
    Ready(isize),
    Wait,
}

/// The result mask one poll entry computes from the current state:
/// console descriptors are read-ready iff input is pending; socket
/// descriptors derive hangup/read/write readiness from the socket's
/// observed state; zero means not ready.
pub open spec fn scan_revents(p: Process, pf: PollFd) -> u16 {
    match p.fd_get(pf.fd as int) {
        Some(FileLike::File(h)) => {
            if p.fs.is_console_in(h.ino as int) && p.fs.console_pending(h.ino as int).len() > 0
                && pf.events & crate::flags::POLL_IN != 0 {
                crate::flags::POLL_IN
            } else {
                0
            }
        },
        Some(FileLike::Socket(s)) => {
            if !s.state.is_open {
                crate::flags::POLL_HUP
            } else if s.state.can_recv && pf.events & crate::flags::POLL_IN != 0 {
                crate::flags::POLL_IN
            } else if s.state.can_send && pf.events & crate::flags::POLL_OUT != 0 {
                crate::flags::POLL_OUT
            } else {
                0
            }
        },
        None => crate::flags::POLL_ERR,
    }
}

/// One pass of the blocking multiplexer: fail invalid-argument if any
/// referenced descriptor is absent; otherwise report the first entry
/// whose interest intersects its readiness, writing its result mask in
/// place, or `Wait` when nothing is ready. The timeout of the
/// surrounding call is accepted but never enforced, so the caller's
/// blocking loop owns all timing.
pub fn sys_poll(proc: &Process, polls: &mut Vec<PollFd>, timeout_msecs: usize) -> (r: Result<
    PollOutcome,
    SysError,
>)
    requires
        proc.wf(),
    ensures
        (exists|j: int|
            0 <= j < old(polls)@.len() && proc.fd_get((#[trigger] old(polls)@[j]).fd as int)
                is None) ==> r == Result::<PollOutcome, SysError>::Err(SysError::EINVAL) && final(polls)@ == old(polls)@,
        (forall|j: int|
            0 <= j < old(polls)@.len() ==> proc.fd_get((#[trigger] old(polls)@[j]).fd as int)
                is Some) ==> {
            &&& ((forall|j: int|
                0 <= j < old(polls)@.len() ==> scan_revents(*proc, #[trigger] old(polls)@[j])
                    == 0) ==> r == Result::<PollOutcome, SysError>::Ok(PollOutcome::Wait) && final(polls)@ == old(polls)@)
            &&& ((exists|j: int|
                0 <= j < old(polls)@.len() && scan_revents(*proc, #[trigger] old(polls)@[j]) != 0)
                ==> (exists|i: int|
                {
                    &&& 0 <= i < old(polls)@.len()
                    &&& #[trigger] scan_revents(*proc, old(polls)@[i]) != 0
                    &&& (forall|j: int| 0 <= j < i ==> scan_revents(*proc, #[trigger] old(polls)@[j]) == 0)
                    &&& r == Result::<PollOutcome, SysError>::Ok(PollOutcome::Ready(0))
                    &&& final(polls)@ == old(polls)@.update(
                        i,
                        PollFd {
                            fd: old(polls)@[i].fd,
                            events: old(polls)@[i].events,
                            revents: scan_revents(*proc, old(polls)@[i]),
                        },
                    )
                }))
        },
{
    // the timeout is accepted but never enforced: no deadline tracking
    // exists here, so the caller's blocking loop owns all timing
    let _ = timeout_msecs;
    let n = polls.len();
    let mut j: usize = 0;
    while j < n
        invariant
            proc.wf(),
            n == polls@.len(),
            j <= n,
            polls@ == old(polls)@,
            forall|i: int| 0 <= i < j ==> proc.fd_get((#[trigger] polls@[i]).fd as int) is Some,
        decreases n - j,
    {
        let fdn = polls[j].fd as usize;
        let present = if fdn < proc.files.len() {
            proc.files[fdn].is_some()
        } else {
            false
        };
        if !present {
            return Err(SysError::EINVAL);
        }
        j = j + 1;
    }
    let mut i: usize = 0;
    while i < n
        invariant
            proc.wf(),
            n == polls@.len(),
            i <= n,
            polls@ == old(polls)@,
            forall|j2: int| 0 <= j2 < n ==> proc.fd_get((#[trigger] polls@[j2]).fd as int) is Some,
            forall|j2: int| 0 <= j2 < i ==> scan_revents(*proc, #[trigger] polls@[j2]) == 0,
        decreases n - i,
    {
        let pf = polls[i];
        let fdn = pf.fd as usize;
        let mut revents: u16 = 0;
        if fdn < proc.files.len() {
            match &proc.files[fdn] {
                Some(FileLike::File(h)) => {
                    let ready = proc.fs.console_can_read(h.ino);
                    if ready && pf.events & crate::flags::POLL_IN != 0 {
                        revents = crate::flags::POLL_IN;
                    }
                },
                Some(FileLike::Socket(s)) => {
                    if !s.state.is_open {
                        revents = crate::flags::POLL_HUP;
                    } else if s.state.can_recv && pf.events & crate::flags::POLL_IN != 0 {
                        revents = crate::flags::POLL_IN;
                    } else if s.state.can_send && pf.events & crate::flags::POLL_OUT != 0 {
                        revents = crate::flags::POLL_OUT;
                    }
                },
                None => {
                    revents = crate::flags::POLL_ERR;
                },
            }
        } else {
            revents = crate::flags::POLL_ERR;
        }
        proof {
            assert(revents == scan_revents(*proc, polls@[i as int]));
        }
        if revents != 0 {
            polls.set(i, PollFd { fd: pf.fd, events: pf.events, revents });
            return Ok(PollOutcome::Ready(0));
        }
        i = i + 1;
    }
    Ok(PollOutcome::Wait)
}

/// The multiplexer law for console input: once a character has been
/// pushed from another thread, the very next scan of a request whose
/// entry is interested in reading that console descriptor reports
/// read-readiness for it — so a blocked poll returns within one wake
/// cycle of the push.
pub proof fn lemma_poll_reports_input(p: Process, pf: PollFd)
    requires
        p.fd_get(pf.fd as int) matches Some(FileLike::File(h)) && p.fs.is_console_in(h.ino as int)
            && p.fs.console_pending(h.ino as int).len() > 0,
        pf.events & crate::flags::POLL_IN != 0,
    ensures
        scan_revents(p, pf) == crate::flags::POLL_IN,
{
}

/// The concatenated records of directory `d`'s entries `[from, to)`,
/// each carrying the inode placeholder 0 and type tag 0, as the
/// directory stream encodes them.
pub open spec fn dirents_bytes(fs: FsTree, d: int, from: int, to: int) -> Seq<u8>
    decreases to - from,
{
    if from >= to {
        Seq::empty()
    } else {
        crate::abi::dirent_bytes(
            0,
            0,
            fs.entries(d)[from].name@,
            crate::abi::dirent_len(fs.entries(d)[from].name@.len() as int),
        ) + dirents_bytes(fs, d, from + 1, to)
    }
}

/// Extending the stream by one entry appends that entry's record.
pub proof fn lemma_dirents_snoc(fs: FsTree, d: int, from: int, to: int)
    requires
        from <= to,
    ensures
        dirents_bytes(fs, d, from, to + 1) == dirents_bytes(fs, d, from, to)
            + crate::abi::dirent_bytes(
            0,
            0,
            fs.entries(d)[to].name@,
            crate::abi::dirent_len(fs.entries(d)[to].name@.len() as int),
        ),
    decreases to - from,
{
    if from < to {
        lemma_dirents_snoc(fs, d, from + 1, to);
        assert(dirents_bytes(fs, d, from, to + 1) =~= dirents_bytes(fs, d, from, to)
            + crate::abi::dirent_bytes(
            0,
            0,
            fs.entries(d)[to].name@,
            crate::abi::dirent_len(fs.entries(d)[to].name@.len() as int),
        ));
    } else {
        assert(dirents_bytes(fs, d, from, from) =~= Seq::<u8>::empty());
        assert(dirents_bytes(fs, d, from + 1, from + 1) =~= Seq::<u8>::empty());
        assert(dirents_bytes(fs, d, from, from + 1) =~= Seq::<u8>::empty()
            + crate::abi::dirent_bytes(
            0,
            0,
            fs.entries(d)[from].name@,
            crate::abi::dirent_len(fs.entries(d)[from].name@.len() as int),
        ));
    }
}

/// Entry `k` of directory `d` still fits a buffer with `rest` bytes
/// free: its aligned record is representable and no larger than the
/// space that is left.
pub open spec fn record_fits(fs: FsTree, d: int, k: int, rest: int) -> bool {
    &&& fs.entries(d)[k].name@.len() + 27 <= usize::MAX
    &&& crate::abi::dirent_len(fs.entries(d)[k].name@.len() as int) <= 65535
    &&& crate::abi::dirent_len(fs.entries(d)[k].name@.len() as int) <= rest
}

/// Iterates directory entries by increasing index from wherever the
/// handle's cursor left off, encoding each into the caller's buffer
/// until "entry not found" or until the next record would not fit;
/// reports the bytes written. Fails "not a directory" on anything
/// else.
#[verifier::spinoff_prover]
#[verifier::rlimit(100)]
pub fn sys_getdents64(proc: &mut Process, um: &mut UserMem, fd: usize, buf_base: usize,
    buf_size: usize) -> (r: Result<isize, SysError>)
    requires
        old(proc).wf(),
        old(um).wf(),
    ensures
        final(proc).wf(),
        final(um).wf(),
        !(buf_base + buf_size <= usize::MAX && old(um).range_writable(
            buf_base as int,
            buf_size as int,
        )) ==> r == Result::<isize, SysError>::Err(SysError::EINVAL) && *final(proc) == *old(proc)
            && *final(um) == *old(um),
        r is Err ==> *final(proc) == *old(proc) && *final(um) == *old(um),
        buf_base + buf_size <= usize::MAX && old(um).range_writable(buf_base as int, buf_size as int)
            && buf_size <= isize::MAX ==> {
            &&& (!(old(proc).fd_get(fd as int) matches Some(FileLike::File(_))) ==> r == Result::<
                isize,
                SysError,
            >::Err(SysError::EBADF))
            &&& (old(proc).fd_get(fd as int) matches Some(FileLike::File(h)) ==> {
                let ino = h.ino as int;
                &&& (!(old(proc).fs.is_file(ino) || old(proc).fs.is_dir(ino)) ==> r == Result::<
                    isize,
                    SysError,
                >::Err(SysError::ENOSYS))
                &&& (old(proc).fs.is_file(ino) ==> r == Result::<isize, SysError>::Err(
                    SysError::ENOTDIR,
                ))
                &&& (old(proc).fs.is_dir(ino) ==> (r matches Ok(n) && {
                    &&& 0 <= n <= buf_size
                    &&& final(proc).fs == old(proc).fs
                    &&& final(proc).cwd == old(proc).cwd
                    &&& final(um).regions@ == old(um).regions@
                    &&& final(um).mem@.len() == old(um).mem@.len()
                    &&& (forall|x: int|
                        0 <= x < final(um).mem@.len() && !(buf_base <= x < buf_base + n)
                            ==> final(um).mem@[x] == old(um).mem@[x])
                    &&& (final(proc).fd_get(fd as int) matches Some(FileLike::File(h2))
                        && h2.ino == h.ino && h2.options == h.options && h2.offset >= h.offset
                        && (exists|w: int|
                        {
                            &&& h.offset <= w <= h2.offset
                            &&& (h2.offset == w || h2.offset == w + 1)
                            &&& bytes_at(final(um).mem@, buf_base as int, n as int)
                                == #[trigger] dirents_bytes(old(proc).fs, ino, h.offset as int, w)
                            &&& (h2.offset == w + 1 ==> !record_fits(
                                old(proc).fs,
                                ino,
                                w,
                                buf_size - n,
                            ))
                            &&& (h2.offset == w ==> w >= old(proc).fs.entries(ino).len())
                        }))
                    &&& (h.offset >= old(proc).fs.entries(ino).len() ==> n == 0 && final(proc).files@ == old(proc).files@)
                    &&& (h.offset < old(proc).fs.entries(ino).len() && !record_fits(
                        old(proc).fs,
                        ino,
                        h.offset as int,
                        buf_size as int,
                    ) ==> n == 0)
                    &&& (h.offset < old(proc).fs.entries(ino).len() && record_fits(
                        old(proc).fs,
                        ino,
                        h.offset as int,
                        buf_size as int,
                    ) ==> n > 0)
                }))
            })
        },
{
    if um.check_mut_array(buf_base, buf_size).is_err() {
        return Err(SysError::EINVAL);
    }
    if buf_size > isize::MAX as usize {
        return Err(SysError::EINVAL);
    }
    let h = match proc.get_file(fd) {
        Ok(h) => h,
        Err(e) => {
            return Err(e);
        },
    };
    let kind: u8 = match &proc.fs.nodes[h.ino].kind {
        crate::fs::NodeKind::Dir(_) => 0,
        crate::fs::NodeKind::File(_) => 1,
        _ => 2,
    };
    if kind == 1 {
        return Err(SysError::ENOTDIR);
    }
    if kind == 2 {
        return Err(SysError::ENOSYS);
    }
    let count = match &proc.fs.nodes[h.ino].kind {
        crate::fs::NodeKind::Dir(es) => es.len(),
        _ => 0,
    };
    let mut writer = DirentBufWriter::new(buf_size);
    let mut id: u64 = h.offset;
    let mut full = false;
    proof {
        assert(dirents_bytes(proc.fs, h.ino as int, h.offset as int, h.offset as int)
            =~= Seq::<u8>::empty());
    }
    while id < count as u64 && !full
        invariant
            proc.wf(),
            *proc == *old(proc),
            0 <= h.ino < proc.fs.len(),
            proc.fs.is_dir(h.ino as int),
            count == proc.fs.entries(h.ino as int).len(),
            id >= h.offset,
            id <= count as u64 || id == h.offset,
            writer.written_size + writer.rest_size == buf_size,
            writer.buf@.len() == writer.written_size,
            id == h.offset ==> writer.written_size == 0,
            h.offset >= count as u64 ==> id == h.offset,
            !full ==> writer.buf@ == dirents_bytes(
                proc.fs,
                h.ino as int,
                h.offset as int,
                id as int,
            ),
            full ==> id >= h.offset + 1 && writer.buf@ == dirents_bytes(
                proc.fs,
                h.ino as int,
                h.offset as int,
                id as int - 1,
            ) && !record_fits(proc.fs, h.ino as int, id as int - 1, writer.rest_size as int),
            !full && id > h.offset ==> writer.written_size > 0,
            h.offset < count as u64 && !record_fits(
                proc.fs,
                h.ino as int,
                h.offset as int,
                buf_size as int,
            ) ==> (id == h.offset || (full && id == h.offset + 1 && writer.written_size == 0)),
        decreases count as u64 - id, 
    {
        let name = match proc.fs.get_entry(h.ino, id as usize) {
            Ok(name) => name,
            Err(_) => {
                proof {
                    assert(false);
                }
                Vec::new()
            },
        };
        proof {
            lemma_dirents_snoc(proc.fs, h.ino as int, h.offset as int, id as int);
        }
        id = id + 1;
        let ok = writer.try_write(0, 0, name.as_slice());
        if !ok {
            full = true;
        }
    }
    let ghost consumed_to: int = if full {
        id as int - 1
    } else {
        id as int
    };
    proc.set_file(fd, FileHandle { ino: h.ino, offset: id, options: h.options });
    proof {
        if id == h.offset {
            assert(proc.files@ =~= old(proc).files@);
        }
        um.lemma_writable_transfer(old(um), buf_base as int, buf_size as int,
            writer.buf@.len() as int);
    }
    um.write_bytes(buf_base, writer.buf.as_slice());
    proof {
        assert(bytes_at(um.mem@, buf_base as int, writer.written_size as int) =~= writer.buf@);
        assert(writer.buf@ == dirents_bytes(
            old(proc).fs,
            h.ino as int,
            h.offset as int,
            consumed_to,
        ));
    }
    Ok(writer.written_size as isize)
}

} // verus!

//! The two error taxonomies of the syscall layer: the filesystem-internal
//! error set and the POSIX-like set that syscalls surface, with the
//! deterministic mapping from the former to the latter.

use vstd::prelude::*;

verus! {

/// Errors reported by the filesystem and device layer underneath the
/// syscall surface.
#[derive(Clone, Copy, Debug, PartialEq, Eq, Structural)]
pub enum FsError {
    NotSupported,
    NotFile,
    IsDir,
    NotDir,
    EntryNotFound,
    EntryExist,
    NotSameFs,
    InvalidParam,
    NoDeviceSpace,
    DirRemoved,
    DirNotEmpty,
    WrongFs,
    DeviceError,
}

/// Errors that a syscall returns to user mode.
#[derive(Clone, Copy, Debug, PartialEq, Eq, Structural)]
pub enum SysError {
    ENOSYS,
    EISDIR,
    ENOTDIR,
    ENOENT,
    EEXIST,
    EXDEV,
    EINVAL,
    ENOMEM,
    ENOTEMPTY,
    EIO,
    EBADF,
    ERANGE,
}

/// The mapping a filesystem error surfaces as: one-to-one but for the
/// intentional merges {NotFile, IsDir} -> EISDIR,
/// {EntryNotFound, DirRemoved} -> ENOENT and
/// {InvalidParam, WrongFs} -> EINVAL.
pub open spec fn sys_error_of(e: FsError) -> SysError {
    match e {
        FsError::NotSupported => SysError::ENOSYS,
        FsError::NotFile => SysError::EISDIR,
        FsError::IsDir => SysError::EISDIR,
        FsError::NotDir => SysError::ENOTDIR,
        FsError::EntryNotFound => SysError::ENOENT,
        FsError::EntryExist => SysError::EEXIST,
        FsError::NotSameFs => SysError::EXDEV,
        FsError::InvalidParam => SysError::EINVAL,
        FsError::NoDeviceSpace => SysError::ENOMEM,
        FsError::DirRemoved => SysError::ENOENT,
        FsError::DirNotEmpty => SysError::ENOTEMPTY,
        FsError::WrongFs => SysError::EINVAL,
        FsError::DeviceError => SysError::EIO,
    }
}

impl From<FsError> for SysError {
    fn from(error: FsError) -> (r: SysError) {
        match error {
            FsError::NotSupported => SysError::ENOSYS,
            FsError::NotFile => SysError::EISDIR,
            FsError::IsDir => SysError::EISDIR,
            FsError::NotDir => SysError::ENOTDIR,
            FsError::EntryNotFound => SysError::ENOENT,
            FsError::EntryExist => SysError::EEXIST,
            FsError::NotSameFs => SysError::EXDEV,
            FsError::InvalidParam => SysError::EINVAL,
            FsError::NoDeviceSpace => SysError::ENOMEM,
            FsError::DirRemoved => SysError::ENOENT,
            FsError::DirNotEmpty => SysError::ENOTEMPTY,
            FsError::WrongFs => SysError::EINVAL,
            FsError::DeviceError => SysError::EIO,
        }
    }
}

impl vstd::std_specs::convert::FromSpecImpl<FsError> for SysError {
    open spec fn obeys_from_spec() -> bool {
        true
    }

    open spec fn from_spec(e: FsError) -> SysError {
        sys_error_of(e)
    }
}

impl SysError {
    /// The conventional negative-return errno value of this error.
    pub fn errno(&self) -> (r: i32)
        ensures
            r == self.errno_spec(),
    {
        match self {
            SysError::ENOSYS => 38,
            SysError::EISDIR => 21,
            SysError::ENOTDIR => 20,
            SysError::ENOENT => 2,
            SysError::EEXIST => 17,
            SysError::EXDEV => 18,
            SysError::EINVAL => 22,
            SysError::ENOMEM => 12,
            SysError::ENOTEMPTY => 39,
            SysError::EIO => 5,
            SysError::EBADF => 9,
            SysError::ERANGE => 34,
        }
    }

    /// The errno value, as a specification.
    pub open spec fn errno_spec(&self) -> i32 {
        match self {
            SysError::ENOSYS => 38,
            SysError::EISDIR => 21,
            SysError::ENOTDIR => 20,
            SysError::ENOENT => 2,
            SysError::EEXIST => 17,
            SysError::EXDEV => 18,
            SysError::EINVAL => 22,
            SysError::ENOMEM => 12,
            SysError::ENOTEMPTY => 39,
            SysError::EIO => 5,
            SysError::EBADF => 9,
            SysError::ERANGE => 34,
        }
    }
}

} // verus!

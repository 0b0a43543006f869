use vfs_syscall::error::{FsError, SysError};
use vfs_syscall::flags::{OpenFlags, OPEN_APPEND, OPEN_CREATE, OPEN_RDWR};
use vfs_syscall::path::split_path;
use vfs_syscall::process::Process;
use vfs_syscall::syscall::{
    sys_chdir, sys_fdatasync, sys_fstat, sys_fsync, sys_ftruncate, sys_getcwd, sys_mkdir,
    sys_open, sys_stat, sys_truncate, sys_write, SysStep,
};
use vfs_syscall::usermem::{MemRegion, UserMem};

fn setup() -> (Process, UserMem) {
    let proc = Process::new();
    let um = UserMem {
        mem: vec![0u8; 4096],
        regions: vec![MemRegion { base: 0, len: 4096, writable: true }],
    };
    (proc, um)
}

fn put_cstr(um: &mut UserMem, base: usize, s: &str) {
    for (i, b) in s.bytes().enumerate() {
        um.mem[base + i] = b;
    }
    um.mem[base + s.len()] = 0;
}

#[test]
fn stat_abi_regular_file_of_size_42() {
    let (mut proc, mut um) = setup();
    put_cstr(&mut um, 100, "/f");
    let fd = sys_open(&mut proc, &mut um, 100, OPEN_CREATE | OPEN_RDWR, 0o644).unwrap() as usize;
    // a regular file of size 42, 1 link, uid 0, gid 0
    for i in 0..42usize {
        um.mem[200 + i] = i as u8;
    }
    assert_eq!(sys_write(&mut proc, &um, fd, 200, 42), Ok(SysStep::Ret(42)));
    let r = sys_fstat(&proc, &mut um, fd, 1000);
    assert_eq!(r, Ok(0));
    let rec = &um.mem[1000..1120];
    // mode at byte 24: the regular-file type tag is set
    let mode = u32::from_le_bytes([rec[24], rec[25], rec[26], rec[27]]);
    assert_eq!(mode & 0o170000, 0o100000);
    assert_eq!(mode & 0o777, 0o644);
    // size field at byte 48 is exactly 42
    let size = u64::from_le_bytes([
        rec[48], rec[49], rec[50], rec[51], rec[52], rec[53], rec[54], rec[55],
    ]);
    assert_eq!(size, 42);
    // 1 hard link at byte 16, uid 0 at 28, gid 0 at 32
    let nlink = u64::from_le_bytes([
        rec[16], rec[17], rec[18], rec[19], rec[20], rec[21], rec[22], rec[23],
    ]);
    assert_eq!(nlink, 1);
    assert_eq!(u32::from_le_bytes([rec[28], rec[29], rec[30], rec[31]]), 0);
    assert_eq!(u32::from_le_bytes([rec[32], rec[33], rec[34], rec[35]]), 0);
}

#[test]
fn stat_by_path_matches_fstat() {
    let (mut proc, mut um) = setup();
    put_cstr(&mut um, 100, "/g");
    let fd = sys_open(&mut proc, &mut um, 100, OPEN_CREATE | OPEN_RDWR, 0o600).unwrap() as usize;
    put_cstr(&mut um, 200, "abc");
    sys_write(&mut proc, &um, fd, 200, 3).unwrap();
    assert_eq!(sys_fstat(&proc, &mut um, fd, 1000), Ok(0));
    put_cstr(&mut um, 100, "/g");
    assert_eq!(sys_stat(&proc, &mut um, 100, 1200), Ok(0));
    assert_eq!(um.mem[1000..1120], um.mem[1200..1320]);
}

#[test]
fn fstat_on_console_is_not_supported() {
    let (proc, mut um) = setup();
    assert_eq!(sys_fstat(&proc, &mut um, 0, 1000), Err(SysError::ENOSYS));
}

#[test]
fn ftruncate_shrinks_and_zero_extends() {
    let (mut proc, mut um) = setup();
    put_cstr(&mut um, 100, "/t");
    let fd = sys_open(&mut proc, &mut um, 100, OPEN_CREATE | OPEN_RDWR, 0o644).unwrap() as usize;
    put_cstr(&mut um, 200, "abcdef");
    sys_write(&mut proc, &um, fd, 200, 6).unwrap();
    assert_eq!(sys_ftruncate(&mut proc, fd, 2), Ok(0));
    assert_eq!(proc.fs.nodes.len(), 4);
    assert_eq!(sys_ftruncate(&mut proc, fd, 4), Ok(0));
    // contents are now "ab\0\0"
    assert_eq!(
        sys_fstat(&proc, &mut um, fd, 1000),
        Ok(0)
    );
    let size = u64::from_le_bytes([
        um.mem[1048], um.mem[1049], um.mem[1050], um.mem[1051],
        um.mem[1052], um.mem[1053], um.mem[1054], um.mem[1055],
    ]);
    assert_eq!(size, 4);
}

#[test]
fn append_mode_writes_at_the_end() {
    let (mut proc, mut um) = setup();
    put_cstr(&mut um, 100, "/log");
    let fd =
        sys_open(&mut proc, &mut um, 100, OPEN_CREATE | OPEN_RDWR | OPEN_APPEND, 0o644).unwrap()
            as usize;
    put_cstr(&mut um, 200, "one");
    sys_write(&mut proc, &um, fd, 200, 3).unwrap();
    put_cstr(&mut um, 200, "two");
    sys_write(&mut proc, &um, fd, 200, 3).unwrap();
    assert_eq!(sys_fstat(&proc, &mut um, fd, 1000), Ok(0));
    let size = u64::from_le_bytes([
        um.mem[1048], um.mem[1049], um.mem[1050], um.mem[1051],
        um.mem[1052], um.mem[1053], um.mem[1054], um.mem[1055],
    ]);
    assert_eq!(size, 6);
}

#[test]
fn split_path_cases() {
    let (d, f) = split_path(b"/usr/bin/");
    assert_eq!(d, b"/usr".to_vec());
    assert_eq!(f, b"bin".to_vec());
    let (d, f) = split_path(b"plain");
    assert_eq!(d, b".".to_vec());
    assert_eq!(f, b"plain".to_vec());
    let (d, f) = split_path(b"/top");
    assert_eq!(d, b"".to_vec());
    assert_eq!(f, b"top".to_vec());
    let (d, f) = split_path(b"a/b");
    assert_eq!(d, b"a".to_vec());
    assert_eq!(f, b"b".to_vec());
}

#[test]
fn open_flags_access_modes() {
    let rdonly = OpenFlags::from_bits_truncate(0);
    assert!(rdonly.readable() && !rdonly.writable());
    let wronly = OpenFlags::from_bits_truncate(1);
    assert!(!wronly.readable() && wronly.writable());
    let rdwr = OpenFlags::from_bits_truncate(2);
    assert!(rdwr.readable() && rdwr.writable());
    let opts = OpenFlags::from_bits_truncate(OPEN_RDWR | OPEN_APPEND).to_options();
    assert!(opts.read && opts.write && opts.append);
}

#[test]
fn error_mapping_and_codes() {
    assert_eq!(SysError::from(FsError::NotSupported), SysError::ENOSYS);
    assert_eq!(SysError::from(FsError::NotFile), SysError::EISDIR);
    assert_eq!(SysError::from(FsError::IsDir), SysError::EISDIR);
    assert_eq!(SysError::from(FsError::NotDir), SysError::ENOTDIR);
    assert_eq!(SysError::from(FsError::EntryNotFound), SysError::ENOENT);
    assert_eq!(SysError::from(FsError::EntryExist), SysError::EEXIST);
    assert_eq!(SysError::from(FsError::NotSameFs), SysError::EXDEV);
    assert_eq!(SysError::from(FsError::InvalidParam), SysError::EINVAL);
    assert_eq!(SysError::from(FsError::NoDeviceSpace), SysError::ENOMEM);
    assert_eq!(SysError::from(FsError::DirRemoved), SysError::ENOENT);
    assert_eq!(SysError::from(FsError::DirNotEmpty), SysError::ENOTEMPTY);
    assert_eq!(SysError::from(FsError::WrongFs), SysError::EINVAL);
    assert_eq!(SysError::from(FsError::DeviceError), SysError::EIO);
    assert_eq!(SysError::EINVAL.errno(), 22);
    assert_eq!(SysError::ENOENT.errno(), 2);
    assert_eq!(SysError::EBADF.errno(), 9);
}

#[test]
fn console_io_control_placeholders() {
    let (proc, mut um) = setup();
    // terminal probes are answered with fixed placeholders
    assert_eq!(proc.fs.io_control(1, 0x5401, 0, &mut um), Ok(0)); // get attributes
    assert_eq!(proc.fs.io_control(2, 0x5413, 0, &mut um), Ok(0)); // get window size
    assert_eq!(proc.fs.io_control(1, 0x5410, 0, &mut um), Ok(0)); // set foreground group
    // the get-foreground-group probe writes the placeholder group 0
    // through a validated pointer
    um.mem[600..604].copy_from_slice(&[7, 7, 7, 7]);
    assert_eq!(proc.fs.io_control(1, 0x540F, 600, &mut um), Ok(0));
    assert_eq!(&um.mem[600..604], &[0, 0, 0, 0]);
    // an unmapped pointer is rejected before any write
    assert_eq!(proc.fs.io_control(1, 0x540F, 5000, &mut um), Err(FsError::InvalidParam));
    assert_eq!(proc.fs.io_control(1, 0x1234, 0, &mut um), Err(FsError::NotSupported));
    // a regular-file node has no device control
    assert_eq!(proc.fs.io_control(0, 0x5401, 0, &mut um), Err(FsError::NotSupported));
}

#[test]
fn truncate_by_path_and_sync() {
    let (mut proc, mut um) = setup();
    put_cstr(&mut um, 100, "/p");
    let fd = sys_open(&mut proc, &mut um, 100, OPEN_CREATE | OPEN_RDWR, 0o644).unwrap() as usize;
    put_cstr(&mut um, 200, "longer text");
    sys_write(&mut proc, &um, fd, 200, 11).unwrap();
    put_cstr(&mut um, 100, "/p");
    assert_eq!(sys_truncate(&mut proc, &um, 100, 6), Ok(0));
    assert_eq!(sys_fstat(&proc, &mut um, fd, 1000), Ok(0));
    let size = u64::from_le_bytes([
        um.mem[1048], um.mem[1049], um.mem[1050], um.mem[1051],
        um.mem[1052], um.mem[1053], um.mem[1054], um.mem[1055],
    ]);
    assert_eq!(size, 6);
    // truncating a directory by path is "is a directory"
    put_cstr(&mut um, 100, "/");
    assert_eq!(sys_truncate(&mut proc, &um, 100, 0), Err(SysError::EISDIR));
    assert_eq!(sys_fsync(&proc, fd), Ok(0));
    assert_eq!(sys_fdatasync(&proc, fd), Ok(0));
    assert_eq!(sys_fsync(&proc, 99), Err(SysError::EBADF));
}

#[test]
fn chdir_and_relative_resolution() {
    let (mut proc, mut um) = setup();
    put_cstr(&mut um, 100, "/sub");
    sys_mkdir(&mut proc, &um, 100, 0o755).unwrap();
    put_cstr(&mut um, 150, "/sub/inner");
    sys_open(&mut proc, &mut um, 150, OPEN_CREATE, 0o644).unwrap();
    put_cstr(&mut um, 100, "/sub");
    assert_eq!(sys_chdir(&mut proc, &um, 100), Ok(0));
    // the working directory was appended to, without canonicalization
    assert_eq!(sys_getcwd(&proc, &mut um, 500, 32), Ok(0));
    assert_eq!(&um.mem[500..505], b"//sub");
    // a relative path now resolves under the new working directory
    put_cstr(&mut um, 100, "inner");
    assert_eq!(sys_open(&mut proc, &mut um, 100, 0, 0).map(|fd| fd >= 0), Ok(true));
    // changing into a regular file is "not a directory"
    put_cstr(&mut um, 100, "inner");
    assert_eq!(sys_chdir(&mut proc, &um, 100), Err(SysError::ENOTDIR));
}

#[test]
fn access_mode_is_enforced() {
    let (mut proc, mut um) = setup();
    put_cstr(&mut um, 100, "/ro");
    let fd = sys_open(&mut proc, &mut um, 100, OPEN_CREATE, 0o644).unwrap() as usize;
    // the handle was opened read-only: writing through it is invalid
    put_cstr(&mut um, 200, "x");
    assert_eq!(sys_write(&mut proc, &um, fd, 200, 1), Err(SysError::EINVAL));
    // console input cannot be written, console output cannot be read
    assert_eq!(sys_fstat(&proc, &mut um, 0, 1000), Err(SysError::ENOSYS));
}

use vfs_syscall::error::SysError;
use vfs_syscall::flags::{OPEN_CREATE, OPEN_EXCLUSIVE, OPEN_RDWR, POLL_IN, SEEK_CUR, SEEK_END, SEEK_SET};
use vfs_syscall::iovec::IoVec;
use vfs_syscall::process::Process;
use vfs_syscall::syscall::{
    sys_close, sys_dup2, sys_getcwd, sys_getdents64, sys_link, sys_lseek, sys_mkdir, sys_open,
    sys_poll, sys_read, sys_readv, sys_rename, sys_unlink, sys_write, sys_writev, PollFd,
    PollOutcome, SysStep,
};
use vfs_syscall::process::{socket_poll, FileLike, SocketHandle, SocketState};
use vfs_syscall::usermem::{MemRegion, UserMem};

fn setup() -> (Process, UserMem) {
    let proc = Process::new();
    let um = UserMem {
        mem: vec![0u8; 4096],
        regions: vec![MemRegion { base: 0, len: 4096, writable: true }],
    };
    (proc, um)
}

fn put_cstr(um: &mut UserMem, base: usize, s: &str) {
    for (i, b) in s.bytes().enumerate() {
        um.mem[base + i] = b;
    }
    um.mem[base + s.len()] = 0;
}

fn open_path(proc: &mut Process, um: &mut UserMem, path: &str, flags: usize) -> Result<isize, SysError> {
    put_cstr(um, 100, path);
    sys_open(proc, um, 100, flags, 0o644)
}

#[test]
fn rejected_pointer_leaves_everything_unchanged() {
    let (mut proc, mut um) = setup();
    let files_before = proc.files.len();
    let mem_before = um.mem.clone();
    // the range [5000, 5008) lies outside every mapped region
    let r = sys_read(&mut proc, &mut um, 0, 5000, 8);
    assert_eq!(r, Err(SysError::EINVAL));
    assert_eq!(proc.files.len(), files_before);
    assert_eq!(um.mem, mem_before);
    let r = sys_write(&mut proc, &um, 1, 5000, 8);
    assert_eq!(r, Err(SysError::EINVAL));
    assert_eq!(proc.files.len(), files_before);
}

#[test]
fn console_fifo_order() {
    let (mut proc, mut um) = setup();
    proc.fs.console_push(1, 'x').unwrap();
    proc.fs.console_push(1, 'y').unwrap();
    proc.fs.console_push(1, 'z').unwrap();
    // three one-byte reads on fd 0 deliver the characters in order
    for expected in [b'x', b'y', b'z'] {
        let r = sys_read(&mut proc, &mut um, 0, 200, 1);
        assert_eq!(r, Ok(SysStep::Ret(1)));
        assert_eq!(um.mem[200], expected);
    }
    // the queue is now empty: the read blocks
    let r = sys_read(&mut proc, &mut um, 0, 200, 1);
    assert_eq!(r, Ok(SysStep::Block));
}

#[test]
fn readv_writev_round_trip() {
    let (mut proc, mut um) = setup();
    let fd = open_path(&mut proc, &mut um, "/data", OPEN_CREATE | OPEN_RDWR).unwrap() as usize;
    // B = 10 bytes, gathered from segments of sizes [3,5,2]
    let payload = *b"0123456789";
    um.mem[300..303].copy_from_slice(&payload[0..3]);
    um.mem[320..325].copy_from_slice(&payload[3..8]);
    um.mem[340..342].copy_from_slice(&payload[8..10]);
    let segs = vec![
        IoVec { base: 300, len: 3 },
        IoVec { base: 320, len: 5 },
        IoVec { base: 340, len: 2 },
    ];
    let r = sys_writev(&mut proc, &um, fd, &segs);
    assert_eq!(r, Ok(SysStep::Ret(10)));
    assert_eq!(sys_lseek(&mut proc, fd, 0, SEEK_SET), Ok(0));
    // read back into identically shaped segments elsewhere
    let out_segs = vec![
        IoVec { base: 400, len: 3 },
        IoVec { base: 420, len: 5 },
        IoVec { base: 440, len: 2 },
    ];
    let r = sys_readv(&mut proc, &mut um, fd, &out_segs);
    assert_eq!(r, Ok(SysStep::Ret(10)));
    let mut got = Vec::new();
    got.extend_from_slice(&um.mem[400..403]);
    got.extend_from_slice(&um.mem[420..425]);
    got.extend_from_slice(&um.mem[440..442]);
    assert_eq!(got, payload.to_vec());
}

#[test]
fn open_exclusive_on_existing_fails_eexist() {
    let (mut proc, mut um) = setup();
    let fd = open_path(&mut proc, &mut um, "/a", OPEN_CREATE | OPEN_RDWR).unwrap() as usize;
    put_cstr(&mut um, 50, "hi");
    assert_eq!(sys_write(&mut proc, &um, fd, 50, 2), Ok(SysStep::Ret(2)));
    let nodes_before = proc.fs.nodes.len();
    let r = open_path(&mut proc, &mut um, "/a", OPEN_CREATE | OPEN_EXCLUSIVE);
    assert_eq!(r, Err(SysError::EEXIST));
    // the existing entry is unmodified: same arena, same contents
    assert_eq!(proc.fs.nodes.len(), nodes_before);
    assert_eq!(sys_lseek(&mut proc, fd, 0, SEEK_SET), Ok(0));
    let r = sys_read(&mut proc, &mut um, fd, 60, 2);
    assert_eq!(r, Ok(SysStep::Ret(2)));
    assert_eq!(&um.mem[60..62], b"hi");
}

#[test]
fn getdents_small_buffer_writes_nothing_then_resumes() {
    let (mut proc, mut um) = setup();
    open_path(&mut proc, &mut um, "/one", OPEN_CREATE).unwrap();
    open_path(&mut proc, &mut um, "/two", OPEN_CREATE).unwrap();
    let dirfd = open_path(&mut proc, &mut um, "/", 0).unwrap() as usize;
    // too small for even one record: zero bytes written
    let r = sys_getdents64(&mut proc, &mut um, dirfd, 1000, 8);
    assert_eq!(r, Ok(0));
    // a larger buffer resumes from wherever the iterator left off
    let r = sys_getdents64(&mut proc, &mut um, dirfd, 1000, 256).unwrap();
    assert!(r > 0);
}

#[test]
fn getdents_record_layout() {
    let (mut proc, mut um) = setup();
    open_path(&mut proc, &mut um, "/f", OPEN_CREATE).unwrap();
    let dirfd = open_path(&mut proc, &mut um, "/", 0).unwrap() as usize;
    let n = sys_getdents64(&mut proc, &mut um, dirfd, 2000, 256).unwrap() as usize;
    // one entry named "f": 19-byte header + "f\0" rounded up to 24
    assert_eq!(n, 24);
    let rec = &um.mem[2000..2024];
    assert_eq!(&rec[0..8], &[0; 8]); // inode placeholder
    assert_eq!(&rec[8..16], &[0; 8]); // offset to next
    assert_eq!(u16::from_le_bytes([rec[16], rec[17]]), 24); // record length
    assert_eq!(rec[18], 0); // type tag
    assert_eq!(rec[19], b'f');
    assert_eq!(rec[20], 0); // null terminator
}

#[test]
fn rename_within_and_across_directories() {
    let (mut proc, mut um) = setup();
    let fd = open_path(&mut proc, &mut um, "/x", OPEN_CREATE | 1).unwrap() as usize;
    put_cstr(&mut um, 50, "data");
    sys_write(&mut proc, &um, fd, 50, 4).unwrap();
    sys_close(&mut proc, fd).unwrap();
    put_cstr(&mut um, 70, "/d");
    sys_mkdir(&mut proc, &um, 70, 0o755).unwrap();
    // same directory: the entry keeps its contents under the new name
    put_cstr(&mut um, 100, "/x");
    put_cstr(&mut um, 120, "/y");
    assert_eq!(sys_rename(&mut proc, &um, 100, 120), Ok(0));
    assert_eq!(open_path(&mut proc, &mut um, "/x", 0), Err(SysError::ENOENT));
    let fd = open_path(&mut proc, &mut um, "/y", 0).unwrap() as usize;
    let r = sys_read(&mut proc, &mut um, fd, 60, 4);
    assert_eq!(r, Ok(SysStep::Ret(4)));
    assert_eq!(&um.mem[60..64], b"data");
    sys_close(&mut proc, fd).unwrap();
    // across directories: the old name disappears, the new name refers
    // to the original entry's data
    put_cstr(&mut um, 100, "/y");
    put_cstr(&mut um, 120, "/d/z");
    assert_eq!(sys_rename(&mut proc, &um, 100, 120), Ok(0));
    assert_eq!(open_path(&mut proc, &mut um, "/y", 0), Err(SysError::ENOENT));
    let fd = open_path(&mut proc, &mut um, "/d/z", 0).unwrap() as usize;
    let r = sys_read(&mut proc, &mut um, fd, 80, 4);
    assert_eq!(r, Ok(SysStep::Ret(4)));
    assert_eq!(&um.mem[80..84], b"data");
}

#[test]
fn poll_reports_input_after_push() {
    let (mut proc, _um) = setup();
    let mut polls = vec![PollFd { fd: 0, events: POLL_IN, revents: 0 }];
    // nothing pending: the multiplexer decides to wait
    assert_eq!(sys_poll(&proc, &mut polls, 0), Ok(PollOutcome::Wait));
    // data arrives from another thread; the next scan reports IN
    proc.fs.console_push(1, 'k').unwrap();
    assert_eq!(sys_poll(&proc, &mut polls, 0), Ok(PollOutcome::Ready(0)));
    assert_eq!(polls[0].revents, POLL_IN);
}

#[test]
fn poll_absent_descriptor_fails_einval() {
    let (proc, _um) = setup();
    let mut polls = vec![PollFd { fd: 9, events: POLL_IN, revents: 0 }];
    assert_eq!(sys_poll(&proc, &mut polls, 0), Err(SysError::EINVAL));
    assert_eq!(polls[0].revents, 0);
}

#[test]
fn dup2_on_occupied_descriptor_fails_and_leaves_it() {
    let (mut proc, mut um) = setup();
    // fd 1 is already open: dup2 fails EINVAL and fd 1 still works
    assert_eq!(sys_dup2(&mut proc, 0, 1), Err(SysError::EINVAL));
    put_cstr(&mut um, 50, "ok");
    assert_eq!(sys_write(&mut proc, &um, 1, 50, 2), Ok(SysStep::Ret(2)));
    // a free descriptor works, and the clone reads the same console
    assert_eq!(sys_dup2(&mut proc, 0, 7), Ok(0));
    proc.fs.console_push(1, 'q').unwrap();
    let r = sys_read(&mut proc, &mut um, 7, 90, 1);
    assert_eq!(r, Ok(SysStep::Ret(1)));
    assert_eq!(um.mem[90], b'q');
}

#[test]
fn lseek_origins_and_bad_whence() {
    let (mut proc, mut um) = setup();
    let fd = open_path(&mut proc, &mut um, "/s", OPEN_CREATE | OPEN_RDWR).unwrap() as usize;
    put_cstr(&mut um, 50, "abcdef");
    sys_write(&mut proc, &um, fd, 50, 6).unwrap();
    assert_eq!(sys_lseek(&mut proc, fd, 2, SEEK_SET), Ok(2));
    assert_eq!(sys_lseek(&mut proc, fd, 1, SEEK_CUR), Ok(3));
    assert_eq!(sys_lseek(&mut proc, fd, -2, SEEK_END), Ok(4));
    assert_eq!(sys_lseek(&mut proc, fd, 0, 3), Err(SysError::EINVAL));
    assert_eq!(sys_lseek(&mut proc, fd, -7, SEEK_END), Err(SysError::EINVAL));
}

#[test]
fn getcwd_and_erange() {
    let (proc, mut um) = setup();
    assert_eq!(sys_getcwd(&proc, &mut um, 500, 16), Ok(0));
    assert_eq!(um.mem[500], b'/');
    assert_eq!(um.mem[501], 0);
    assert_eq!(sys_getcwd(&proc, &mut um, 500, 1), Err(SysError::ERANGE));
}

#[test]
fn unlink_and_not_empty_directory() {
    let (mut proc, mut um) = setup();
    put_cstr(&mut um, 70, "/dir");
    sys_mkdir(&mut proc, &um, 70, 0o755).unwrap();
    open_path(&mut proc, &mut um, "/dir/inner", OPEN_CREATE).unwrap();
    put_cstr(&mut um, 100, "/dir");
    assert_eq!(sys_unlink(&mut proc, &um, 100), Err(SysError::ENOTEMPTY));
    put_cstr(&mut um, 100, "/dir/inner");
    assert_eq!(sys_unlink(&mut proc, &um, 100), Ok(0));
    put_cstr(&mut um, 100, "/dir");
    assert_eq!(sys_unlink(&mut proc, &um, 100), Ok(0));
    assert_eq!(open_path(&mut proc, &mut um, "/dir", 0), Err(SysError::ENOENT));
}

#[test]
fn link_shares_the_inode() {
    let (mut proc, mut um) = setup();
    let fd = open_path(&mut proc, &mut um, "/orig", OPEN_CREATE | 1).unwrap() as usize;
    put_cstr(&mut um, 50, "same");
    sys_write(&mut proc, &um, fd, 50, 4).unwrap();
    sys_close(&mut proc, fd).unwrap();
    put_cstr(&mut um, 100, "/orig");
    put_cstr(&mut um, 120, "/alias");
    assert_eq!(sys_link(&mut proc, &um, 100, 120), Ok(0));
    let fd = open_path(&mut proc, &mut um, "/alias", 0).unwrap() as usize;
    let r = sys_read(&mut proc, &mut um, fd, 60, 4);
    assert_eq!(r, Ok(SysStep::Ret(4)));
    assert_eq!(&um.mem[60..64], b"same");
}

#[test]
fn descriptor_errors() {
    let (mut proc, mut um) = setup();
    // missing descriptor
    assert_eq!(sys_read(&mut proc, &mut um, 9, 200, 1), Err(SysError::EINVAL));
    assert_eq!(sys_close(&mut proc, 9), Err(SysError::EINVAL));
    // reading a directory through a descriptor
    let dirfd = open_path(&mut proc, &mut um, "/", 0).unwrap() as usize;
    assert_eq!(sys_read(&mut proc, &mut um, dirfd, 200, 1), Err(SysError::EISDIR));
    // getdents on a regular file
    let fd = open_path(&mut proc, &mut um, "/r", OPEN_CREATE).unwrap() as usize;
    assert_eq!(sys_getdents64(&mut proc, &mut um, fd, 1000, 64), Err(SysError::ENOTDIR));
    // a closed descriptor is bad
    sys_close(&mut proc, fd).unwrap();
    assert_eq!(sys_lseek(&mut proc, fd, 0, SEEK_SET), Err(SysError::EBADF));
}

#[test]
fn console_write_collects_output() {
    let (mut proc, mut um) = setup();
    put_cstr(&mut um, 50, "hello");
    assert_eq!(sys_write(&mut proc, &um, 1, 50, 5), Ok(SysStep::Ret(5)));
    let out = proc.fs.console_take_output(2).unwrap();
    assert_eq!(out, b"hello".to_vec());
}

#[test]
fn open_via_console_aliases() {
    let (mut proc, mut um) = setup();
    let infd = open_path(&mut proc, &mut um, "stdin:", 0).unwrap() as usize;
    proc.fs.console_push(1, 'm').unwrap();
    let r = sys_read(&mut proc, &mut um, infd, 90, 1);
    assert_eq!(r, Ok(SysStep::Ret(1)));
    assert_eq!(um.mem[90], b'm');
    let outfd = open_path(&mut proc, &mut um, "stdout:", 1).unwrap() as usize;
    put_cstr(&mut um, 50, "!");
    assert_eq!(sys_write(&mut proc, &um, outfd, 50, 1), Ok(SysStep::Ret(1)));
}

#[test]
fn socket_descriptors_poll_and_dispatch() {
    let (mut proc, mut um) = setup();
    // the network collaborator installs a socket entry and keeps its
    // observed state current
    proc.files.push(Some(FileLike::Socket(SocketHandle {
        handle: 5,
        state: SocketState { is_open: true, can_recv: false, can_send: true },
    })));
    let sockfd = (proc.files.len() - 1) as u32;
    // nothing to read, interest IN only: not ready
    let mut polls = vec![PollFd { fd: sockfd, events: POLL_IN, revents: 0 }];
    assert_eq!(sys_poll(&proc, &mut polls, 0), Ok(PollOutcome::Wait));
    // interest OUT: the send buffer has room
    let mut polls = vec![PollFd { fd: sockfd, events: vfs_syscall::flags::POLL_OUT, revents: 0 }];
    assert_eq!(sys_poll(&proc, &mut polls, 0), Ok(PollOutcome::Ready(0)));
    assert_eq!(polls[0].revents, vfs_syscall::flags::POLL_OUT);
    // data arrives: IN is reported
    proc.files[sockfd as usize] = Some(FileLike::Socket(SocketHandle {
        handle: 5,
        state: SocketState { is_open: true, can_recv: true, can_send: true },
    }));
    let mut polls = vec![PollFd { fd: sockfd, events: POLL_IN, revents: 0 }];
    assert_eq!(sys_poll(&proc, &mut polls, 0), Ok(PollOutcome::Ready(0)));
    assert_eq!(polls[0].revents, POLL_IN);
    // the connection drops: hangup, whatever the interest
    proc.files[sockfd as usize] = Some(FileLike::Socket(SocketHandle {
        handle: 5,
        state: SocketState { is_open: false, can_recv: false, can_send: false },
    }));
    let mut polls = vec![PollFd { fd: sockfd, events: POLL_IN, revents: 0 }];
    assert_eq!(sys_poll(&proc, &mut polls, 0), Ok(PollOutcome::Ready(0)));
    assert_eq!(polls[0].revents, vfs_syscall::flags::POLL_HUP);
    // read and write dispatch hand the socket operation back to the
    // collaborator under its own handle
    assert_eq!(sys_read(&mut proc, &mut um, sockfd as usize, 200, 4), Ok(SysStep::SocketRead(5)));
    assert_eq!(sys_write(&mut proc, &um, sockfd as usize, 200, 4), Ok(SysStep::SocketWrite(5)));
    // closing removes the entry; the collaborator releases the socket
    // closing names the handle so the collaborator can release the socket
    assert_eq!(
        sys_close(&mut proc, sockfd as usize),
        Ok(SysStep::SocketClose(5))
    );
    assert_eq!(sys_close(&mut proc, sockfd as usize), Err(SysError::EINVAL));
}

#[test]
fn socket_readiness_derivation() {
    let st = SocketState { is_open: true, can_recv: true, can_send: false };
    let ps = socket_poll(st);
    assert!(ps.read && !ps.write && !ps.error);
    let closed = socket_poll(SocketState { is_open: false, can_recv: false, can_send: false });
    assert!(closed.error);
}

#[test]
fn readv_on_console_delivers_one_byte() {
    let (mut proc, mut um) = setup();
    proc.fs.console_push(1, 'c').unwrap();
    let segs = vec![IoVec { base: 600, len: 2 }, IoVec { base: 620, len: 2 }];
    let r = sys_readv(&mut proc, &mut um, 0, &segs);
    assert_eq!(r, Ok(SysStep::Ret(1)));
    assert_eq!(um.mem[600], b'c');
    // the queue is empty again: the next scatter read blocks
    let r = sys_readv(&mut proc, &mut um, 0, &segs);
    assert_eq!(r, Ok(SysStep::Block));
}

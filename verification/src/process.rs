//! The per-process state a syscall operates on: the descriptor table
//! mapping small integers to file or socket handles, the working
//! directory, and the filesystem model, together with path resolution.

use vstd::prelude::*;

use crate::console::PollStatus;
use crate::error::{sys_error_of, FsError, SysError};
use crate::flags::OpenOptions;
use crate::fs::{FsTree, NodeKind, ROOT_INO, STDIN_INO, STDOUT_INO};
use crate::path::{DOT, SEP};

verus! {

/// The observable state of a network socket, as the multiplexer and
/// the dispatch layer read it: a snapshot the network collaborator
/// keeps current.
#[derive(Clone, Copy, Debug, PartialEq, Eq, Structural)]
pub struct SocketState {
    /// The connection is open.
    pub is_open: bool,
    /// Received data is waiting.
    pub can_recv: bool,
    /// The send buffer has room.
    pub can_send: bool,
}

/// A descriptor-table entry referring to a socket of the network
/// collaborator.
#[derive(Clone, Copy, Debug, PartialEq, Eq, Structural)]
pub struct SocketHandle {
    /// The collaborator's identifier for the socket.
    pub handle: usize,
    /// The last observed socket state.
    pub state: SocketState,
}

/// A descriptor-table entry referring to an inode: the shared inode
/// reference, an independent byte cursor, and the open mode.
/// Duplication clones the handle; the cursors then evolve
/// independently.
#[derive(Clone, Copy, Debug, PartialEq, Eq, Structural)]
pub struct FileHandle {
    /// The inode this handle refers to.
    pub ino: usize,
    /// The independent byte cursor.
    pub offset: u64,
    /// The resolved open mode.
    pub options: OpenOptions,
}

/// What a descriptor refers to: a filesystem handle or a socket
/// handle.
#[derive(Clone, Copy, Debug, PartialEq, Eq, Structural)]
pub enum FileLike {
    File(FileHandle),
    Socket(SocketHandle),
}

/// One process's syscall-visible state. The descriptor table is
/// exclusively owned by its process and torn down with it.
pub struct Process {
    /// The filesystem model the process works against.
    pub fs: FsTree,
    /// The descriptor table: index is the descriptor number.
    pub files: Vec<Option<FileLike>>,
    /// The current working directory, always starting with the
    /// separator.
    pub cwd: Vec<u8>,
}

impl Process {
    /// The table entry a descriptor refers to (`None` beyond the
    /// table's end).
    pub open spec fn fd_get(&self, fd: int) -> Option<FileLike> {
        if 0 <= fd < self.files@.len() {
            self.files@[fd]
        } else {
            None
        }
    }

    /// A table entry is sound: a file handle points into the arena.
    pub open spec fn entry_ok(&self, e: Option<FileLike>) -> bool {
        match e {
            Some(FileLike::File(h)) => h.ino < self.fs.len(),
            _ => true,
        }
    }

    /// Well-formedness: the filesystem is well formed, the working
    /// directory is rooted, and every open file handle points into the
    /// arena.
    pub open spec fn wf(&self) -> bool {
        &&& self.fs.wf()
        &&& self.fs.len() >= 3
        &&& self.fs.is_console_in(STDIN_INO as int)
        &&& self.fs.is_console_out(STDOUT_INO as int)
        &&& self.cwd@.len() >= 1
        &&& self.cwd@[0] == SEP
        &&& forall|fd: int|
            0 <= fd < self.files@.len() ==> self.entry_ok(#[trigger] self.files@[fd])
    }

    /// The one bootstrap point: a fresh filesystem with the console
    /// capabilities, descriptors 0, 1 and 2 wired to them, and the
    /// root as working directory.
    pub fn new() -> (r: Process)
        ensures
            r.wf(),
            r.fs.len() == 3,
            r.cwd@ == seq![SEP],
            r.fd_get(0) == Some(
                FileLike::File(
                    FileHandle {
                        ino: STDIN_INO,
                        offset: 0,
                        options: OpenOptions { read: true, write: false, append: false },
                    },
                ),
            ),
            r.fd_get(1) == Some(
                FileLike::File(
                    FileHandle {
                        ino: STDOUT_INO,
                        offset: 0,
                        options: OpenOptions { read: false, write: true, append: false },
                    },
                ),
            ),
            r.fd_get(2) == Some(
                FileLike::File(
                    FileHandle {
                        ino: STDOUT_INO,
                        offset: 0,
                        options: OpenOptions { read: false, write: true, append: false },
                    },
                ),
            ),
            r.fs.is_dir(ROOT_INO as int),
            r.fs.entries(ROOT_INO as int) == Seq::<crate::fs::DirEntry>::empty(),
            r.fs.console_pending(STDIN_INO as int) == Seq::<char>::empty(),
            r.fs.console_written(STDOUT_INO as int) == Seq::<u8>::empty(),
    {
        let fs = FsTree::boot();
        let mut files: Vec<Option<FileLike>> = Vec::new();
        files.push(
            Some(
                FileLike::File(
                    FileHandle {
                        ino: STDIN_INO,
                        offset: 0,
                        options: OpenOptions { read: true, write: false, append: false },
                    },
                ),
            ),
        );
        files.push(
            Some(
                FileLike::File(
                    FileHandle {
                        ino: STDOUT_INO,
                        offset: 0,
                        options: OpenOptions { read: false, write: true, append: false },
                    },
                ),
            ),
        );
        files.push(
            Some(
                FileLike::File(
                    FileHandle {
                        ino: STDOUT_INO,
                        offset: 0,
                        options: OpenOptions { read: false, write: true, append: false },
                    },
                ),
            ),
        );
        let mut cwd: Vec<u8> = Vec::new();
        cwd.push(SEP);
        Process { fs, files, cwd }
    }

    /// The file handle a descriptor refers to; a missing descriptor or
    /// one that refers to a socket is a bad file descriptor.
    pub fn get_file(&self, fd: usize) -> (r: Result<FileHandle, SysError>)
        requires
            self.wf(),
        ensures
            self.fd_get(fd as int) matches Some(FileLike::File(h)) ==> r == Result::<
                FileHandle,
                SysError,
            >::Ok(h) && h.ino < self.fs.len(),
            !(self.fd_get(fd as int) matches Some(FileLike::File(_))) ==> r == Result::<
                FileHandle,
                SysError,
            >::Err(SysError::EBADF),
    {
        if fd >= self.files.len() {
            return Err(SysError::EBADF);
        }
        match &self.files[fd] {
            Some(FileLike::File(h)) => Ok(*h),
            _ => Err(SysError::EBADF),
        }
    }

    /// Writes back a file handle whose cursor moved.
    pub fn set_file(&mut self, fd: usize, h: FileHandle)
        requires
            old(self).wf(),
            0 <= fd < old(self).files@.len(),
            h.ino < old(self).fs.len(),
        ensures
            final(self).wf(),
            final(self).files@ == old(self).files@.update(fd as int, Some(FileLike::File(h))),
            final(self).fs == old(self).fs,
            final(self).cwd == old(self).cwd,
    {
        self.files.set(fd, Some(FileLike::File(h)));
        proof {
            assert forall|fdx: int|
                0 <= fdx < self.files@.len() implies self.entry_ok(
                #[trigger] self.files@[fdx],
            ) by {
                if fdx != fd as int {
                    assert(self.files@[fdx] == old(self).files@[fdx]);
                }
            }
        }
    }

    /// The lowest unused descriptor: the allocation policy.
    pub fn get_free_fd(&self) -> (r: usize)
        requires
            self.files@.len() < usize::MAX,
        ensures
            self.fd_get(r as int) is None,
            forall|j: int| 0 <= j < r ==> self.fd_get(j) is Some,
            r <= self.files@.len(),
    {
        let n = self.files.len();
        let mut i: usize = 0;
        while i < n
            invariant
                n == self.files@.len(),
                i <= n,
                forall|j: int| 0 <= j < i ==> self.fd_get(j) is Some,
            decreases n - i,
        {
            if self.files[i].is_none() {
                return i;
            }
            i = i + 1;
        }
        n
    }

    /// Puts an entry at a descriptor, growing the table with empty
    /// slots as needed.
    pub fn insert_file(&mut self, fd: usize, fl: FileLike)
        requires
            old(self).wf(),
            fd < usize::MAX,
            match fl {
                FileLike::File(h) => h.ino < old(self).fs.len(),
                FileLike::Socket(_) => true,
            },
        ensures
            final(self).wf(),
            final(self).fd_get(fd as int) == Some(fl),
            forall|j: int| 0 <= j < final(self).files@.len() && j != fd ==> final(self).fd_get(j)
                == old(self).fd_get(j),
            final(self).files@.len() >= old(self).files@.len(),
            final(self).fs == old(self).fs,
            final(self).cwd == old(self).cwd,
    {
        while self.files.len() <= fd
            invariant
                old(self).wf(),
                fd < usize::MAX,
                self.fs == old(self).fs,
                self.cwd == old(self).cwd,
                self.files@.len() >= old(self).files@.len(),
                forall|j: int|
                    0 <= j < old(self).files@.len() ==> self.files@[j] == old(self).files@[j],
                forall|j: int|
                    old(self).files@.len() <= j < self.files@.len() ==> self.files@[j] is None,
            decreases fd + 1 - self.files@.len(),
        {
            self.files.push(None);
        }
        self.files.set(fd, Some(fl));
        proof {
            assert forall|fdx: int|
                0 <= fdx < self.files@.len() implies self.entry_ok(
                #[trigger] self.files@[fdx],
            ) by {
                if fdx != fd as int {
                    if fdx < old(self).files@.len() {
                        assert(self.files@[fdx] == old(self).files@[fdx]);
                        assert(old(self).entry_ok(old(self).files@[fdx]));
                    }
                }
            }
        }
    }

    /// Removes and returns a descriptor's entry; the underlying
    /// resource is thereby released exactly once.
    pub fn remove_fd(&mut self, fd: usize) -> (r: Option<FileLike>)
        requires
            old(self).wf(),
        ensures
            final(self).wf(),
            r == old(self).fd_get(fd as int),
            r is None ==> *final(self) == *old(self),
            final(self).fd_get(fd as int) is None,
            forall|j: int| j != fd ==> final(self).fd_get(j) == old(self).fd_get(j),
            final(self).fs == old(self).fs,
            final(self).cwd == old(self).cwd,
            final(self).files@.len() == old(self).files@.len(),
    {
        if fd >= self.files.len() {
            return None;
        }
        let r = self.files[fd];
        if r.is_none() {
            return None;
        }
        self.files.set(fd, None);
        proof {
            assert forall|fdx: int|
                0 <= fdx < self.files@.len() implies self.entry_ok(
                #[trigger] self.files@[fdx],
            ) by {
                if fdx != fd as int {
                    assert(self.files@[fdx] == old(self).files@[fdx]);
                    assert(old(self).entry_ok(old(self).files@[fdx]));
                }
            }
        }
        r
    }

    /// Resolves a path: a leading separator resolves from the root,
    /// anything else from the working directory, itself re-resolved
    /// from the root on every lookup; computes exactly what
    /// `resolve_abs` specifies.
    pub fn lookup_inode(&self, path: &[u8]) -> (r: Result<usize, SysError>)
        requires
            self.wf(),
        ensures
            r == resolve_abs(*self, path@),
            r matches Ok(i) ==> 0 <= i < self.fs.len(),
            r matches Err(e) ==> e == SysError::ENOTDIR || e == SysError::ENOENT,
    {
        if path.len() > 0 && path[0] == SEP {
            let mut rest: Vec<u8> = Vec::new();
            let mut x: usize = 1;
            while x < path.len()
                invariant
                    1 <= x <= path@.len(),
                    rest@.len() == x - 1,
                    forall|k: int| 0 <= k < rest@.len() ==> rest@[k] == path@[1 + k],
                decreases path@.len() - x,
            {
                rest.push(path[x]);
                x = x + 1;
            }
            proof {
                assert(rest@ =~= path@.drop_first());
            }
            match lookup_path(&self.fs, ROOT_INO, rest.as_slice()) {
                Ok(i) => Ok(i),
                Err(e) => Err(SysError::from(e)),
            }
        } else {
            let mut cwd_rest: Vec<u8> = Vec::new();
            let mut x: usize = 1;
            while x < self.cwd.len()
                invariant
                    1 <= x <= self.cwd@.len(),
                    cwd_rest@.len() == x - 1,
                    forall|k: int| 0 <= k < cwd_rest@.len() ==> cwd_rest@[k] == self.cwd@[1 + k],
                decreases self.cwd@.len() - x,
            {
                cwd_rest.push(self.cwd[x]);
                x = x + 1;
            }
            proof {
                assert(cwd_rest@ =~= self.cwd@.drop_first());
            }
            let d = match lookup_path(&self.fs, ROOT_INO, cwd_rest.as_slice()) {
                Ok(d) => d,
                Err(e) => {
                    return Err(SysError::from(e));
                },
            };
            match lookup_path(&self.fs, d, path) {
                Ok(i) => Ok(i),
                Err(e) => Err(SysError::from(e)),
            }
        }
    }
}

/// A filesystem-layer resolution result, mapped to the syscall error
/// set.
pub open spec fn map_resolve(r: Result<usize, FsError>) -> Result<usize, SysError> {
    match r {
        Ok(i) => Ok(i),
        Err(e) => Err(sys_error_of(e)),
    }
}

/// What a path names for a process: a leading separator resolves from
/// the root; anything else resolves the working directory from the
/// root first (its leading separator stripped) and the path from
/// there.
pub open spec fn resolve_abs(p: Process, path: Seq<u8>) -> Result<usize, SysError> {
    if path.len() > 0 && path[0] == SEP {
        map_resolve(resolve(p.fs, ROOT_INO, path.drop_first()))
    } else {
        match resolve(p.fs, ROOT_INO, p.cwd@.drop_first()) {
            Ok(d) => map_resolve(resolve(p.fs, d, path)),
            Err(e) => Err(sys_error_of(e)),
        }
    }
}

/// The number of leading bytes of `path` before the first separator:
/// the first component's length.
pub open spec fn comp_len(path: Seq<u8>) -> int
    decreases path.len(),
{
    if path.len() == 0 || path[0] == SEP {
        0
    } else {
        1 + comp_len(path.drop_first())
    }
}

/// What characterizes a component's length: that many non-separator
/// bytes, then a separator or the end.
pub proof fn lemma_comp_len_char(path: Seq<u8>, c: int)
    requires
        0 <= c <= path.len(),
        forall|m: int| 0 <= m < c ==> path[m] != SEP,
        c == path.len() || path[c] == SEP,
    ensures
        comp_len(path) == c,
    decreases path.len(),
{
    if path.len() > 0 && path[0] != SEP {
        assert(c >= 1);
        assert(forall|m: int| 0 <= m < c - 1 ==> path.drop_first()[m] == path[m + 1]);
        if c - 1 < path.drop_first().len() {
            assert(path.drop_first()[c - 1] == path[c]);
        }
        lemma_comp_len_char(path.drop_first(), c - 1);
    }
}

/// Path resolution, as a specification: empty components and "." stay
/// in the current directory, ".." goes to the parent (the root is its
/// own parent), anything else is looked up in the current directory;
/// resolution fails "not a directory" or "entry not found" exactly
/// where a step does.
pub open spec fn resolve(fs: FsTree, cur: usize, path: Seq<u8>) -> Result<usize, FsError>
    decreases path.len(),
{
    if path.len() == 0 {
        Ok(cur)
    } else if path[0] == SEP {
        resolve(fs, cur, path.drop_first())
    } else {
        let c0 = comp_len(path);
        let c = if 1 <= c0 <= path.len() {
            c0
        } else {
            1
        };
        let comp = path.subrange(0, c);
        let rest = path.subrange(c, path.len() as int);
        if comp == seq![DOT] {
            resolve(fs, cur, rest)
        } else if comp == seq![DOT, DOT] {
            if !fs.is_dir(cur as int) {
                Err(FsError::NotDir)
            } else {
                resolve(fs, fs.nodes@[cur as int].parent, rest)
            }
        } else {
            if !fs.is_dir(cur as int) {
                Err(FsError::NotDir)
            } else if !fs.dir_has(cur as int, comp) {
                Err(FsError::EntryNotFound)
            } else {
                resolve(fs, fs.ino_of(cur as int, comp), rest)
            }
        }
    }
}

/// Walks a separator-separated path from a starting directory,
/// computing exactly what `resolve` specifies.
pub fn lookup_path(fs: &FsTree, start: usize, path: &[u8]) -> (r: Result<usize, FsError>)
    requires
        fs.wf(),
        0 <= start < fs.len(),
    ensures
        r == resolve(*fs, start, path@),
        r matches Ok(i) ==> 0 <= i < fs.len(),
        r matches Err(e) ==> e == FsError::NotDir || e == FsError::EntryNotFound,
        path@.len() == 0 ==> r == Result::<usize, FsError>::Ok(start),
{
    let n = path.len();
    let mut cur = start;
    let mut pos: usize = 0;
    proof {
        assert(path@.subrange(0, n as int) =~= path@);
    }
    while pos < n
        invariant
            fs.wf(),
            0 <= cur < fs.len(),
            pos <= n,
            n == path@.len(),
            resolve(*fs, start, path@) == resolve(*fs, cur, path@.subrange(pos as int, n as int)),
        decreases n - pos,
    {
        let ghost rest = path@.subrange(pos as int, n as int);
        if path[pos] == SEP {
            proof {
                assert(rest[0] == SEP);
                assert(rest.drop_first() =~= path@.subrange(pos as int + 1, n as int));
            }
            pos = pos + 1;
        } else {
            let a = pos;
            while pos < n && path[pos] != SEP
                invariant
                    a <= pos <= n,
                    a < n,
                    n == path@.len(),
                    path@[a as int] != SEP,
                    forall|m: int| a <= m < pos ==> path@[m] != SEP,
                decreases n - pos,
            {
                pos = pos + 1;
            }
            let b = pos;
            proof {
                assert(b > a);
            }
            let mut comp: Vec<u8> = Vec::new();
            let mut x: usize = a;
            while x < b
                invariant
                    a <= x <= b <= n,
                    n == path@.len(),
                    comp@.len() == x - a,
                    forall|k: int| 0 <= k < comp@.len() ==> comp@[k] == path@[a + k],
                decreases b - x,
            {
                comp.push(path[x]);
                x = x + 1;
            }
            proof {
                let c = b as int - a as int;
                assert forall|m: int| 0 <= m < c implies rest[m] != SEP by {
                    assert(rest[m] == path@[a + m]);
                }
                if c < rest.len() {
                    assert(rest[c] == path@[b as int]);
                }
                lemma_comp_len_char(rest, c);
                assert(comp@ =~= rest.subrange(0, c));
                assert(rest.subrange(c, rest.len() as int) =~= path@.subrange(
                    b as int,
                    n as int,
                ));
            }
            if comp.len() == 1 && comp[0] == DOT {
                proof {
                    assert(comp@ =~= seq![DOT]);
                    assert(resolve(*fs, cur, rest) == resolve(
                        *fs,
                        cur,
                        path@.subrange(b as int, n as int),
                    ));
                }
            } else if comp.len() == 2 && comp[0] == DOT && comp[1] == DOT {
                proof {
                    assert(comp@ =~= seq![DOT, DOT]);
                    assert(comp@ != seq![DOT]);
                }
                let is_dir = match &fs.nodes[cur].kind {
                    NodeKind::Dir(_) => true,
                    _ => false,
                };
                if !is_dir {
                    proof {
                        assert(resolve(*fs, cur, rest) == Result::<usize, FsError>::Err(
                            FsError::NotDir,
                        ));
                    }
                    return Err(FsError::NotDir);
                }
                proof {
                    assert(resolve(*fs, cur, rest) == resolve(
                        *fs,
                        fs.nodes@[cur as int].parent,
                        path@.subrange(b as int, n as int),
                    ));
                }
                cur = self_parent(fs, cur);
            } else {
                proof {
                    assert(comp@ != seq![DOT]);
                    assert(comp@ != seq![DOT, DOT]);
                }
                match fs.find(cur, comp.as_slice()) {
                    Ok(i) => {
                        proof {
                            assert(resolve(*fs, cur, rest) == resolve(
                                *fs,
                                fs.ino_of(cur as int, comp@),
                                path@.subrange(b as int, n as int),
                            ));
                        }
                        cur = i;
                    },
                    Err(e) => {
                        proof {
                            assert(resolve(*fs, cur, rest) == Result::<usize, FsError>::Err(e));
                        }
                        return Err(e);
                    },
                }
            }
        }
    }
    proof {
        assert(path@.subrange(n as int, n as int) =~= Seq::<u8>::empty());
    }
    Ok(cur)
}


/// The parent directory of a directory node.
fn self_parent(fs: &FsTree, cur: usize) -> (r: usize)
    requires
        fs.wf(),
        0 <= cur < fs.len(),
        fs.is_dir(cur as int),
    ensures
        r == fs.nodes@[cur as int].parent,
        0 <= r < fs.len(),
        fs.is_dir(r as int),
{
    fs.nodes[cur].parent
}

/// The readiness a socket's current state amounts to, as the
/// multiplexer consumes it.
pub fn socket_poll(st: SocketState) -> (r: PollStatus)
    ensures
        r.read == st.can_recv,
        r.write == st.can_send,
        r.error == !st.is_open,
{
    PollStatus { read: st.can_recv, write: st.can_send, error: !st.is_open }
}

} // verus!

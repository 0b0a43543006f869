//! The abstract inode capability, reimplemented as a closed
//! tagged-variant type: regular files, directories and the two console
//! capabilities live in one arena, indexed by inode number. Operations
//! not meaningful for a variant fail with "not supported" or "not a
//! directory" rather than silently succeeding.
//!
//! Sockets are not inodes: they live directly in the descriptor table.

use vstd::prelude::*;

use crate::console::{Stdin, Stdout};
use crate::error::FsError;
use crate::usermem::UserMem;

verus! {

/// The inode number of the root directory.
pub const ROOT_INO: usize = 0;

/// The inode number of the console input capability.
pub const STDIN_INO: usize = 1;

/// The inode number of the console output capability.
pub const STDOUT_INO: usize = 2;

/// Terminal control: get attributes.
pub const TCGETS: u32 = 0x5401;

/// Terminal control: get the foreground process group.
pub const TIOCGPGRP: u32 = 0x540F;

/// Terminal control: set the foreground process group.
pub const TIOCSPGRP: u32 = 0x5410;

/// Terminal control: get the window size.
pub const TIOCGWINSZ: u32 = 0x5413;

/// The kind a filesystem entity has.
#[derive(Clone, Copy, Debug, PartialEq, Eq, Structural)]
pub enum FileType {
    File,
    Dir,
    SymLink,
    CharDevice,
    BlockDevice,
    Socket,
    NamedPipe,
}

/// Seconds and nanoseconds of a file timestamp.
#[derive(Clone, Copy, Debug, PartialEq, Eq, Structural)]
pub struct Timespec {
    pub sec: i64,
    pub nsec: i64,
}

/// Metadata as the inode layer reports it.
#[derive(Clone, Copy, Debug, PartialEq, Eq, Structural)]
pub struct Metadata {
    pub dev: usize,
    pub inode: usize,
    pub size: usize,
    pub blk_size: usize,
    pub blocks: usize,
    pub nlinks: usize,
    pub uid: usize,
    pub gid: usize,
    pub mode: u16,
    pub type_: FileType,
    pub atime: Timespec,
    pub mtime: Timespec,
    pub ctime: Timespec,
}

/// One name in a directory, and the inode it refers to.
pub struct DirEntry {
    pub name: Vec<u8>,
    pub ino: usize,
}

/// What a node is, together with the state only that variant carries.
pub enum NodeKind {
    /// A regular file and its contents.
    File(Vec<u8>),
    /// A directory and its entries, in insertion order.
    Dir(Vec<DirEntry>),
    /// The console input capability.
    ConsoleIn(Stdin),
    /// The console output capability.
    ConsoleOut(Stdout),
}

/// One node of the inode arena.
pub struct Node {
    pub kind: NodeKind,
    pub mode: u16,
    pub uid: usize,
    pub gid: usize,
    pub nlinks: usize,
    /// For directories: the containing directory (the root is its own
    /// parent). Meaningless for other kinds.
    pub parent: usize,
}

/// The filesystem model: an arena of nodes, the root directory at
/// inode 0. Entries refer to nodes by index; a node's storage is never
/// reused, so an unlinked-but-open inode stays valid until the table
/// entry that holds it is dropped.
pub struct FsTree {
    pub nodes: Vec<Node>,
}

/// The bytes a read of `len` at `offset` returns from contents `data`:
/// the in-bounds part of the requested span.
pub open spec fn read_span(data: Seq<u8>, offset: int, len: int) -> Seq<u8> {
    if offset >= data.len() {
        Seq::empty()
    } else if offset + len <= data.len() {
        data.subrange(offset, offset + len)
    } else {
        data.subrange(offset, data.len() as int)
    }
}

/// The contents of a file after writing `data` at `offset`: the old
/// bytes, zero-filled up to `offset` if it lies beyond the old end,
/// with `data` overlaid.
pub open spec fn write_span(old_data: Seq<u8>, offset: int, data: Seq<u8>) -> Seq<u8> {
    let n = if old_data.len() >= offset + data.len() {
        old_data.len() as int
    } else {
        offset + data.len()
    };
    Seq::new(n as nat, |y: int|
        if offset <= y < offset + data.len() {
            data[y - offset]
        } else if y < old_data.len() {
            old_data[y]
        } else {
            0u8
        })
}

impl FsTree {
    /// The number of nodes in the arena.
    pub open spec fn len(&self) -> int {
        self.nodes@.len() as int
    }

    /// Whether node `i` is a directory.
    pub open spec fn is_dir(&self, i: int) -> bool {
        self.nodes@[i].kind is Dir
    }

    /// Whether node `i` is a regular file.
    pub open spec fn is_file(&self, i: int) -> bool {
        self.nodes@[i].kind is File
    }

    /// Whether node `i` is the console input capability.
    pub open spec fn is_console_in(&self, i: int) -> bool {
        self.nodes@[i].kind is ConsoleIn
    }

    /// Whether node `i` is the console output capability.
    pub open spec fn is_console_out(&self, i: int) -> bool {
        self.nodes@[i].kind is ConsoleOut
    }

    /// The entries of directory `i` (empty for other kinds).
    pub open spec fn entries(&self, i: int) -> Seq<DirEntry> {
        match self.nodes@[i].kind {
            NodeKind::Dir(es) => es@,
            _ => Seq::empty(),
        }
    }

    /// The contents of regular file `i` (empty for other kinds).
    pub open spec fn file_data(&self, i: int) -> Seq<u8> {
        match self.nodes@[i].kind {
            NodeKind::File(b) => b@,
            _ => Seq::empty(),
        }
    }

    /// The pending input of console node `i` (empty for other kinds).
    pub open spec fn console_pending(&self, i: int) -> Seq<char> {
        match self.nodes@[i].kind {
            NodeKind::ConsoleIn(s) => s@,
            _ => Seq::empty(),
        }
    }

    /// The output sink of console node `i` (empty for other kinds).
    pub open spec fn console_written(&self, i: int) -> Seq<u8> {
        match self.nodes@[i].kind {
            NodeKind::ConsoleOut(s) => s@,
            _ => Seq::empty(),
        }
    }

    /// Directory `d` holds `name`.
    pub open spec fn dir_has(&self, d: int, name: Seq<u8>) -> bool {
        exists|k: int|
            0 <= k < self.entries(d).len() && (#[trigger] self.entries(d)[k]).name@ == name
    }

    /// The inode `name` refers to in directory `d` (meaningful only
    /// when `dir_has` holds; unique under well-formedness).
    pub open spec fn ino_of(&self, d: int, name: Seq<u8>) -> usize {
        let k = choose|k: int|
            0 <= k < self.entries(d).len() && (#[trigger] self.entries(d)[k]).name@ == name;
        self.entries(d)[k].ino
    }

    /// The index of `name` among directory `d`'s entries.
    pub open spec fn entry_index(&self, d: int, name: Seq<u8>) -> int {
        choose|k: int|
            0 <= k < self.entries(d).len() && (#[trigger] self.entries(d)[k]).name@ == name
    }

    /// Well-formedness: a root directory exists; every entry points
    /// into the arena; names are unique per directory; every
    /// directory's parent is a directory.
    pub open spec fn wf(&self) -> bool {
        &&& self.len() >= 1
        &&& self.is_dir(0)
        &&& forall|d: int, k: int|
            0 <= d < self.len() && self.is_dir(d) && 0 <= k < self.entries(d).len() ==> (
            #[trigger] self.entries(d)[k]).ino < self.len()
        &&& forall|d: int, i: int, j: int|
            0 <= d < self.len() && self.is_dir(d) && 0 <= i < j < self.entries(d).len() ==> (
            #[trigger] self.entries(d)[i]).name@ != (#[trigger] self.entries(d)[j]).name@
        &&& forall|d: int|
            0 <= d < self.len() && self.is_dir(d) ==> 0 <= (#[trigger] self.nodes@[d]).parent
                < self.len() && self.is_dir(self.nodes@[d].parent as int)
    }

    /// Distinct entries of a well-formed directory carry distinct
    /// names.
    pub proof fn lemma_entries_unique(&self, d: int, i: int, j: int)
        requires
            self.wf(),
            0 <= d < self.len(),
            self.is_dir(d),
            0 <= i < j < self.entries(d).len(),
        ensures
            self.entries(d)[i].name@ != self.entries(d)[j].name@,
    {
    }

    /// The looked-up index of a present name is the only index that
    /// carries it.
    pub proof fn lemma_entry_index(&self, d: int, k: int, name: Seq<u8>)
        requires
            self.wf(),
            0 <= d < self.len(),
            self.is_dir(d),
            0 <= k < self.entries(d).len(),
            self.entries(d)[k].name@ == name,
        ensures
            self.dir_has(d, name),
            self.entry_index(d, name) == k,
            self.ino_of(d, name) == self.entries(d)[k].ino,
    {
        assert(self.dir_has(d, name));
        let k2 = self.entry_index(d, name);
        assert(0 <= k2 < self.entries(d).len() && self.entries(d)[k2].name@ == name);
        if k2 < k {
            self.lemma_entries_unique(d, k2, k);
        } else if k2 > k {
            self.lemma_entries_unique(d, k, k2);
        }
    }

    /// Looks `name` up in directory `d`.
    pub fn find(&self, d: usize, name: &[u8]) -> (r: Result<usize, FsError>)
        requires
            self.wf(),
            0 <= d < self.len(),
        ensures
            !self.is_dir(d as int) ==> r == Result::<usize, FsError>::Err(FsError::NotDir),
            self.is_dir(d as int) && !self.dir_has(d as int, name@) ==> r == Result::<
                usize,
                FsError,
            >::Err(FsError::EntryNotFound),
            self.is_dir(d as int) && self.dir_has(d as int, name@) ==> r == Result::<
                usize,
                FsError,
            >::Ok(self.ino_of(d as int, name@)) && self.ino_of(d as int, name@) < self.len(),
    {
        let node = &self.nodes[d];
        match &node.kind {
            NodeKind::Dir(es) => {
                let n = es.len();
                let mut k: usize = 0;
                while k < n
                    invariant
                        self.wf(),
                        0 <= d < self.len(),
                        n == es@.len(),
                        k <= n,
                        es@ == self.entries(d as int),
                        forall|j: int| 0 <= j < k ==> (#[trigger] es@[j]).name@ != name@,
                    decreases n - k,
                {
                    if bytes_eq(es[k].name.as_slice(), name) {
                        proof {
                            let dd = d as int;
                            assert(self.entries(dd)[k as int].name@ == name@);
                            self.lemma_entry_index(dd, k as int, name@);
                        }
                        return Ok(es[k].ino);
                    }
                    k = k + 1;
                }
                Err(FsError::EntryNotFound)
            },
            _ => Err(FsError::NotDir),
        }
    }

    /// A fresh node used only to swap a live node out for mutation.
    fn blank_node() -> (r: Node)
        ensures
            r.kind is File,
    {
        Node {
            kind: NodeKind::File(Vec::new()),
            mode: 0,
            uid: 0,
            gid: 0,
            nlinks: 0,
            parent: 0,
        }
    }

    /// Creates `name` in directory `d` with the requested type, and
    /// reports the new inode. Fails "not a directory", "entry exists"
    /// or "invalid parameter" (types other than file and directory)
    /// with nothing changed.
    pub fn create(&mut self, d: usize, name: &[u8], type_: FileType, mode: u32) -> (r: Result<
        usize,
        FsError,
    >)
        requires
            old(self).wf(),
            0 <= d < old(self).len(),
        ensures
            final(self).wf(),
            !old(self).is_dir(d as int) ==> r == Result::<usize, FsError>::Err(FsError::NotDir)
                && *final(self) == *old(self),
            old(self).is_dir(d as int) && old(self).dir_has(d as int, name@) ==> r == Result::<
                usize,
                FsError,
            >::Err(FsError::EntryExist) && *final(self) == *old(self),
            old(self).is_dir(d as int) && !old(self).dir_has(d as int, name@) && !(type_
                == FileType::File || type_ == FileType::Dir) ==> r == Result::<usize, FsError>::Err(
                FsError::InvalidParam,
            ) && *final(self) == *old(self),
            old(self).is_dir(d as int) && !old(self).dir_has(d as int, name@) && (type_
                == FileType::File || type_ == FileType::Dir) ==> {
                &&& r == Result::<usize, FsError>::Ok(old(self).len() as usize)
                &&& final(self).len() == old(self).len() + 1
                &&& final(self).entries(d as int).len() == old(self).entries(d as int).len() + 1
                &&& (forall|k: int|
                    0 <= k < old(self).entries(d as int).len() ==> final(self).entries(
                        d as int,
                    )[k] == old(self).entries(d as int)[k])
                &&& final(self).entries(d as int).last().name@ == name@
                &&& final(self).entries(d as int).last().ino == old(self).len()
                &&& (forall|j: int|
                    0 <= j < old(self).len() && j != d ==> final(self).nodes@[j] == old(self).nodes@[j])
                &&& (type_ == FileType::File ==> final(self).is_file(old(self).len()))
                &&& (type_ == FileType::Dir ==> final(self).is_dir(old(self).len()))
                &&& final(self).file_data(old(self).len()) == Seq::<u8>::empty()
                &&& final(self).entries(old(self).len()) == Seq::<DirEntry>::empty()
                &&& final(self).nodes@.last().nlinks == 1
                &&& final(self).nodes@.last().mode == mode as u16
                &&& final(self).nodes@[d as int].parent == old(self).nodes@[d as int].parent
                &&& final(self).nodes@[d as int].kind is Dir
                &&& final(self).dir_has(d as int, name@)
                &&& final(self).ino_of(d as int, name@) == old(self).len()
            },
    {
        match self.find(d, name) {
            Ok(_) => Err(FsError::EntryExist),
            Err(FsError::NotDir) => Err(FsError::NotDir),
            Err(_) => {
                if !(matches!(type_, FileType::File) || matches!(type_, FileType::Dir)) {
                    return Err(FsError::InvalidParam);
                }
                let i = self.nodes.len();
                let newnode = Node {
                    kind: match type_ {
                        FileType::Dir => NodeKind::Dir(Vec::new()),
                        _ => NodeKind::File(Vec::new()),
                    },
                    mode: mode as u16,
                    uid: 0,
                    gid: 0,
                    nlinks: 1,
                    parent: d,
                };
                self.nodes.push(newnode);
                let mut node = FsTree::blank_node();
                self.nodes.set_and_swap(d, &mut node);
                match &mut node.kind {
                    NodeKind::Dir(es) => {
                        es.push(DirEntry { name: vstd::slice::slice_to_vec(name), ino: i });
                    },
                    _ => {
                        proof {
                            assert(false);
                        }
                    },
                }
                self.nodes.set_and_swap(d, &mut node);
                proof {
                    self.lemma_create_shape(*old(self), d as int, name@, i as int);
                }
                Ok(i)
            },
        }
    }

    /// The shape argument behind `create`: the state after appending a
    /// node and one entry naming it is well formed, and lookups of the
    /// new name land on the new node.
    proof fn lemma_create_shape(&self, pre: FsTree, d: int, name: Seq<u8>, i: int)
        requires
            pre.wf(),
            0 <= d < pre.len(),
            pre.is_dir(d),
            !pre.dir_has(d, name),
            i == pre.len(),
            self.len() == pre.len() + 1,
            forall|j: int| 0 <= j < pre.len() && j != d ==> self.nodes@[j] == pre.nodes@[j],
            self.nodes@[d].kind is Dir,
            self.nodes@[d].parent == pre.nodes@[d].parent,
            self.entries(d).len() == pre.entries(d).len() + 1,
            forall|k: int| 0 <= k < pre.entries(d).len() ==> self.entries(d)[k] == pre.entries(d)[k],
            self.entries(d).last().name@ == name,
            self.entries(d).last().ino == i,
            self.nodes@[i].kind is Dir ==> self.entries(i) == Seq::<DirEntry>::empty(),
            self.nodes@[i].kind is Dir ==> self.nodes@[i].parent == d,
            !(self.nodes@[i].kind is Dir) ==> self.nodes@[i].kind is File,
        ensures
            self.wf(),
            self.dir_has(d, name),
            self.ino_of(d, name) == i,
    {
        assert(self.is_dir(0)) by {
            if d != 0 {
                assert(self.nodes@[0] == pre.nodes@[0]);
            }
        }
        assert forall|dx: int, k: int|
            0 <= dx < self.len() && self.is_dir(dx) && 0 <= k < self.entries(dx).len() implies (
        #[trigger] self.entries(dx)[k]).ino < self.len() by {
            if dx == d {
                if k < pre.entries(d).len() {
                    assert(self.entries(d)[k] == pre.entries(d)[k]);
                    assert(pre.entries(d)[k].ino < pre.len());
                } else {
                    assert(k == self.entries(d).len() - 1);
                    assert(self.entries(d)[k] == self.entries(d).last());
                }
            } else if dx < pre.len() {
                assert(self.nodes@[dx] == pre.nodes@[dx]);
                assert(self.entries(dx) == pre.entries(dx));
                assert(pre.entries(dx)[k].ino < pre.len());
            } else {
                assert(self.entries(dx).len() == 0);
            }
        }
        assert forall|dx: int, a: int, b: int|
            0 <= dx < self.len() && self.is_dir(dx) && 0 <= a < b < self.entries(dx).len() implies (
        #[trigger] self.entries(dx)[a]).name@ != (#[trigger] self.entries(dx)[b]).name@ by {
            if dx == d {
                if b < pre.entries(d).len() {
                    assert(self.entries(d)[a] == pre.entries(d)[a]);
                    assert(self.entries(d)[b] == pre.entries(d)[b]);
                    pre.lemma_entries_unique(d, a, b);
                } else {
                    assert(self.entries(d)[a] == pre.entries(d)[a]);
                    if self.entries(dx)[a].name@ == name {
                        assert(pre.dir_has(d, name));
                    }
                }
            } else if dx < pre.len() {
                assert(self.nodes@[dx] == pre.nodes@[dx]);
                pre.lemma_entries_unique(dx, a, b);
            }
        }
        assert forall|dx: int| 0 <= dx < self.len() && self.is_dir(dx) implies 0 <= (
        #[trigger] self.nodes@[dx]).parent < self.len() && self.is_dir(
            self.nodes@[dx].parent as int,
        ) by {
            if dx == d {
                let p = pre.nodes@[d].parent as int;
                if p != d && p != i {
                    assert(self.nodes@[p] == pre.nodes@[p]);
                }
                assert(p < pre.len());
            } else if dx < pre.len() {
                assert(self.nodes@[dx] == pre.nodes@[dx]);
                let p = pre.nodes@[dx].parent as int;
                if p != d {
                    assert(self.nodes@[p] == pre.nodes@[p]);
                }
            } else {
                let p = self.nodes@[dx].parent as int;
                if p != d {
                    assert(self.nodes@[p] == pre.nodes@[p]);
                }
            }
        }
        assert(self.entries(d).last().name@ == name);
        self.lemma_entry_index(d, self.entries(d).len() - 1, name);
    }

    /// Re-establishing well-formedness after one directory's entries
    /// changed: the new entries stay in bounds and uniquely named, every
    /// other node keeps its kind and parent (link counts are free to
    /// move).
    proof fn lemma_dir_update_wf(&self, pre: FsTree, d: int)
        requires
            pre.wf(),
            0 <= d < pre.len(),
            pre.is_dir(d),
            self.len() == pre.len(),
            forall|j: int|
                0 <= j < pre.len() && j != d ==> (#[trigger] self.nodes@[j]).kind
                    == pre.nodes@[j].kind && self.nodes@[j].parent == pre.nodes@[j].parent,
            self.is_dir(d),
            self.nodes@[d].parent == pre.nodes@[d].parent,
            forall|k: int|
                0 <= k < self.entries(d).len() ==> (#[trigger] self.entries(d)[k]).ino
                    < pre.len(),
            forall|a: int, b: int|
                0 <= a < b < self.entries(d).len() ==> (#[trigger] self.entries(d)[a]).name@ != (
                #[trigger] self.entries(d)[b]).name@,
        ensures
            self.wf(),
    {
        assert(self.is_dir(0)) by {
            if d != 0 {
                assert(self.nodes@[0].kind == pre.nodes@[0].kind);
            }
        }
        assert forall|dx: int, k: int|
            0 <= dx < self.len() && self.is_dir(dx) && 0 <= k < self.entries(dx).len() implies (
        #[trigger] self.entries(dx)[k]).ino < self.len() by {
            if dx != d {
                assert(self.nodes@[dx].kind == pre.nodes@[dx].kind);
                assert(self.entries(dx) == pre.entries(dx));
                assert(pre.entries(dx)[k].ino < pre.len());
            }
        }
        assert forall|dx: int, a: int, b: int|
            0 <= dx < self.len() && self.is_dir(dx) && 0 <= a < b < self.entries(dx).len() implies (
        #[trigger] self.entries(dx)[a]).name@ != (#[trigger] self.entries(dx)[b]).name@ by {
            if dx != d {
                assert(self.nodes@[dx].kind == pre.nodes@[dx].kind);
                assert(self.entries(dx) == pre.entries(dx));
                pre.lemma_entries_unique(dx, a, b);
            }
        }
        assert forall|dx: int| 0 <= dx < self.len() && self.is_dir(dx) implies 0 <= (
        #[trigger] self.nodes@[dx]).parent < self.len() && self.is_dir(
            self.nodes@[dx].parent as int,
        ) by {
            if dx != d {
                assert(self.nodes@[dx].kind == pre.nodes@[dx].kind);
            }
            assert(pre.is_dir(dx));
            let p = pre.nodes@[dx].parent as int;
            assert(self.nodes@[dx].parent as int == p);
            if p != d {
                assert(self.nodes@[p].kind == pre.nodes@[p].kind);
            }
        }
    }

    /// The index `name` occupies in directory `d`, when it is there.
    fn find_index(&self, d: usize, name: &[u8]) -> (r: Option<usize>)
        requires
            self.wf(),
            0 <= d < self.len(),
            self.is_dir(d as int),
        ensures
            r is Some <==> self.dir_has(d as int, name@),
            r matches Some(k) ==> {
                &&& k as int == self.entry_index(d as int, name@)
                &&& k < self.entries(d as int).len()
                &&& self.entries(d as int)[k as int].name@ == name@
                &&& self.entries(d as int)[k as int].ino == self.ino_of(d as int, name@)
                &&& self.ino_of(d as int, name@) < self.len()
            },
    {
        match &self.nodes[d].kind {
            NodeKind::Dir(es) => {
                let n = es.len();
                let mut k: usize = 0;
                while k < n
                    invariant
                        self.wf(),
                        0 <= d < self.len(),
                        self.is_dir(d as int),
                        n == es@.len(),
                        k <= n,
                        es@ == self.entries(d as int),
                        forall|j: int| 0 <= j < k ==> (#[trigger] es@[j]).name@ != name@,
                    decreases n - k,
                {
                    if bytes_eq(es[k].name.as_slice(), name) {
                        proof {
                            self.lemma_entry_index(d as int, k as int, name@);
                        }
                        return Some(k);
                    }
                    k = k + 1;
                }
                None
            },
            _ => {
                proof {
                    assert(false);
                }
                None
            },
        }
    }

    /// Links `other` under directory `d` as `name`: one more hard link
    /// to the same inode. Directories cannot be linked.
    pub fn link(&mut self, d: usize, name: &[u8], other: usize) -> (r: Result<(), FsError>)
        requires
            old(self).wf(),
            0 <= d < old(self).len(),
            0 <= other < old(self).len(),
        ensures
            final(self).wf(),
            !old(self).is_dir(d as int) ==> r == Result::<(), FsError>::Err(FsError::NotDir)
                && *final(self) == *old(self),
            old(self).is_dir(d as int) && old(self).dir_has(d as int, name@) ==> r == Result::<
                (),
                FsError,
            >::Err(FsError::EntryExist) && *final(self) == *old(self),
            old(self).is_dir(d as int) && !old(self).dir_has(d as int, name@) && old(self).is_dir(
                other as int,
            ) ==> r == Result::<(), FsError>::Err(FsError::IsDir) && *final(self) == *old(self),
            old(self).is_dir(d as int) && !old(self).dir_has(d as int, name@) && !old(self).is_dir(
                other as int,
            ) && old(self).nodes@[other as int].nlinks == usize::MAX ==> r == Result::<
                (),
                FsError,
            >::Err(FsError::NoDeviceSpace) && *final(self) == *old(self),
            old(self).is_dir(d as int) && !old(self).dir_has(d as int, name@) && !old(self).is_dir(
                other as int,
            ) && old(self).nodes@[other as int].nlinks < usize::MAX ==> {
                &&& r == Result::<(), FsError>::Ok(())
                &&& final(self).len() == old(self).len()
                &&& final(self).entries(d as int).len() == old(self).entries(d as int).len() + 1
                &&& (forall|k: int|
                    0 <= k < old(self).entries(d as int).len() ==> final(self).entries(
                        d as int,
                    )[k] == old(self).entries(d as int)[k])
                &&& final(self).entries(d as int).last().name@ == name@
                &&& final(self).entries(d as int).last().ino == other
                &&& final(self).dir_has(d as int, name@)
                &&& final(self).ino_of(d as int, name@) == other
                &&& final(self).nodes@[other as int].nlinks == old(self).nodes@[other as int].nlinks + 1
                &&& final(self).nodes@[other as int].kind == old(self).nodes@[other as int].kind
                &&& (forall|j: int|
                    0 <= j < old(self).len() && j != d && j != other ==> final(self).nodes@[j]
                        == old(self).nodes@[j])
            },
    {
        let dir_check = match &self.nodes[d].kind {
            NodeKind::Dir(_) => true,
            _ => false,
        };
        if !dir_check {
            return Err(FsError::NotDir);
        }
        if self.find_index(d, name).is_some() {
            return Err(FsError::EntryExist);
        }
        let other_is_dir = match &self.nodes[other].kind {
            NodeKind::Dir(_) => true,
            _ => false,
        };
        if other_is_dir {
            return Err(FsError::IsDir);
        }
        if self.nodes[other].nlinks == usize::MAX {
            return Err(FsError::NoDeviceSpace);
        }
        let ghost pre = *self;
        let mut node = FsTree::blank_node();
        self.nodes.set_and_swap(other, &mut node);
        node.nlinks = node.nlinks + 1;
        self.nodes.set_and_swap(other, &mut node);
        let ghost mid = *self;
        let mut dnode = FsTree::blank_node();
        self.nodes.set_and_swap(d, &mut dnode);
        match &mut dnode.kind {
            NodeKind::Dir(es) => {
                es.push(DirEntry { name: vstd::slice::slice_to_vec(name), ino: other });
            },
            _ => {
                proof {
                    assert(false);
                }
            },
        }
        self.nodes.set_and_swap(d, &mut dnode);
        proof {
            assert forall|j: int|
                0 <= j < pre.len() && j != d as int implies (#[trigger] self.nodes@[j]).kind
                    == pre.nodes@[j].kind && self.nodes@[j].parent == pre.nodes@[j].parent by {}
            assert forall|k: int|
                0 <= k < self.entries(d as int).len() implies (#[trigger] self.entries(
                d as int,
            )[k]).ino < pre.len() by {
                if k < pre.entries(d as int).len() {
                    assert(self.entries(d as int)[k] == pre.entries(d as int)[k]);
                }
            }
            assert forall|a: int, b: int|
                0 <= a < b < self.entries(d as int).len() implies (#[trigger] self.entries(
                d as int,
            )[a]).name@ != (#[trigger] self.entries(d as int)[b]).name@ by {
                if b < pre.entries(d as int).len() {
                    assert(self.entries(d as int)[a] == pre.entries(d as int)[a]);
                    assert(self.entries(d as int)[b] == pre.entries(d as int)[b]);
                    pre.lemma_entries_unique(d as int, a, b);
                } else {
                    assert(self.entries(d as int)[a] == pre.entries(d as int)[a]);
                    if self.entries(d as int)[a].name@ == name@ {
                        assert(pre.dir_has(d as int, name@));
                    }
                }
            }
            self.lemma_dir_update_wf(pre, d as int);
            self.lemma_entry_index(d as int, self.entries(d as int).len() - 1, name@);
        }
        Ok(())
    }

    /// Removes `name` from directory `d`; a directory may only be
    /// unlinked while empty.
    pub fn unlink(&mut self, d: usize, name: &[u8]) -> (r: Result<(), FsError>)
        requires
            old(self).wf(),
            0 <= d < old(self).len(),
        ensures
            final(self).wf(),
            !old(self).is_dir(d as int) ==> r == Result::<(), FsError>::Err(FsError::NotDir)
                && *final(self) == *old(self),
            old(self).is_dir(d as int) && !old(self).dir_has(d as int, name@) ==> r == Result::<
                (),
                FsError,
            >::Err(FsError::EntryNotFound) && *final(self) == *old(self),
            old(self).is_dir(d as int) && old(self).dir_has(d as int, name@) && old(self).is_dir(
                old(self).ino_of(d as int, name@) as int,
            ) && old(self).entries(old(self).ino_of(d as int, name@) as int).len() > 0 ==> r
                == Result::<(), FsError>::Err(FsError::DirNotEmpty) && *final(self) == *old(self),
            old(self).is_dir(d as int) && old(self).dir_has(d as int, name@) && !(old(self).is_dir(
                old(self).ino_of(d as int, name@) as int,
            ) && old(self).entries(old(self).ino_of(d as int, name@) as int).len() > 0) ==> {
                &&& r == Result::<(), FsError>::Ok(())
                &&& final(self).len() == old(self).len()
                &&& final(self).entries(d as int) == old(self).entries(d as int).remove(
                    old(self).entry_index(d as int, name@),
                )
                &&& !final(self).dir_has(d as int, name@)
                &&& (forall|j: int|
                    0 <= j < old(self).len() && j != d && j != old(self).ino_of(d as int, name@)
                        ==> final(self).nodes@[j] == old(self).nodes@[j])
                &&& final(self).nodes@[old(self).ino_of(d as int, name@) as int].kind == old(self).nodes@[old(self).ino_of(d as int, name@) as int].kind
            },
    {
        let dir_check = match &self.nodes[d].kind {
            NodeKind::Dir(_) => true,
            _ => false,
        };
        if !dir_check {
            return Err(FsError::NotDir);
        }
        let k = match self.find_index(d, name) {
            Some(k) => k,
            None => {
                return Err(FsError::EntryNotFound);
            },
        };
        let target = match &self.nodes[d].kind {
            NodeKind::Dir(es) => es[k].ino,
            _ => 0,
        };
        let target_nonempty_dir = match &self.nodes[target].kind {
            NodeKind::Dir(tes) => tes.len() > 0,
            _ => false,
        };
        if target_nonempty_dir {
            return Err(FsError::DirNotEmpty);
        }
        let ghost pre = *self;
        let mut dnode = FsTree::blank_node();
        self.nodes.set_and_swap(d, &mut dnode);
        match &mut dnode.kind {
            NodeKind::Dir(es) => {
                es.remove(k);
            },
            _ => {
                proof {
                    assert(false);
                }
            },
        }
        self.nodes.set_and_swap(d, &mut dnode);
        let mut tnode = FsTree::blank_node();
        self.nodes.set_and_swap(target, &mut tnode);
        if tnode.nlinks > 0 {
            tnode.nlinks = tnode.nlinks - 1;
        }
        self.nodes.set_and_swap(target, &mut tnode);
        proof {
            let dd = d as int;
            let ki = k as int;
            assert(self.entries(dd) =~= pre.entries(dd).remove(ki));
            assert forall|kk: int|
                0 <= kk < self.entries(dd).len() implies (#[trigger] self.entries(dd)[kk]).ino
                    < pre.len() by {
                if kk < ki {
                    assert(self.entries(dd)[kk] == pre.entries(dd)[kk]);
                } else {
                    assert(self.entries(dd)[kk] == pre.entries(dd)[kk + 1]);
                }
            }
            assert forall|a: int, b: int|
                0 <= a < b < self.entries(dd).len() implies (#[trigger] self.entries(
                dd,
            )[a]).name@ != (#[trigger] self.entries(dd)[b]).name@ by {
                let a2 = if a < ki { a } else { a + 1 };
                let b2 = if b < ki { b } else { b + 1 };
                assert(self.entries(dd)[a] == pre.entries(dd)[a2]);
                assert(self.entries(dd)[b] == pre.entries(dd)[b2]);
                pre.lemma_entries_unique(dd, a2, b2);
            }
            self.lemma_dir_update_wf(pre, dd);
            assert(!self.dir_has(dd, name@)) by {
                if self.dir_has(dd, name@) {
                    let kk = self.entry_index(dd, name@);
                    assert(0 <= kk < self.entries(dd).len() && self.entries(dd)[kk].name@
                        == name@);
                    let k2 = if kk < ki { kk } else { kk + 1 };
                    assert(self.entries(dd)[kk] == pre.entries(dd)[k2]);
                    pre.lemma_entry_index(dd, k2, name@);
                }
            }
        }
        Ok(())
    }

    /// Renames `old_name` to `new_name` within directory `d`: the entry
    /// keeps referring to the same inode. This is the same-parent fast
    /// path; it never moves an entry between directories.
    pub fn rename(&mut self, d: usize, old_name: &[u8], new_name: &[u8]) -> (r: Result<
        (),
        FsError,
    >)
        requires
            old(self).wf(),
            0 <= d < old(self).len(),
        ensures
            final(self).wf(),
            !old(self).is_dir(d as int) ==> r == Result::<(), FsError>::Err(FsError::NotDir)
                && *final(self) == *old(self),
            old(self).is_dir(d as int) && !old(self).dir_has(d as int, old_name@) ==> r
                == Result::<(), FsError>::Err(FsError::EntryNotFound) && *final(self) == *old(self),
            old(self).is_dir(d as int) && old(self).dir_has(d as int, old_name@) && old(self).dir_has(d as int, new_name@) ==> r == Result::<(), FsError>::Err(FsError::EntryExist)
                && *final(self) == *old(self),
            old(self).is_dir(d as int) && old(self).dir_has(d as int, old_name@) && !old(self).dir_has(d as int, new_name@) ==> {
                &&& r == Result::<(), FsError>::Ok(())
                &&& final(self).len() == old(self).len()
                &&& final(self).entries(d as int).len() == old(self).entries(d as int).len()
                &&& (forall|k: int|
                    0 <= k < old(self).entries(d as int).len() && k != old(self).entry_index(
                        d as int,
                        old_name@,
                    ) ==> final(self).entries(d as int)[k] == old(self).entries(d as int)[k])
                &&& final(self).entries(d as int)[old(self).entry_index(d as int, old_name@)].name@
                    == new_name@
                &&& final(self).entries(d as int)[old(self).entry_index(d as int, old_name@)].ino
                    == old(self).ino_of(d as int, old_name@)
                &&& final(self).dir_has(d as int, new_name@)
                &&& final(self).ino_of(d as int, new_name@) == old(self).ino_of(d as int, old_name@)
                &&& !final(self).dir_has(d as int, old_name@)
                &&& (forall|j: int|
                    0 <= j < old(self).len() && j != d ==> final(self).nodes@[j] == old(self).nodes@[j])
            },
    {
        let dir_check = match &self.nodes[d].kind {
            NodeKind::Dir(_) => true,
            _ => false,
        };
        if !dir_check {
            return Err(FsError::NotDir);
        }
        let k = match self.find_index(d, old_name) {
            Some(k) => k,
            None => {
                return Err(FsError::EntryNotFound);
            },
        };
        if self.find_index(d, new_name).is_some() {
            return Err(FsError::EntryExist);
        }
        let ino = match &self.nodes[d].kind {
            NodeKind::Dir(es) => es[k].ino,
            _ => 0,
        };
        let ghost pre = *self;
        let mut dnode = FsTree::blank_node();
        self.nodes.set_and_swap(d, &mut dnode);
        match &mut dnode.kind {
            NodeKind::Dir(es) => {
                es.set(k, DirEntry { name: vstd::slice::slice_to_vec(new_name), ino });
            },
            _ => {
                proof {
                    assert(false);
                }
            },
        }
        self.nodes.set_and_swap(d, &mut dnode);
        proof {
            let dd = d as int;
            let ki = k as int;
            assert forall|kk: int|
                0 <= kk < self.entries(dd).len() implies (#[trigger] self.entries(dd)[kk]).ino
                    < pre.len() by {
                if kk != ki {
                    assert(self.entries(dd)[kk] == pre.entries(dd)[kk]);
                } else {
                    assert(self.entries(dd)[kk].ino == pre.entries(dd)[ki].ino);
                }
            }
            assert forall|a: int, b: int|
                0 <= a < b < self.entries(dd).len() implies (#[trigger] self.entries(
                dd,
            )[a]).name@ != (#[trigger] self.entries(dd)[b]).name@ by {
                if a != ki && b != ki {
                    assert(self.entries(dd)[a] == pre.entries(dd)[a]);
                    assert(self.entries(dd)[b] == pre.entries(dd)[b]);
                    pre.lemma_entries_unique(dd, a, b);
                } else if a == ki {
                    assert(self.entries(dd)[b] == pre.entries(dd)[b]);
                    if self.entries(dd)[b].name@ == new_name@ {
                        pre.lemma_entry_index(dd, b, new_name@);
                    }
                } else {
                    assert(self.entries(dd)[a] == pre.entries(dd)[a]);
                    if self.entries(dd)[a].name@ == new_name@ {
                        pre.lemma_entry_index(dd, a, new_name@);
                    }
                }
            }
            self.lemma_dir_update_wf(pre, dd);
            self.lemma_entry_index(dd, ki, new_name@);
            assert(!self.dir_has(dd, old_name@)) by {
                if self.dir_has(dd, old_name@) {
                    let kk = self.entry_index(dd, old_name@);
                    assert(0 <= kk < self.entries(dd).len() && self.entries(dd)[kk].name@
                        == old_name@);
                    assert(kk != ki);
                    assert(self.entries(dd)[kk] == pre.entries(dd)[kk]);
                    pre.lemma_entry_index(dd, kk, old_name@);
                }
            }
        }
        Ok(())
    }

    /// Moves `old_name` of directory `od` to directory `nd` under
    /// `new_name`: the cross-directory path of a rename. The old name
    /// disappears, the new name refers to the same inode.
    #[verifier::rlimit(60)]
    pub fn move_entry(&mut self, od: usize, old_name: &[u8], nd: usize, new_name: &[u8]) -> (r:
        Result<(), FsError>)
        requires
            old(self).wf(),
            0 <= od < old(self).len(),
            0 <= nd < old(self).len(),
            od != nd,
        ensures
            final(self).wf(),
            !(old(self).is_dir(od as int) && old(self).is_dir(nd as int)) ==> r == Result::<
                (),
                FsError,
            >::Err(FsError::NotDir) && *final(self) == *old(self),
            old(self).is_dir(od as int) && old(self).is_dir(nd as int) && !old(self).dir_has(
                od as int,
                old_name@,
            ) ==> r == Result::<(), FsError>::Err(FsError::EntryNotFound) && *final(self) == *old(self),
            old(self).is_dir(od as int) && old(self).is_dir(nd as int) && old(self).dir_has(
                od as int,
                old_name@,
            ) && old(self).dir_has(nd as int, new_name@) ==> r == Result::<(), FsError>::Err(
                FsError::EntryExist,
            ) && *final(self) == *old(self),
            old(self).is_dir(od as int) && old(self).is_dir(nd as int) && old(self).dir_has(
                od as int,
                old_name@,
            ) && !old(self).dir_has(nd as int, new_name@) && (old(self).ino_of(od as int, old_name@)
                == od || old(self).ino_of(od as int, old_name@) == nd) ==> r == Result::<
                (),
                FsError,
            >::Err(FsError::InvalidParam) && *final(self) == *old(self),
            old(self).is_dir(od as int) && old(self).is_dir(nd as int) && old(self).dir_has(
                od as int,
                old_name@,
            ) && !old(self).dir_has(nd as int, new_name@) && old(self).ino_of(od as int, old_name@)
                != od && old(self).ino_of(od as int, old_name@) != nd ==> {
                &&& r == Result::<(), FsError>::Ok(())
                &&& final(self).len() == old(self).len()
                &&& final(self).entries(od as int) == old(self).entries(od as int).remove(
                    old(self).entry_index(od as int, old_name@),
                )
                &&& !final(self).dir_has(od as int, old_name@)
                &&& final(self).entries(nd as int).len() == old(self).entries(nd as int).len() + 1
                &&& (forall|k: int|
                    0 <= k < old(self).entries(nd as int).len() ==> final(self).entries(
                        nd as int,
                    )[k] == old(self).entries(nd as int)[k])
                &&& final(self).entries(nd as int).last().name@ == new_name@
                &&& final(self).entries(nd as int).last().ino == old(self).ino_of(
                    od as int,
                    old_name@,
                )
                &&& final(self).dir_has(nd as int, new_name@)
                &&& final(self).ino_of(nd as int, new_name@) == old(self).ino_of(
                    od as int,
                    old_name@,
                )
                &&& final(self).nodes@[old(self).ino_of(od as int, old_name@) as int].kind == old(self).nodes@[old(self).ino_of(od as int, old_name@) as int].kind
                &&& (forall|j: int|
                    0 <= j < old(self).len() && j != od && j != nd && j != old(self).ino_of(
                        od as int,
                        old_name@,
                    ) ==> final(self).nodes@[j] == old(self).nodes@[j])
            },
    {
        let od_dir = match &self.nodes[od].kind {
            NodeKind::Dir(_) => true,
            _ => false,
        };
        let nd_dir = match &self.nodes[nd].kind {
            NodeKind::Dir(_) => true,
            _ => false,
        };
        if !od_dir || !nd_dir {
            return Err(FsError::NotDir);
        }
        let k = match self.find_index(od, old_name) {
            Some(k) => k,
            None => {
                return Err(FsError::EntryNotFound);
            },
        };
        if self.find_index(nd, new_name).is_some() {
            return Err(FsError::EntryExist);
        }
        let ino = match &self.nodes[od].kind {
            NodeKind::Dir(es) => es[k].ino,
            _ => 0,
        };
        if ino == od || ino == nd {
            return Err(FsError::InvalidParam);
        }
        let ghost pre = *self;
        let mut onode = FsTree::blank_node();
        self.nodes.set_and_swap(od, &mut onode);
        match &mut onode.kind {
            NodeKind::Dir(es) => {
                es.remove(k);
            },
            _ => {
                proof {
                    assert(false);
                }
            },
        }
        self.nodes.set_and_swap(od, &mut onode);
        let mut nnode = FsTree::blank_node();
        self.nodes.set_and_swap(nd, &mut nnode);
        match &mut nnode.kind {
            NodeKind::Dir(es) => {
                es.push(DirEntry { name: vstd::slice::slice_to_vec(new_name), ino });
            },
            _ => {
                proof {
                    assert(false);
                }
            },
        }
        self.nodes.set_and_swap(nd, &mut nnode);
        let moved_is_dir = match &self.nodes[ino].kind {
            NodeKind::Dir(_) => true,
            _ => false,
        };
        if moved_is_dir {
            let mut mnode = FsTree::blank_node();
            self.nodes.set_and_swap(ino, &mut mnode);
            mnode.parent = nd;
            self.nodes.set_and_swap(ino, &mut mnode);
        }
        proof {
            assert(self.entries(od as int) =~= pre.entries(od as int).remove(k as int));
            self.lemma_move_shape(pre, od as int, nd as int, k as int, ino as int, old_name@,
                new_name@);
        }
        Ok(())
    }

    /// The shape argument behind `move_entry`: removing the entry from
    /// the old directory and appending it to the new one keeps the tree
    /// well formed, and lookups land as expected.
    #[verifier::spinoff_prover]
    #[verifier::rlimit(60)]
    proof fn lemma_move_shape(
        &self,
        pre: FsTree,
        odi: int,
        ndi: int,
        ki: int,
        mi: int,
        old_name: Seq<u8>,
        new_name: Seq<u8>,
    )
        requires
            pre.wf(),
            0 <= odi < pre.len(),
            0 <= ndi < pre.len(),
            odi != ndi,
            0 <= mi < pre.len(),
            mi != odi,
            mi != ndi,
            pre.is_dir(odi),
            pre.is_dir(ndi),
            0 <= ki < pre.entries(odi).len(),
            pre.entries(odi)[ki].name@ == old_name,
            pre.entries(odi)[ki].ino == mi,
            !pre.dir_has(ndi, new_name),
            self.len() == pre.len(),
            self.is_dir(odi),
            self.is_dir(ndi),
            self.nodes@[odi].parent == pre.nodes@[odi].parent,
            self.nodes@[ndi].parent == pre.nodes@[ndi].parent,
            self.entries(odi) == pre.entries(odi).remove(ki),
            self.entries(ndi).len() == pre.entries(ndi).len() + 1,
            forall|kk: int|
                0 <= kk < pre.entries(ndi).len() ==> self.entries(ndi)[kk] == pre.entries(
                    ndi,
                )[kk],
            self.entries(ndi).last().name@ == new_name,
            self.entries(ndi).last().ino == mi,
            forall|j: int|
                0 <= j < pre.len() && j != odi && j != ndi && j != mi ==> self.nodes@[j]
                    == pre.nodes@[j],
            self.nodes@[mi].kind == pre.nodes@[mi].kind,
            self.is_dir(mi) ==> self.nodes@[mi].parent as int == ndi,
            !self.is_dir(mi) ==> self.nodes@[mi].parent == pre.nodes@[mi].parent,
        ensures
            self.wf(),
            self.dir_has(ndi, new_name),
            self.ino_of(ndi, new_name) == mi,
            !self.dir_has(odi, old_name),
    {
        assert(self.is_dir(0)) by {
            if odi != 0 && ndi != 0 && mi != 0 {
                assert(self.nodes@[0] == pre.nodes@[0]);
            } else if mi == 0 {
                assert(self.nodes@[0].kind == pre.nodes@[0].kind);
            }
        }
        assert forall|dx: int, kk: int|
            0 <= dx < self.len() && self.is_dir(dx) && 0 <= kk < self.entries(dx).len() implies (
        #[trigger] self.entries(dx)[kk]).ino < self.len() by {
            if dx == odi {
                let k2 = if kk < ki { kk } else { kk + 1 };
                assert(self.entries(odi)[kk] == pre.entries(odi)[k2]);
            } else if dx == ndi {
                if kk < pre.entries(ndi).len() {
                    assert(self.entries(ndi)[kk] == pre.entries(ndi)[kk]);
                } else {
                    assert(self.entries(ndi)[kk].ino == mi);
                }
            } else {
                assert(self.nodes@[dx].kind == pre.nodes@[dx].kind);
                assert(self.entries(dx) == pre.entries(dx));
                assert(pre.entries(dx)[kk].ino < pre.len());
            }
        }
        assert forall|dx: int, a: int, b: int|
            0 <= dx < self.len() && self.is_dir(dx) && 0 <= a < b < self.entries(dx).len() implies
            (#[trigger] self.entries(dx)[a]).name@ != (#[trigger] self.entries(dx)[b]).name@ by {
            if dx == odi {
                let a2 = if a < ki { a } else { a + 1 };
                let b2 = if b < ki { b } else { b + 1 };
                assert(self.entries(odi)[a] == pre.entries(odi)[a2]);
                assert(self.entries(odi)[b] == pre.entries(odi)[b2]);
                pre.lemma_entries_unique(odi, a2, b2);
            } else if dx == ndi {
                if b < pre.entries(ndi).len() {
                    assert(self.entries(ndi)[a] == pre.entries(ndi)[a]);
                    assert(self.entries(ndi)[b] == pre.entries(ndi)[b]);
                    pre.lemma_entries_unique(ndi, a, b);
                } else {
                    assert(self.entries(ndi)[a] == pre.entries(ndi)[a]);
                    if self.entries(ndi)[a].name@ == new_name {
                        pre.lemma_entry_index(ndi, a, new_name);
                    }
                }
            } else {
                assert(self.nodes@[dx].kind == pre.nodes@[dx].kind);
                assert(self.entries(dx) == pre.entries(dx));
                pre.lemma_entries_unique(dx, a, b);
            }
        }
        assert forall|dx: int| 0 <= dx < self.len() && self.is_dir(dx) implies 0 <= (
        #[trigger] self.nodes@[dx]).parent < self.len() && self.is_dir(
            self.nodes@[dx].parent as int,
        ) by {
            let p = self.nodes@[dx].parent as int;
            if dx == mi {
                assert(p == ndi);
                assert(self.is_dir(ndi));
            } else {
                if dx != odi && dx != ndi {
                    assert(self.nodes@[dx] == pre.nodes@[dx]);
                }
                assert(pre.is_dir(dx));
                assert(p == pre.nodes@[dx].parent as int);
                if p == odi {
                    assert(self.is_dir(odi));
                } else if p == ndi {
                    assert(self.is_dir(ndi));
                } else if p == mi {
                    assert(self.nodes@[p].kind == pre.nodes@[p].kind);
                } else {
                    assert(self.nodes@[p] == pre.nodes@[p]);
                }
            }
        }
        self.lemma_entry_index(ndi, self.entries(ndi).len() - 1, new_name);
        assert(!self.dir_has(odi, old_name)) by {
            if self.dir_has(odi, old_name) {
                let kk = self.entry_index(odi, old_name);
                assert(0 <= kk < self.entries(odi).len() && self.entries(odi)[kk].name@
                    == old_name);
                let k2 = if kk < ki { kk } else { kk + 1 };
                assert(self.entries(odi)[kk] == pre.entries(odi)[k2]);
                pre.lemma_entry_index(odi, k2, old_name);
            }
        }
    }

    /// Re-establishing well-formedness after a non-directory node
    /// changed in place: no directory is affected.
    proof fn lemma_nondir_update_wf(&self, pre: FsTree, m: int)
        requires
            pre.wf(),
            0 <= m < pre.len(),
            !pre.is_dir(m),
            !self.is_dir(m),
            self.len() == pre.len(),
            forall|j: int| 0 <= j < pre.len() && j != m ==> self.nodes@[j] == pre.nodes@[j],
        ensures
            self.wf(),
    {
        assert(self.is_dir(0)) by {
            assert(self.nodes@[0] == pre.nodes@[0]);
        }
        assert forall|dx: int, kk: int|
            0 <= dx < self.len() && self.is_dir(dx) && 0 <= kk < self.entries(dx).len() implies (
        #[trigger] self.entries(dx)[kk]).ino < self.len() by {
            assert(self.nodes@[dx] == pre.nodes@[dx]);
            assert(self.entries(dx) == pre.entries(dx));
            assert(pre.entries(dx)[kk].ino < pre.len());
        }
        assert forall|dx: int, a: int, b: int|
            0 <= dx < self.len() && self.is_dir(dx) && 0 <= a < b < self.entries(dx).len() implies
            (#[trigger] self.entries(dx)[a]).name@ != (#[trigger] self.entries(dx)[b]).name@ by {
            assert(self.nodes@[dx] == pre.nodes@[dx]);
            assert(self.entries(dx) == pre.entries(dx));
            pre.lemma_entries_unique(dx, a, b);
        }
        assert forall|dx: int| 0 <= dx < self.len() && self.is_dir(dx) implies 0 <= (
        #[trigger] self.nodes@[dx]).parent < self.len() && self.is_dir(
            self.nodes@[dx].parent as int,
        ) by {
            assert(self.nodes@[dx] == pre.nodes@[dx]);
            assert(pre.is_dir(dx));
            let p = pre.nodes@[dx].parent as int;
            if p != m {
                assert(self.nodes@[p] == pre.nodes@[p]);
            } else {
                assert(self.nodes@[p].kind == pre.nodes@[p].kind);
            }
        }
    }

    /// Resizes regular file `i`, truncating or zero-extending its
    /// contents. Directories report "not a file", consoles "not
    /// supported".
    pub fn resize(&mut self, i: usize, len: usize) -> (r: Result<(), FsError>)
        requires
            old(self).wf(),
            0 <= i < old(self).len(),
        ensures
            final(self).wf(),
            old(self).is_dir(i as int) ==> r == Result::<(), FsError>::Err(FsError::NotFile)
                && *final(self) == *old(self),
            !old(self).is_dir(i as int) && !old(self).is_file(i as int) ==> r == Result::<
                (),
                FsError,
            >::Err(FsError::NotSupported) && *final(self) == *old(self),
            old(self).is_file(i as int) ==> {
                &&& r == Result::<(), FsError>::Ok(())
                &&& final(self).len() == old(self).len()
                &&& final(self).is_file(i as int)
                &&& final(self).file_data(i as int).len() == len
                &&& (forall|x: int|
                    0 <= x < len && x < old(self).file_data(i as int).len() ==> final(self).file_data(i as int)[x] == old(self).file_data(i as int)[x])
                &&& (forall|x: int|
                    old(self).file_data(i as int).len() <= x < len ==> final(self).file_data(
                        i as int,
                    )[x] == 0)
                &&& (forall|j: int|
                    0 <= j < old(self).len() && j != i ==> final(self).nodes@[j] == old(self).nodes@[j])
                &&& final(self).nodes@[i as int].nlinks == old(self).nodes@[i as int].nlinks
                &&& final(self).nodes@[i as int].mode == old(self).nodes@[i as int].mode
            },
    {
        let kind_tag: u8 = match &self.nodes[i].kind {
            NodeKind::File(_) => 0,
            NodeKind::Dir(_) => 1,
            _ => 2,
        };
        if kind_tag == 1 {
            return Err(FsError::NotFile);
        }
        if kind_tag == 2 {
            return Err(FsError::NotSupported);
        }
        let ghost pre = *self;
        let mut node = FsTree::blank_node();
        self.nodes.set_and_swap(i, &mut node);
        match &mut node.kind {
            NodeKind::File(data) => {
                if len <= data.len() {
                    data.truncate(len);
                } else {
                    while data.len() < len
                        invariant
                            data@.len() <= len,
                            pre.is_file(i as int),
                            data@.len() >= pre.file_data(i as int).len(),
                            forall|x: int|
                                0 <= x < pre.file_data(i as int).len() ==> data@[x]
                                    == pre.file_data(i as int)[x],
                            forall|x: int|
                                pre.file_data(i as int).len() <= x < data@.len() ==> data@[x]
                                    == 0,
                        decreases len - data@.len(),
                    {
                        data.push(0u8);
                    }
                }
            },
            _ => {
                proof {
                    assert(false);
                }
            },
        }
        self.nodes.set_and_swap(i, &mut node);
        proof {
            self.lemma_nondir_update_wf(pre, i as int);
        }
        Ok(())
    }

    /// Reads up to `len` bytes of regular file `i` from `offset`; short
    /// at end of file, empty beyond it. Directories report "is a
    /// directory", consoles "not supported" (console reads go through
    /// the descriptor layer, which knows how to block).
    pub fn file_read_at(&self, i: usize, offset: usize, len: usize) -> (r: Result<Vec<u8>, FsError>)
        requires
            self.wf(),
            0 <= i < self.len(),
        ensures
            self.is_dir(i as int) ==> r == Result::<Vec<u8>, FsError>::Err(FsError::IsDir),
            !self.is_dir(i as int) && !self.is_file(i as int) ==> r == Result::<Vec<u8>, FsError>::Err(
                FsError::NotSupported,
            ),
            self.is_file(i as int) ==> (r matches Ok(v) && v@ == read_span(
                self.file_data(i as int),
                offset as int,
                len as int,
            )),
    {
        match &self.nodes[i].kind {
            NodeKind::File(data) => {
                let size = data.len();
                let start = if offset < size {
                    offset
                } else {
                    size
                };
                let n = if len < size - start {
                    len
                } else {
                    size - start
                };
                let mut out: Vec<u8> = Vec::new();
                let mut x: usize = 0;
                while x < n
                    invariant
                        data@.len() <= usize::MAX,
                        start + n <= data@.len(),
                        x <= n,
                        out@.len() == x,
                        forall|y: int| 0 <= y < x ==> out@[y] == data@[start + y],
                    decreases n - x,
                {
                    out.push(data[start + x]);
                    x = x + 1;
                }
                proof {
                    assert(out@ =~= read_span(self.file_data(i as int), offset as int, len as int));
                }
                Ok(out)
            },
            NodeKind::Dir(_) => Err(FsError::IsDir),
            _ => Err(FsError::NotSupported),
        }
    }

    /// Writes `data` into regular file `i` at `offset`, zero-filling
    /// any gap beyond the old end. Directories report "is a directory",
    /// consoles "not supported" (console writes go through the
    /// descriptor layer).
    pub fn file_write_at(&mut self, i: usize, offset: usize, data: &[u8]) -> (r: Result<
        usize,
        FsError,
    >)
        requires
            old(self).wf(),
            0 <= i < old(self).len(),
        ensures
            final(self).wf(),
            old(self).is_dir(i as int) ==> r == Result::<usize, FsError>::Err(FsError::IsDir)
                && *final(self) == *old(self),
            !old(self).is_dir(i as int) && !old(self).is_file(i as int) ==> r == Result::<
                usize,
                FsError,
            >::Err(FsError::NotSupported) && *final(self) == *old(self),
            old(self).is_file(i as int) && offset + data@.len() > usize::MAX ==> r == Result::<
                usize,
                FsError,
            >::Err(FsError::NoDeviceSpace) && *final(self) == *old(self),
            old(self).is_file(i as int) && offset + data@.len() <= usize::MAX ==> {
                &&& r == Result::<usize, FsError>::Ok(data@.len() as usize)
                &&& final(self).len() == old(self).len()
                &&& final(self).is_file(i as int)
                &&& final(self).file_data(i as int) == write_span(
                    old(self).file_data(i as int),
                    offset as int,
                    data@,
                )
                &&& (forall|j: int|
                    0 <= j < old(self).len() && j != i ==> final(self).nodes@[j] == old(self).nodes@[j])
                &&& final(self).nodes@[i as int].nlinks == old(self).nodes@[i as int].nlinks
                &&& final(self).nodes@[i as int].mode == old(self).nodes@[i as int].mode
            },
    {
        let kind_tag: u8 = match &self.nodes[i].kind {
            NodeKind::File(_) => 0,
            NodeKind::Dir(_) => 1,
            _ => 2,
        };
        if kind_tag == 1 {
            return Err(FsError::IsDir);
        }
        if kind_tag == 2 {
            return Err(FsError::NotSupported);
        }
        if usize::MAX - data.len() < offset {
            return Err(FsError::NoDeviceSpace);
        }
        let ghost pre = *self;
        let mut node = FsTree::blank_node();
        self.nodes.set_and_swap(i, &mut node);
        match &mut node.kind {
            NodeKind::File(buf) => {
                while buf.len() < offset
                    invariant
                        pre.is_file(i as int),
                        buf@.len() <= offset || buf@.len() == pre.file_data(i as int).len(),
                        buf@.len() >= pre.file_data(i as int).len(),
                        forall|x: int|
                            0 <= x < pre.file_data(i as int).len() ==> buf@[x] == pre.file_data(
                                i as int,
                            )[x],
                        forall|x: int|
                            pre.file_data(i as int).len() <= x < buf@.len() ==> buf@[x] == 0,
                    decreases offset - buf@.len(),
                {
                    buf.push(0u8);
                }
                let mut x: usize = 0;
                while x < data.len()
                    invariant
                        pre.is_file(i as int),
                        offset + data@.len() <= usize::MAX,
                        x <= data@.len(),
                        buf@.len() >= offset || x == 0,
                        buf@.len() >= pre.file_data(i as int).len() || buf@.len() >= offset + x,
                        x > 0 ==> buf@.len() >= offset + x,
                        buf@.len() >= offset,
                        forall|y: int|
                            0 <= y < buf@.len() && !(offset <= y < offset + x) && y < pre.file_data(
                                i as int,
                            ).len() ==> buf@[y] == pre.file_data(i as int)[y],
                        forall|y: int|
                            0 <= y < buf@.len() && !(offset <= y < offset + x) && y
                                >= pre.file_data(i as int).len() ==> buf@[y] == 0,
                        forall|y: int| offset <= y < offset + x ==> buf@[y] == data@[y - offset],
                        buf@.len() as int == if pre.file_data(i as int).len() >= offset + x {
                            pre.file_data(i as int).len() as int
                        } else {
                            offset + x
                        },
                    decreases data@.len() - x,
                {
                    let pos = offset + x;
                    if pos < buf.len() {
                        buf.set(pos, data[x]);
                    } else {
                        buf.push(data[x]);
                    }
                    x = x + 1;
                }
            },
            _ => {
                proof {
                    assert(false);
                }
            },
        }
        self.nodes.set_and_swap(i, &mut node);
        proof {
            self.lemma_nondir_update_wf(pre, i as int);
            assert(self.file_data(i as int) =~= write_span(
                pre.file_data(i as int),
                offset as int,
                data@,
            ));
        }
        Ok(data.len())
    }

    /// Appends an arriving character to console node `i` (the wake
    /// signal accompanying it belongs to the runtime).
    pub fn console_push(&mut self, i: usize, c: char) -> (r: Result<(), FsError>)
        requires
            old(self).wf(),
            0 <= i < old(self).len(),
        ensures
            final(self).wf(),
            !old(self).is_console_in(i as int) ==> r == Result::<(), FsError>::Err(
                FsError::NotSupported,
            ) && *final(self) == *old(self),
            old(self).is_console_in(i as int) ==> {
                &&& r == Result::<(), FsError>::Ok(())
                &&& final(self).len() == old(self).len()
                &&& final(self).console_pending(i as int) == old(self).console_pending(
                    i as int,
                ).push(c)
                &&& (forall|j: int|
                    0 <= j < old(self).len() && j != i ==> final(self).nodes@[j] == old(self).nodes@[j])
                &&& final(self).is_console_in(i as int)
            },
    {
        let ok = match &self.nodes[i].kind {
            NodeKind::ConsoleIn(_) => true,
            _ => false,
        };
        if !ok {
            return Err(FsError::NotSupported);
        }
        let ghost pre = *self;
        let mut node = FsTree::blank_node();
        self.nodes.set_and_swap(i, &mut node);
        match &mut node.kind {
            NodeKind::ConsoleIn(stdin) => {
                stdin.push(c);
            },
            _ => {
                proof {
                    assert(false);
                }
            },
        }
        self.nodes.set_and_swap(i, &mut node);
        proof {
            self.lemma_nondir_update_wf(pre, i as int);
        }
        Ok(())
    }

    /// Takes the oldest pending character of console node `i`; `None`
    /// when the queue is empty at check time, upon which the caller
    /// blocks on the wake signal and re-checks.
    pub fn console_pop(&mut self, i: usize) -> (r: Result<Option<char>, FsError>)
        requires
            old(self).wf(),
            0 <= i < old(self).len(),
        ensures
            final(self).wf(),
            !old(self).is_console_in(i as int) ==> r == Result::<Option<char>, FsError>::Err(
                FsError::NotSupported,
            ) && *final(self) == *old(self),
            old(self).is_console_in(i as int) && old(self).console_pending(i as int).len() == 0
                ==> {
                &&& r == Result::<Option<char>, FsError>::Ok(None)
                &&& final(self).len() == old(self).len()
                &&& final(self).console_pending(i as int) == old(self).console_pending(i as int)
                &&& (forall|j: int|
                    0 <= j < old(self).len() && j != i ==> final(self).nodes@[j] == old(self).nodes@[j])
                &&& final(self).is_console_in(i as int)
            },
            old(self).is_console_in(i as int) && old(self).console_pending(i as int).len() > 0
                ==> {
                &&& r == Result::<Option<char>, FsError>::Ok(
                    Some(old(self).console_pending(i as int)[0]),
                )
                &&& final(self).len() == old(self).len()
                &&& final(self).console_pending(i as int) == old(self).console_pending(
                    i as int,
                ).drop_first()
                &&& (forall|j: int|
                    0 <= j < old(self).len() && j != i ==> final(self).nodes@[j] == old(self).nodes@[j])
                &&& final(self).is_console_in(i as int)
            },
    {
        let ok = match &self.nodes[i].kind {
            NodeKind::ConsoleIn(_) => true,
            _ => false,
        };
        if !ok {
            return Err(FsError::NotSupported);
        }
        let ghost pre = *self;
        let mut node = FsTree::blank_node();
        self.nodes.set_and_swap(i, &mut node);
        let mut out: Option<char> = None;
        match &mut node.kind {
            NodeKind::ConsoleIn(stdin) => {
                out = stdin.pop();
            },
            _ => {
                proof {
                    assert(false);
                }
            },
        }
        self.nodes.set_and_swap(i, &mut node);
        proof {
            self.lemma_nondir_update_wf(pre, i as int);
        }
        Ok(out)
    }

    /// The non-blocking queue-non-empty check of console node `i`.
    pub fn console_can_read(&self, i: usize) -> (r: bool)
        requires
            self.wf(),
            0 <= i < self.len(),
        ensures
            r == (self.is_console_in(i as int) && self.console_pending(i as int).len() > 0),
    {
        match &self.nodes[i].kind {
            NodeKind::ConsoleIn(stdin) => stdin.can_read(),
            _ => false,
        }
    }

    /// Hands `data` to console output node `i`: accepted immediately
    /// and in full, kept for the runtime to print.
    pub fn console_write(&mut self, i: usize, data: &[u8]) -> (r: Result<usize, FsError>)
        requires
            old(self).wf(),
            0 <= i < old(self).len(),
        ensures
            final(self).wf(),
            !old(self).is_console_out(i as int) ==> r == Result::<usize, FsError>::Err(
                FsError::NotSupported,
            ) && *final(self) == *old(self),
            old(self).is_console_out(i as int) ==> {
                &&& r == Result::<usize, FsError>::Ok(data@.len() as usize)
                &&& final(self).len() == old(self).len()
                &&& final(self).console_written(i as int) == old(self).console_written(i as int)
                    + data@
                &&& (forall|j: int|
                    0 <= j < old(self).len() && j != i ==> final(self).nodes@[j] == old(self).nodes@[j])
                &&& final(self).is_console_out(i as int)
            },
    {
        let ok = match &self.nodes[i].kind {
            NodeKind::ConsoleOut(_) => true,
            _ => false,
        };
        if !ok {
            return Err(FsError::NotSupported);
        }
        let ghost pre = *self;
        let mut node = FsTree::blank_node();
        self.nodes.set_and_swap(i, &mut node);
        let mut written: usize = 0;
        match &mut node.kind {
            NodeKind::ConsoleOut(stdout) => {
                written = stdout.write(data);
            },
            _ => {
                proof {
                    assert(false);
                }
            },
        }
        self.nodes.set_and_swap(i, &mut node);
        proof {
            self.lemma_nondir_update_wf(pre, i as int);
        }
        Ok(written)
    }

    /// Drains what console output node `i` has accumulated, for the
    /// runtime to hand to the terminal.
    pub fn console_take_output(&mut self, i: usize) -> (r: Result<Vec<u8>, FsError>)
        requires
            old(self).wf(),
            0 <= i < old(self).len(),
        ensures
            final(self).wf(),
            !old(self).is_console_out(i as int) ==> r == Result::<Vec<u8>, FsError>::Err(
                FsError::NotSupported,
            ) && *final(self) == *old(self),
            old(self).is_console_out(i as int) ==> {
                &&& (r matches Ok(v) && v@ == old(self).console_written(i as int))
                &&& final(self).console_written(i as int) == Seq::<u8>::empty()
                &&& (forall|j: int|
                    0 <= j < old(self).len() && j != i ==> final(self).nodes@[j] == old(self).nodes@[j])
                &&& final(self).is_console_out(i as int)
                &&& final(self).len() == old(self).len()
            },
    {
        let ok = match &self.nodes[i].kind {
            NodeKind::ConsoleOut(_) => true,
            _ => false,
        };
        if !ok {
            return Err(FsError::NotSupported);
        }
        let ghost pre = *self;
        let mut node = FsTree::blank_node();
        self.nodes.set_and_swap(i, &mut node);
        let mut out: Vec<u8> = Vec::new();
        match &mut node.kind {
            NodeKind::ConsoleOut(stdout) => {
                out = stdout.take_output();
            },
            _ => {
                proof {
                    assert(false);
                }
            },
        }
        self.nodes.set_and_swap(i, &mut node);
        proof {
            self.lemma_nondir_update_wf(pre, i as int);
        }
        Ok(out)
    }

    /// The metadata report of node `i`, as a specification.
    pub open spec fn meta_spec(&self, i: int) -> Metadata {
        let size: int = if self.is_file(i) {
            self.file_data(i).len() as int
        } else {
            self.entries(i).len() as int
        };
        Metadata {
            dev: 0,
            inode: i as usize,
            size: size as usize,
            blk_size: 4096,
            blocks: ((size + 511) / 512) as usize,
            nlinks: self.nodes@[i].nlinks,
            uid: self.nodes@[i].uid,
            gid: self.nodes@[i].gid,
            mode: self.nodes@[i].mode,
            type_: if self.is_file(i) {
                FileType::File
            } else {
                FileType::Dir
            },
            atime: Timespec { sec: 0, nsec: 0 },
            mtime: Timespec { sec: 0, nsec: 0 },
            ctime: Timespec { sec: 0, nsec: 0 },
        }
    }

    /// The metadata of node `i`. The console capabilities report "not
    /// supported", as devices outside the filesystem proper.
    pub fn metadata(&self, i: usize) -> (r: Result<Metadata, FsError>)
        requires
            self.wf(),
            0 <= i < self.len(),
        ensures
            !(self.is_file(i as int) || self.is_dir(i as int)) ==> r == Result::<
                Metadata,
                FsError,
            >::Err(FsError::NotSupported),
            self.is_file(i as int) || self.is_dir(i as int) ==> r == Result::<
                Metadata,
                FsError,
            >::Ok(self.meta_spec(i as int)),
            self.is_file(i as int) || self.is_dir(i as int) ==> (r matches Ok(m) && {
                &&& m.inode == i
                &&& m.dev == 0
                &&& m.size == if self.is_file(i as int) {
                    self.file_data(i as int).len() as int
                } else {
                    self.entries(i as int).len() as int
                }
                &&& m.blk_size == 4096
                &&& m.blocks == (m.size + 511) / 512
                &&& m.nlinks == self.nodes@[i as int].nlinks
                &&& m.uid == self.nodes@[i as int].uid
                &&& m.gid == self.nodes@[i as int].gid
                &&& m.mode == self.nodes@[i as int].mode
                &&& m.type_ == if self.is_file(i as int) {
                    FileType::File
                } else {
                    FileType::Dir
                }
                &&& m.atime == (Timespec { sec: 0, nsec: 0 })
                &&& m.mtime == (Timespec { sec: 0, nsec: 0 })
                &&& m.ctime == (Timespec { sec: 0, nsec: 0 })
            }),
    {
        let node = &self.nodes[i];
        let (size, type_): (usize, FileType) = match &node.kind {
            NodeKind::File(data) => (data.len(), FileType::File),
            NodeKind::Dir(es) => (es.len(), FileType::Dir),
            _ => {
                return Err(FsError::NotSupported);
            },
        };
        Ok(
            Metadata {
                dev: 0,
                inode: i,
                size,
                blk_size: 4096,
                blocks: (size / 512) + if size % 512 == 0 { 0 } else { 1 },
                nlinks: node.nlinks,
                uid: node.uid,
                gid: node.gid,
                mode: node.mode,
                type_,
                atime: Timespec { sec: 0, nsec: 0 },
                mtime: Timespec { sec: 0, nsec: 0 },
                ctime: Timespec { sec: 0, nsec: 0 },
            },
        )
    }

    /// The name of entry `id` of directory `d`; "entry not found" past
    /// the last one, which ends a directory listing.
    pub fn get_entry(&self, d: usize, id: usize) -> (r: Result<Vec<u8>, FsError>)
        requires
            self.wf(),
            0 <= d < self.len(),
        ensures
            !self.is_dir(d as int) ==> r == Result::<Vec<u8>, FsError>::Err(FsError::NotDir),
            self.is_dir(d as int) && id >= self.entries(d as int).len() ==> r == Result::<
                Vec<u8>,
                FsError,
            >::Err(FsError::EntryNotFound),
            self.is_dir(d as int) && id < self.entries(d as int).len() ==> (r matches Ok(v) && v@
                == self.entries(d as int)[id as int].name@),
    {
        match &self.nodes[d].kind {
            NodeKind::Dir(es) => {
                if id < es.len() {
                    Ok(vstd::slice::slice_to_vec(es[id].name.as_slice()))
                } else {
                    Err(FsError::EntryNotFound)
                }
            },
            _ => Err(FsError::NotDir),
        }
    }

    /// Flushes node `i` in full. The model holds everything in memory,
    /// so there is nothing left to write back; consoles accept the call
    /// as a no-op, as devices do.
    pub fn sync_all(&self, i: usize) -> (r: Result<(), FsError>)
        requires
            self.wf(),
            0 <= i < self.len(),
        ensures
            r == Result::<(), FsError>::Ok(()),
    {
        Ok(())
    }

    /// Flushes node `i`'s data, without metadata: a no-op for the same
    /// reason as `sync_all`.
    pub fn sync_data(&self, i: usize) -> (r: Result<(), FsError>)
        requires
            self.wf(),
            0 <= i < self.len(),
        ensures
            r == Result::<(), FsError>::Ok(()),
    {
        Ok(())
    }

    /// Device control on console node `i`: the recognized
    /// terminal-control codes are answered with fixed placeholders so
    /// that programs probing for a terminal do not fail; the
    /// get-foreground-group probe writes the placeholder group 0
    /// through the caller's pointer, validated first. Everything else,
    /// and every non-console node, reports "not supported".
    pub fn io_control(&self, i: usize, cmd: u32, data: usize, um: &mut UserMem) -> (r: Result<
        usize,
        FsError,
    >)
        requires
            self.wf(),
            old(um).wf(),
            0 <= i < self.len(),
        ensures
            final(um).wf(),
            (self.is_console_in(i as int) || self.is_console_out(i as int)) && (cmd == TCGETS
                || cmd == TIOCSPGRP || cmd == TIOCGWINSZ) ==> r == Result::<usize, FsError>::Ok(0)
                && *final(um) == *old(um),
            (self.is_console_in(i as int) || self.is_console_out(i as int)) && cmd == TIOCGPGRP
                ==> {
                &&& (!(data + 4 <= usize::MAX && old(um).range_writable(data as int, 4)) ==> r
                    == Result::<usize, FsError>::Err(FsError::InvalidParam) && *final(um) == *old(um))
                &&& (data + 4 <= usize::MAX && old(um).range_writable(data as int, 4) ==> {
                    &&& r == Result::<usize, FsError>::Ok(0)
                    &&& final(um).regions@ == old(um).regions@
                    &&& final(um).mem@.len() == old(um).mem@.len()
                    &&& crate::usermem::bytes_at(final(um).mem@, data as int, 4)
                        == crate::abi::u32_le(0)
                    &&& (forall|x: int|
                        0 <= x < final(um).mem@.len() && !(data <= x < data + 4) ==> final(um).mem@[x] == old(um).mem@[x])
                })
            },
            !((self.is_console_in(i as int) || self.is_console_out(i as int)) && (cmd == TCGETS
                || cmd == TIOCGPGRP || cmd == TIOCSPGRP || cmd == TIOCGWINSZ)) ==> r == Result::<
                usize,
                FsError,
            >::Err(FsError::NotSupported) && *final(um) == *old(um),
    {
        let console = match &self.nodes[i].kind {
            NodeKind::ConsoleIn(_) => true,
            NodeKind::ConsoleOut(_) => true,
            _ => false,
        };
        if console && (cmd == TCGETS || cmd == TIOCSPGRP || cmd == TIOCGWINSZ) {
            Ok(0)
        } else if console && cmd == TIOCGPGRP {
            if um.check_mut_array(data, 4).is_err() {
                return Err(FsError::InvalidParam);
            }
            let mut zero: Vec<u8> = Vec::new();
            zero.push(0u8);
            zero.push(0u8);
            zero.push(0u8);
            zero.push(0u8);
            um.write_bytes(data, zero.as_slice());
            proof {
                assert(0u32 & 0xff == 0) by (bit_vector);
                assert((0u32 >> 8) & 0xff == 0) by (bit_vector);
                assert((0u32 >> 16) & 0xff == 0) by (bit_vector);
                assert((0u32 >> 24) & 0xff == 0) by (bit_vector);
                assert(crate::usermem::bytes_at(um.mem@, data as int, 4) =~= crate::abi::u32_le(
                    0,
                ));
            }
            Ok(0)
        } else {
            Err(FsError::NotSupported)
        }
    }

    /// The one initialization point: a root directory and the two
    /// console capabilities, explicitly constructed.
    pub fn boot() -> (r: FsTree)
        ensures
            r.wf(),
            r.len() == 3,
            r.is_dir(ROOT_INO as int),
            r.entries(ROOT_INO as int) == Seq::<DirEntry>::empty(),
            r.is_console_in(STDIN_INO as int),
            r.console_pending(STDIN_INO as int) == Seq::<char>::empty(),
            r.is_console_out(STDOUT_INO as int),
            r.console_written(STDOUT_INO as int) == Seq::<u8>::empty(),
    {
        let mut nodes: Vec<Node> = Vec::new();
        nodes.push(
            Node {
                kind: NodeKind::Dir(Vec::new()),
                mode: 0o755,
                uid: 0,
                gid: 0,
                nlinks: 1,
                parent: 0,
            },
        );
        nodes.push(
            Node {
                kind: NodeKind::ConsoleIn(Stdin::new()),
                mode: 0o600,
                uid: 0,
                gid: 0,
                nlinks: 1,
                parent: 0,
            },
        );
        nodes.push(
            Node {
                kind: NodeKind::ConsoleOut(Stdout::new()),
                mode: 0o600,
                uid: 0,
                gid: 0,
                nlinks: 1,
                parent: 0,
            },
        );
        FsTree { nodes }
    }
}

/// Byte-wise equality of two slices.
pub fn bytes_eq(a: &[u8], b: &[u8]) -> (r: bool)
    ensures
        r == (a@ == b@),
{
    if a.len() != b.len() {
        proof {
            assert(a@ != b@);
        }
        return false;
    }
    let n = a.len();
    let mut i: usize = 0;
    while i < n
        invariant
            n == a@.len() == b@.len(),
            i <= n,
            forall|j: int| 0 <= j < i ==> a@[j] == b@[j],
        decreases n - i,
    {
        if a[i] != b[i] {
            proof {
                assert(a@[i as int] != b@[i as int]);
            }
            return false;
        }
        i = i + 1;
    }
    proof {
        assert(a@ =~= b@);
    }
    true
}

} // verus!

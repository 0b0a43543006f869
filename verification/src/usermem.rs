//! The user-memory validator: a model of the caller's address space —
//! a byte store plus the list of mapped regions — and the checks every
//! syscall makes before it dereferences a user-supplied address.
//!
//! All checks happen before any side effect: a rejected range aborts
//! the syscall with no partial writes.

use vstd::prelude::*;
use vstd::pervasive::VecAdditionalExecFns;

use crate::error::SysError;

verus! {

/// One mapped range of the caller's address space.
#[derive(Clone, Copy, Debug, PartialEq, Eq, Structural)]
pub struct MemRegion {
    pub base: usize,
    pub len: usize,
    pub writable: bool,
}

/// The `len` bytes a memory image holds from `base` on.
pub open spec fn bytes_at(mem: Seq<u8>, base: int, len: int) -> Seq<u8> {
    Seq::new(len as nat, |k: int| mem[base + k])
}

/// The caller's address space: the byte store and the regions user mode
/// may touch. Addresses outside every region are unmapped.
pub struct UserMem {
    pub mem: Vec<u8>,
    pub regions: Vec<MemRegion>,
}

/// Byte `k` of a candidate string at `base` is mapped and not the
/// terminator.
pub open spec fn cstr_byte_ok(um: UserMem, base: int, k: int) -> bool {
    um.readable_at(base + k) && um.mem@[base + k] != 0
}

/// `n` is the length of the null-terminated string at `base`: that
/// many mapped non-zero bytes, then a mapped zero.
pub open spec fn cstr_shape(um: UserMem, base: int, n: int) -> bool {
    &&& 0 <= n
    &&& base + n < usize::MAX
    &&& (forall|k: int| 0 <= k < n ==> #[trigger] cstr_byte_ok(um, base, k))
    &&& um.readable_at(base + n)
    &&& um.mem@[base + n] == 0
}

/// A well-formed null-terminated string lies at `base`.
pub open spec fn has_cstr(um: UserMem, base: int) -> bool {
    exists|n: int| #[trigger] cstr_shape(um, base, n)
}

/// The length of the string at `base` (meaningful when `has_cstr`
/// holds; unique, since the first zero ends it).
pub open spec fn cstr_len(um: UserMem, base: int) -> int {
    choose|n: int| cstr_shape(um, base, n)
}

/// The bytes of the string at `base`, without the terminator.
pub open spec fn cstr_at(um: UserMem, base: int) -> Seq<u8> {
    bytes_at(um.mem@, base, cstr_len(um, base))
}

/// A string has only one length: the first zero ends it.
pub proof fn lemma_cstr_unique(um: UserMem, base: int, n1: int, n2: int)
    requires
        cstr_shape(um, base, n1),
        cstr_shape(um, base, n2),
    ensures
        n1 == n2,
{
    if n1 < n2 {
        assert(cstr_byte_ok(um, base, n1));
    } else if n2 < n1 {
        assert(cstr_byte_ok(um, base, n2));
    }
}

impl UserMem {
    /// Every region lies inside the byte store.
    pub open spec fn wf(&self) -> bool {
        forall|i: int|
            0 <= i < self.regions@.len() ==> (#[trigger] self.regions@[i]).base
                + self.regions@[i].len <= self.mem@.len()
    }

    /// Address `a` lies in region `i`.
    pub open spec fn addr_in(&self, i: int, a: int) -> bool {
        self.regions@[i].base <= a < self.regions@[i].base + self.regions@[i].len
    }

    /// Address `a` is mapped.
    pub open spec fn readable_at(&self, a: int) -> bool {
        exists|i: int| 0 <= i < self.regions@.len() && #[trigger] self.addr_in(i, a)
    }

    /// Address `a` is mapped writable.
    pub open spec fn writable_at(&self, a: int) -> bool {
        exists|i: int|
            0 <= i < self.regions@.len() && #[trigger] self.addr_in(i, a)
                && self.regions@[i].writable
    }

    /// Every address of `[base, base+len)` is mapped.
    pub open spec fn range_readable(&self, base: int, len: int) -> bool {
        forall|a: int| base <= a < base + len ==> #[trigger] self.readable_at(a)
    }

    /// Every address of `[base, base+len)` is mapped writable.
    pub open spec fn range_writable(&self, base: int, len: int) -> bool {
        forall|a: int| base <= a < base + len ==> #[trigger] self.writable_at(a)
    }

    /// Whether one address is mapped (and, if asked, writable).
    fn addr_ok(&self, a: usize, need_write: bool) -> (r: bool)
        ensures
            need_write ==> r == self.writable_at(a as int),
            !need_write ==> r == self.readable_at(a as int),
    {
        let n = self.regions.len();
        let mut i: usize = 0;
        while i < n
            invariant
                n == self.regions@.len(),
                i <= n,
                forall|j: int|
                    0 <= j < i ==> !(#[trigger] self.addr_in(j, a as int)
                        && (self.regions@[j].writable || !need_write)),
            decreases n - i,
        {
            let r = self.regions[i];
            if r.base <= a && a - r.base < r.len && (r.writable || !need_write) {
                proof {
                    assert(self.addr_in(i as int, a as int));
                }
                return true;
            }
            i = i + 1;
        }
        false
    }

    /// Checks that a read-only range is fully mapped; rejected ranges
    /// surface as invalid-argument with nothing touched.
    pub fn check_array(&self, base: usize, len: usize) -> (r: Result<(), SysError>)
        ensures
            r is Ok <==> base + len <= usize::MAX && self.range_readable(base as int, len as int),
            r is Err ==> r == Result::<(), SysError>::Err(SysError::EINVAL),
    {
        if usize::MAX - len < base {
            return Err(SysError::EINVAL);
        }
        let mut a: usize = base;
        while a < base + len
            invariant
                base + len <= usize::MAX,
                base <= a <= base + len,
                forall|x: int| base <= x < a ==> #[trigger] self.readable_at(x),
            decreases base + len - a,
        {
            if !self.addr_ok(a, false) {
                return Err(SysError::EINVAL);
            }
            a = a + 1;
        }
        Ok(())
    }

    /// Checks that a range is fully mapped and writable; rejected ranges
    /// surface as invalid-argument with nothing touched.
    pub fn check_mut_array(&self, base: usize, len: usize) -> (r: Result<(), SysError>)
        ensures
            r is Ok <==> base + len <= usize::MAX && self.range_writable(base as int, len as int),
            r is Err ==> r == Result::<(), SysError>::Err(SysError::EINVAL),
    {
        if usize::MAX - len < base {
            return Err(SysError::EINVAL);
        }
        let mut a: usize = base;
        while a < base + len
            invariant
                base + len <= usize::MAX,
                base <= a <= base + len,
                forall|x: int| base <= x < a ==> #[trigger] self.writable_at(x),
            decreases base + len - a,
        {
            if !self.addr_ok(a, true) {
                return Err(SysError::EINVAL);
            }
            a = a + 1;
        }
        Ok(())
    }

    /// Copies `len` bytes out of user memory. The caller has already
    /// validated the range.
    pub fn read_bytes(&self, base: usize, len: usize) -> (r: Vec<u8>)
        requires
            self.wf(),
            self.range_readable(base as int, len as int),
            base + len <= usize::MAX,
        ensures
            r@.len() == len,
            forall|k: int| 0 <= k < len ==> r@[k] == self.mem@[base + k],
    {
        let mut out: Vec<u8> = Vec::new();
        let mut i: usize = 0;
        while i < len
            invariant
                self.wf(),
                self.range_readable(base as int, len as int),
                base + len <= usize::MAX,
                i <= len,
                out@.len() == i,
                forall|k: int| 0 <= k < i ==> out@[k] == self.mem@[base + k],
            decreases len - i,
        {
            proof {
                assert(self.readable_at(base + i));
                self.lemma_mapped_in_bounds(base + i as int);
            }
            out.push(self.mem[base + i]);
            i = i + 1;
        }
        out
    }

    /// Writes `data` into user memory at `base`. The caller has already
    /// validated the range writable.
    pub fn write_bytes(&mut self, base: usize, data: &[u8])
        requires
            old(self).wf(),
            old(self).range_writable(base as int, data@.len() as int),
            base + data@.len() <= usize::MAX,
        ensures
            final(self).wf(),
            final(self).regions@ == old(self).regions@,
            final(self).mem@.len() == old(self).mem@.len(),
            forall|x: int|
                base <= x < base + data@.len() ==> final(self).mem@[x] == data@[x - base],
            forall|x: int|
                0 <= x < final(self).mem@.len() && !(base <= x < base + data@.len())
                    ==> final(self).mem@[x] == old(self).mem@[x],
    {
        let len = data.len();
        let mut i: usize = 0;
        while i < len
            invariant
                len == data@.len(),
                old(self).wf(),
                old(self).range_writable(base as int, len as int),
                self.regions@ == old(self).regions@,
                base + len <= usize::MAX,
                i <= len,
                self.mem@.len() == old(self).mem@.len(),
                forall|x: int|
                    0 <= x < self.mem@.len() && !(base <= x < base + i) ==> self.mem@[x] == old(
                        self,
                    ).mem@[x],
                forall|x: int| base <= x < base + i ==> self.mem@[x] == data@[x - base],
            decreases len - i,
        {
            proof {
                assert(old(self).writable_at(base + i));
                old(self).lemma_mapped_w_in_bounds(base + i as int);
            }
            let a = base + i;
            self.mem.set(a, data[i]);
            i = i + 1;
        }
        proof {
            assert forall|j: int| 0 <= j < self.regions@.len() implies (
            #[trigger] self.regions@[j]).base + self.regions@[j].len <= self.mem@.len() by {
                assert(self.regions@[j] == old(self).regions@[j]);
            }
        }
    }

    /// A mapped address lies inside the byte store.
    pub proof fn lemma_mapped_in_bounds(&self, a: int)
        requires
            self.wf(),
            self.readable_at(a),
        ensures
            0 <= a < self.mem@.len(),
    {
    }

    /// A writable address lies inside the byte store.
    pub proof fn lemma_mapped_w_in_bounds(&self, a: int)
        requires
            self.wf(),
            self.writable_at(a),
        ensures
            0 <= a < self.mem@.len(),
    {
    }

    /// Validity of a range survives any change that keeps the region
    /// list: the checks read only the regions.
    pub proof fn lemma_writable_transfer(&self, other: &UserMem, base: int, len: int, m: int)
        requires
            self.regions@ == other.regions@,
            other.range_writable(base, len),
            0 <= m <= len,
        ensures
            self.range_writable(base, m),
    {
        assert forall|a: int| base <= a < base + m implies #[trigger] self.writable_at(a) by {
            assert(other.writable_at(a));
            let i = choose|i: int|
                0 <= i < other.regions@.len() && #[trigger] other.addr_in(i, a)
                    && other.regions@[i].writable;
            assert(self.regions@[i] == other.regions@[i]);
            assert(self.addr_in(i, a));
        }
    }

    /// Writable addresses are also readable.
    pub proof fn lemma_writable_readable(&self, base: int, len: int)
        requires
            self.range_writable(base, len),
        ensures
            self.range_readable(base, len),
    {
        assert forall|a: int| base <= a < base + len implies #[trigger] self.readable_at(a) by {
            assert(self.writable_at(a));
        }
    }

    /// Copies a null-terminated string out of user memory, checking each
    /// address before the dereference; runs off the mapped regions
    /// surface as invalid-argument.
    pub fn check_and_clone_cstr(&self, base: usize) -> (r: Result<Vec<u8>, SysError>)
        requires
            self.wf(),
        ensures
            r is Err ==> r == Result::<Vec<u8>, SysError>::Err(SysError::EINVAL) && !has_cstr(
                *self,
                base as int,
            ),
            r matches Ok(s) ==> {
                &&& has_cstr(*self, base as int)
                &&& s@ == cstr_at(*self, base as int)
                &&& self.range_readable(base as int, s@.len() as int)
                &&& base + s@.len() < usize::MAX
                &&& (forall|k: int| 0 <= k < s@.len() ==> s@[k] == self.mem@[base + k])
                &&& (forall|k: int| 0 <= k < s@.len() ==> s@[k] != 0)
                &&& self.readable_at(base as int + s@.len() as int)
                &&& self.mem@[base as int + s@.len() as int] == 0
            },
    {
        let mut out: Vec<u8> = Vec::new();
        let mut n: usize = 0;
        loop
            invariant
                self.wf(),
                base + n <= usize::MAX,
                n == out@.len(),
                n <= self.mem@.len(),
                self.range_readable(base as int, n as int),
                forall|k: int| 0 <= k < n ==> out@[k] == self.mem@[base + k],
                forall|k: int| 0 <= k < n ==> out@[k] != 0,
            decreases self.mem@.len() - n,
        {
            if usize::MAX - base == n {
                proof {
                    if has_cstr(*self, base as int) {
                        let nc = choose|m: int| cstr_shape(*self, base as int, m);
                        assert(cstr_shape(*self, base as int, nc));
                        if nc < n {
                            assert(out@[nc] != 0);
                            assert(out@[nc] == self.mem@[base + nc]);
                        } else {
                            assert(base + nc < usize::MAX);
                        }
                    }
                }
                return Err(SysError::EINVAL);
            }
            let a = base + n;
            if !self.addr_ok(a, false) {
                proof {
                    if has_cstr(*self, base as int) {
                        let nc = choose|m: int| cstr_shape(*self, base as int, m);
                        assert(cstr_shape(*self, base as int, nc));
                        if nc < n {
                            assert(out@[nc] != 0);
                            assert(out@[nc] == self.mem@[base + nc]);
                        } else if nc == n as int {
                            assert(self.readable_at(base + nc));
                        } else {
                            assert(cstr_byte_ok(*self, base as int, n as int));
                        }
                    }
                }
                return Err(SysError::EINVAL);
            }
            proof {
                assert(self.readable_at(a as int));
                self.lemma_mapped_in_bounds(a as int);
            }
            let c = self.mem[a];
            if c == 0 {
                proof {
                    assert forall|k: int| 0 <= k < n implies #[trigger] cstr_byte_ok(
                        *self,
                        base as int,
                        k,
                    ) by {
                        assert(self.readable_at(base + k));
                        assert(self.mem@[base + k] == out@[k]);
                    }
                    assert(cstr_shape(*self, base as int, n as int));
                    let nc = cstr_len(*self, base as int);
                    assert(cstr_shape(*self, base as int, nc));
                    lemma_cstr_unique(*self, base as int, nc, n as int);
                    assert(out@ =~= cstr_at(*self, base as int));
                }
                return Ok(out);
            }
            out.push(c);
            n = n + 1;
        }
    }

    /// Writes the string and its null terminator into user memory. The
    /// caller has already validated `len + 1` bytes writable.
    pub fn write_cstr(&mut self, base: usize, s: &[u8])
        requires
            old(self).wf(),
            old(self).range_writable(base as int, s@.len() as int + 1),
            base + s@.len() + 1 <= usize::MAX,
        ensures
            final(self).wf(),
            final(self).regions@ == old(self).regions@,
            final(self).mem@.len() == old(self).mem@.len(),
            forall|x: int| base <= x < base + s@.len() ==> final(self).mem@[x] == s@[x - base],
            final(self).mem@[base + s@.len()] == 0,
            forall|x: int|
                0 <= x < final(self).mem@.len() && !(base <= x < base + s@.len() + 1)
                    ==> final(self).mem@[x] == old(self).mem@[x],
    {
        let mut data: Vec<u8> = Vec::new();
        let mut i: usize = 0;
        while i < s.len()
            invariant
                i <= s@.len(),
                data@.len() == i,
                forall|k: int| 0 <= k < i ==> data@[k] == s@[k],
            decreases s@.len() - i,
        {
            data.push(s[i]);
            i = i + 1;
        }
        data.push(0u8);
        self.write_bytes(base, data.as_slice());
    }
}

} // verus!

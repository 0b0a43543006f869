//! The scatter/gather translator: an ordered list of user-memory
//! segments for one transfer, validated segment by segment before any
//! byte moves, then copied through one contiguous staging buffer.

use vstd::prelude::*;

use crate::error::SysError;
use crate::usermem::UserMem;

verus! {

/// One segment of a scatter/gather request.
#[derive(Clone, Copy, Debug, PartialEq, Eq, Structural)]
pub struct IoVec {
    /// Starting address in the caller's address space.
    pub base: usize,
    /// Number of bytes to transfer.
    pub len: usize,
}

/// The summed length of all segments.
pub open spec fn total_len(s: Seq<IoVec>) -> int
    decreases s.len(),
{
    if s.len() == 0 {
        0
    } else {
        s[0].len + total_len(s.drop_first())
    }
}

/// The summed length of the first `j` segments: where segment `j`'s
/// bytes start in the staging buffer.
pub open spec fn prefix_len(s: Seq<IoVec>, j: int) -> int {
    total_len(s.subrange(0, j))
}

/// The bytes a memory image holds across one segment.
pub open spec fn seg_bytes(mem: Seq<u8>, v: IoVec) -> Seq<u8> {
    Seq::new(v.len as nat, |k: int| mem[v.base + k])
}

/// The byte a memory image holds at offset `k` of segment `v`.
pub open spec fn seg_byte(mem: Seq<u8>, v: IoVec, k: int) -> u8 {
    mem[v.base + k]
}

/// The concatenation of all segments' bytes, in order.
pub open spec fn gather(mem: Seq<u8>, s: Seq<IoVec>) -> Seq<u8>
    decreases s.len(),
{
    if s.len() == 0 {
        Seq::empty()
    } else {
        seg_bytes(mem, s[0]) + gather(mem, s.drop_first())
    }
}

/// Address `a` lies in one of the segments.
pub open spec fn in_segments(s: Seq<IoVec>, a: int) -> bool {
    exists|j: int| 0 <= j < s.len() && (#[trigger] s[j]).base <= a < s[j].base + s[j].len
}

/// The segments are pairwise disjoint.
pub open spec fn segments_disjoint(s: Seq<IoVec>) -> bool {
    forall|i: int, j: int|
        0 <= i < j < s.len() ==> ((#[trigger] s[i]).base + s[i].len <= (#[trigger] s[j]).base
            || s[j].base + s[j].len <= s[i].base)
}

/// Every segment of `s` is a valid (and, for a read, writable) range.
pub open spec fn segments_valid(um: UserMem, s: Seq<IoVec>, writable: bool) -> bool {
    forall|j: int|
        0 <= j < s.len() ==> ((#[trigger] s[j]).base + s[j].len <= usize::MAX && if writable {
            um.range_writable(s[j].base as int, s[j].len as int)
        } else {
            um.range_readable(s[j].base as int, s[j].len as int)
        })
}

/// A validated scatter/gather request: every segment has passed the
/// user-memory check, so no copy can touch an unvalidated address.
pub struct IoVecs {
    /// The validated segments, in order.
    pub vecs: Vec<IoVec>,
    /// Whether the segments were validated writable (a read request)
    /// or only readable (a write request).
    pub writable: bool,
}

/// Appending a segment extends the gathered bytes at the end.
pub proof fn lemma_gather_push(mem: Seq<u8>, s: Seq<IoVec>, v: IoVec)
    ensures
        gather(mem, s.push(v)) == gather(mem, s) + seg_bytes(mem, v),
    decreases s.len(),
{
    if s.len() == 0 {
        assert(s.push(v).drop_first() =~= s);
        assert(gather(mem, s.push(v)) =~= gather(mem, s) + seg_bytes(mem, v));
    } else {
        assert(s.push(v).drop_first() =~= s.drop_first().push(v));
        lemma_gather_push(mem, s.drop_first(), v);
        assert(gather(mem, s.push(v)) =~= gather(mem, s) + seg_bytes(mem, v));
    }
}

/// The gathered bytes are exactly as many as the summed segment
/// lengths.
pub proof fn lemma_gather_len(mem: Seq<u8>, s: Seq<IoVec>)
    ensures
        gather(mem, s).len() == total_len(s),
    decreases s.len(),
{
    if s.len() > 0 {
        lemma_gather_len(mem, s.drop_first());
    }
}

/// Summed lengths are never negative.
pub proof fn lemma_total_len_nonneg(s: Seq<IoVec>)
    ensures
        total_len(s) >= 0,
    decreases s.len(),
{
    if s.len() > 0 {
        lemma_total_len_nonneg(s.drop_first());
    }
}

/// The total length of a prefix grows by the next segment.
pub proof fn lemma_prefix_len_step(s: Seq<IoVec>, j: int)
    requires
        0 <= j < s.len(),
    ensures
        prefix_len(s, j + 1) == prefix_len(s, j) + s[j].len,
    decreases j,
{
    if j == 0 {
        assert(s.subrange(0, 0) =~= Seq::<IoVec>::empty());
        assert(s.subrange(0, 1).drop_first() =~= Seq::<IoVec>::empty());
        assert(s.subrange(0, 1)[0] == s[0]);
        assert(total_len(Seq::<IoVec>::empty()) == 0);
        assert(total_len(s.subrange(0, 1)) == s.subrange(0, 1)[0].len + total_len(
            s.subrange(0, 1).drop_first(),
        ));
        assert(prefix_len(s, 1) == s[0].len);
    } else {
        lemma_prefix_len_step(s.drop_first(), j - 1);
        assert(s.subrange(0, j + 1).drop_first() =~= s.drop_first().subrange(0, j));
        assert(s.subrange(0, j).drop_first() =~= s.drop_first().subrange(0, j - 1));
        assert(s.subrange(0, j + 1)[0] == s[0]);
        assert(s.subrange(0, j)[0] == s[0]);
        assert(s.drop_first()[j - 1] == s[j]);
    }
}

/// Prefix lengths never shrink, and the whole is the last prefix.
pub proof fn lemma_prefix_len_total(s: Seq<IoVec>)
    ensures
        prefix_len(s, s.len() as int) == total_len(s),
{
    assert(s.subrange(0, s.len() as int) =~= s);
}

/// The gathered bytes of `s` laid against a buffer: if a memory image
/// holds, segment by segment, the bytes of `buf` in staging order, it
/// gathers exactly `buf`.
pub proof fn lemma_gather_of_chunks(mem: Seq<u8>, s: Seq<IoVec>, buf: Seq<u8>, off: int)
    requires
        0 <= off,
        off + total_len(s) == buf.len(),
        forall|j: int, k: int|
            0 <= j < s.len() && 0 <= k < s[j].len ==> #[trigger] seg_byte(mem, s[j], k) == buf[off
                + prefix_len(s, j) + k],
    ensures
        gather(mem, s) == buf.subrange(off, buf.len() as int),
    decreases s.len(),
{
    if s.len() == 0 {
        assert(gather(mem, s) =~= buf.subrange(off, buf.len() as int));
    } else {
        let t = s.drop_first();
        lemma_total_len_nonneg(t);
        assert(total_len(s) == s[0].len + total_len(t));
        assert(prefix_len(s, 0) == 0) by {
            assert(s.subrange(0, 0) =~= Seq::<IoVec>::empty());
        }
        assert forall|k: int| 0 <= k < s[0].len implies #[trigger] seg_bytes(mem, s[0])[k]
            == buf.subrange(off, off + s[0].len)[k] by {
            assert(seg_byte(mem, s[0], k) == buf[off + prefix_len(s, 0) + k]);
            assert(seg_bytes(mem, s[0])[k] == mem[s[0].base + k]);
        }
        assert(seg_bytes(mem, s[0]) =~= buf.subrange(off, off + s[0].len));
        assert forall|j: int, k: int|
            0 <= j < t.len() && 0 <= k < t[j].len implies #[trigger] seg_byte(mem, t[j], k)
            == buf[(off + s[0].len) + prefix_len(t, j) + k] by {
            assert(t[j] == s[j + 1]);
            lemma_prefix_shift(s, j + 1);
            assert(prefix_len(s, j + 1) == s[0].len + prefix_len(t, j));
            assert(seg_byte(mem, s[j + 1], k) == buf[off + prefix_len(s, j + 1) + k]);
        }
        lemma_gather_of_chunks(mem, t, buf, off + s[0].len);
        assert(gather(mem, s) =~= buf.subrange(off, buf.len() as int));
    }
}

/// A prefix of the tail, shifted by the head's length.
pub proof fn lemma_prefix_shift(s: Seq<IoVec>, j: int)
    requires
        s.len() > 0,
        1 <= j <= s.len(),
    ensures
        prefix_len(s, j) == s[0].len + prefix_len(s.drop_first(), j - 1),
{
    assert(s.subrange(0, j)[0] == s[0]);
    assert(s.subrange(0, j).drop_first() =~= s.drop_first().subrange(0, j - 1));
}

impl IoVecs {
    /// Validates every segment of a request eagerly: any failing
    /// segment aborts the whole request as invalid-argument before any
    /// I/O is performed. For a read request (`readv`) the segments must
    /// be writable; for a write request readable suffices.
    pub fn check_and_new(iovs: &Vec<IoVec>, um: &UserMem, readv: bool) -> (r: Result<
        IoVecs,
        SysError,
    >)
        ensures
            r is Ok <==> segments_valid(*um, iovs@, readv),
            r matches Ok(v) ==> v.vecs@ == iovs@ && v.writable == readv,
            r is Err ==> r == Result::<IoVecs, SysError>::Err(SysError::EINVAL),
    {
        let n = iovs.len();
        let mut j: usize = 0;
        while j < n
            invariant
                n == iovs@.len(),
                j <= n,
                forall|i: int|
                    0 <= i < j ==> ((#[trigger] iovs@[i]).base + iovs@[i].len <= usize::MAX
                        && if readv {
                        um.range_writable(iovs@[i].base as int, iovs@[i].len as int)
                    } else {
                        um.range_readable(iovs@[i].base as int, iovs@[i].len as int)
                    }),
            decreases n - j,
        {
            let iov = iovs[j];
            let ok = if readv {
                um.check_mut_array(iov.base, iov.len)
            } else {
                um.check_array(iov.base, iov.len)
            };
            if ok.is_err() {
                return Err(SysError::EINVAL);
            }
            j = j + 1;
        }
        let mut vecs: Vec<IoVec> = Vec::new();
        let mut j: usize = 0;
        while j < n
            invariant
                n == iovs@.len(),
                j <= n,
                vecs@ == iovs@.subrange(0, j as int),
            decreases n - j,
        {
            vecs.push(iovs[j]);
            proof {
                assert(iovs@.subrange(0, (j + 1) as int) =~= iovs@.subrange(0, j as int).push(
                    iovs@[j as int],
                ));
            }
            j = j + 1;
        }
        proof {
            assert(iovs@.subrange(0, n as int) =~= iovs@);
        }
        Ok(IoVecs { vecs, writable: readv })
    }

    /// The summed segment length, as the staging buffer is sized: the
    /// sum must fit a `usize` or the request is refused.
    pub fn total_length(&self) -> (r: Result<usize, SysError>)
        ensures
            r matches Ok(t) ==> t as int == total_len(self.vecs@),
            r is Err ==> r == Result::<usize, SysError>::Err(SysError::EINVAL) && total_len(
                self.vecs@,
            ) > usize::MAX,
    {
        let n = self.vecs.len();
        let mut sum: usize = 0;
        let mut j: usize = 0;
        while j < n
            invariant
                n == self.vecs@.len(),
                j <= n,
                sum as int == prefix_len(self.vecs@, j as int),
            decreases n - j,
        {
            proof {
                lemma_prefix_len_step(self.vecs@, j as int);
            }
            let l = self.vecs[j].len;
            if usize::MAX - l < sum {
                proof {
                    lemma_prefix_total_bound(self.vecs@, (j + 1) as int);
                }
                return Err(SysError::EINVAL);
            }
            sum = sum + l;
            j = j + 1;
        }
        proof {
            lemma_prefix_len_total(self.vecs@);
        }
        Ok(sum)
    }

    /// Reads all segments into one contiguous buffer, in order: the
    /// gather half of the translator.
    pub fn read_all_to_vec(&self, um: &UserMem) -> (r: Result<Vec<u8>, SysError>)
        requires
            um.wf(),
            segments_valid(*um, self.vecs@, false) || segments_valid(*um, self.vecs@, true),
        ensures
            r matches Ok(v) ==> v@ == gather(um.mem@, self.vecs@) && total_len(self.vecs@)
                <= usize::MAX && v@.len() == total_len(self.vecs@),
            r is Err ==> r == Result::<Vec<u8>, SysError>::Err(SysError::EINVAL) && total_len(
                self.vecs@,
            ) > usize::MAX,
    {
        let total = match self.total_length() {
            Ok(t) => t,
            Err(e) => {
                return Err(e);
            },
        };
        let mut out: Vec<u8> = Vec::new();
        let n = self.vecs.len();
        let mut j: usize = 0;
        while j < n
            invariant
                um.wf(),
                segments_valid(*um, self.vecs@, false) || segments_valid(*um, self.vecs@, true),
                n == self.vecs@.len(),
                j <= n,
                out@ == gather(um.mem@, self.vecs@.subrange(0, j as int)),
            decreases n - j,
        {
            let iov = self.vecs[j];
            proof {
                if !segments_valid(*um, self.vecs@, false) {
                    um.lemma_writable_readable(iov.base as int, iov.len as int);
                }
            }
            let mut part = um.read_bytes(iov.base, iov.len);
            proof {
                assert(part@ =~= seg_bytes(um.mem@, iov));
                lemma_gather_push(um.mem@, self.vecs@.subrange(0, j as int), iov);
                assert(self.vecs@.subrange(0, (j + 1) as int) =~= self.vecs@.subrange(
                    0,
                    j as int,
                ).push(iov));
            }
            out.append(&mut part);
            j = j + 1;
        }
        proof {
            assert(self.vecs@.subrange(0, n as int) =~= self.vecs@);
            lemma_gather_len(um.mem@, self.vecs@);
        }
        Ok(out)
    }

    /// Copies the transferred prefix of a staging buffer back out
    /// across the segments in order: the scatter half of the
    /// translator. The caller validated the segments writable.
    pub fn write_all_from_slice(&self, um: &mut UserMem, buf: &[u8])
        requires
            old(um).wf(),
            self.writable,
            segments_valid(*old(um), self.vecs@, true),
            buf@.len() <= total_len(self.vecs@),
        ensures
            final(um).wf(),
            final(um).regions@ == old(um).regions@,
            final(um).mem@.len() == old(um).mem@.len(),
            forall|a: int|
                0 <= a < final(um).mem@.len() && !in_segments(self.vecs@, a) ==> final(um).mem@[a]
                    == old(um).mem@[a],
            segments_disjoint(self.vecs@) ==> (forall|j: int, k: int|
                0 <= j < self.vecs@.len() && 0 <= k < self.vecs@[j].len && prefix_len(
                    self.vecs@,
                    j,
                ) + k < buf@.len() ==> #[trigger] seg_byte(final(um).mem@, self.vecs@[j], k)
                    == buf@[prefix_len(self.vecs@, j) + k]),
            segments_disjoint(self.vecs@) ==> (forall|j: int, k: int|
                0 <= j < self.vecs@.len() && 0 <= k < self.vecs@[j].len && prefix_len(
                    self.vecs@,
                    j,
                ) + k >= buf@.len() ==> #[trigger] seg_byte(final(um).mem@, self.vecs@[j], k)
                    == seg_byte(old(um).mem@, self.vecs@[j], k)),
    {
        let n = self.vecs.len();
        let buf_n = buf.len();
        let mut consumed: usize = 0;
        let mut j: usize = 0;
        while j < n
            invariant
                um.wf(),
                self.writable,
                segments_valid(*old(um), self.vecs@, true),
                buf_n == buf@.len(),
                um.regions@ == old(um).regions@,
                um.mem@.len() == old(um).mem@.len(),
                n == self.vecs@.len(),
                j <= n,
                buf@.len() <= total_len(self.vecs@),
                consumed as int == if prefix_len(self.vecs@, j as int) <= buf@.len() {
                    prefix_len(self.vecs@, j as int)
                } else {
                    buf@.len() as int
                },
                forall|a: int|
                    0 <= a < um.mem@.len() && !in_segments(self.vecs@, a) ==> um.mem@[a] == old(
                        um,
                    ).mem@[a],
                segments_disjoint(self.vecs@) ==> (forall|i: int, k: int|
                    0 <= i < j && 0 <= k < self.vecs@[i].len && prefix_len(self.vecs@, i) + k
                        < buf@.len() ==> #[trigger] seg_byte(um.mem@, self.vecs@[i], k) == buf@[
                    prefix_len(self.vecs@, i) + k]),
                segments_disjoint(self.vecs@) ==> (forall|i: int, k: int|
                    0 <= i < j && 0 <= k < self.vecs@[i].len && prefix_len(self.vecs@, i) + k
                        >= buf@.len() ==> #[trigger] seg_byte(um.mem@, self.vecs@[i], k)
                        == seg_byte(old(um).mem@, self.vecs@[i], k)),
                segments_disjoint(self.vecs@) ==> (forall|i: int, k: int|
                    j <= i < n && 0 <= k < self.vecs@[i].len ==> #[trigger] seg_byte(
                        um.mem@,
                        self.vecs@[i],
                        k,
                    ) == seg_byte(old(um).mem@, self.vecs@[i], k)),
            decreases n - j,
        {
            let iov = self.vecs[j];
            proof {
                lemma_prefix_len_step(self.vecs@, j as int);
                lemma_prefix_nonneg(self.vecs@, j as int);
                lemma_prefix_total_bound(self.vecs@, j as int);
            }
            let rest = buf.len() - consumed;
            proof {
                let m0: int = if iov.len < rest { iov.len as int } else { rest as int };
                um.lemma_writable_transfer(old(um), iov.base as int, iov.len as int, m0);
            }
            let m = if iov.len < rest {
                iov.len
            } else {
                rest
            };
            let mut chunk: Vec<u8> = Vec::new();
            let mut k: usize = 0;
            while k < m
                invariant
                    buf@.len() <= usize::MAX,
                    consumed + m <= buf@.len(),
                    k <= m,
                    chunk@.len() == k,
                    forall|x: int| 0 <= x < k ==> chunk@[x] == buf@[consumed + x],
                decreases m - k,
            {
                chunk.push(buf[consumed + k]);
                k = k + 1;
            }
            let ghost pre_mem = um.mem@;
            um.write_bytes(iov.base, chunk.as_slice());
            proof {
                assert forall|a: int|
                    0 <= a < um.mem@.len() && !in_segments(self.vecs@, a) implies um.mem@[a]
                    == old(um).mem@[a] by {
                    if iov.base <= a < iov.base + m {
                        assert(0 <= j < self.vecs@.len() && self.vecs@[j as int].base <= a
                            < self.vecs@[j as int].base + self.vecs@[j as int].len);
                        assert(in_segments(self.vecs@, a));
                    } else {
                        assert(um.mem@[a] == pre_mem[a]);
                    }
                }
                if segments_disjoint(self.vecs@) {
                    assert forall|i: int, k2: int|
                        j + 1 <= i < n && 0 <= k2 < self.vecs@[i].len implies #[trigger] seg_byte(
                            um.mem@,
                            self.vecs@[i],
                            k2,
                        ) == seg_byte(old(um).mem@, self.vecs@[i], k2) by {
                        let a = self.vecs@[i].base + k2;
                        assert(self.vecs@[j as int].base + self.vecs@[j as int].len
                            <= self.vecs@[i].base || self.vecs@[i].base + self.vecs@[i].len
                            <= self.vecs@[j as int].base);
                        assert(!(iov.base <= a < iov.base + chunk@.len()));
                        assert(old(um).range_writable(
                            self.vecs@[i].base as int,
                            self.vecs@[i].len as int,
                        ));
                        assert(old(um).writable_at(a));
                        old(um).lemma_mapped_w_in_bounds(a);
                        assert(um.mem@[a] == pre_mem[a]);
                        assert(seg_byte(pre_mem, self.vecs@[i], k2) == seg_byte(
                            old(um).mem@,
                            self.vecs@[i],
                            k2,
                        ));
                    }
                    assert forall|i: int, k2: int|
                        0 <= i < j + 1 && 0 <= k2 < self.vecs@[i].len && prefix_len(
                            self.vecs@,
                            i,
                        ) + k2 >= buf@.len() implies #[trigger] seg_byte(um.mem@, self.vecs@[i], k2)
                        == seg_byte(old(um).mem@, self.vecs@[i], k2) by {
                        let a = self.vecs@[i].base + k2;
                        assert(old(um).range_writable(
                            self.vecs@[i].base as int,
                            self.vecs@[i].len as int,
                        ));
                        assert(old(um).writable_at(a));
                        old(um).lemma_mapped_w_in_bounds(a);
                        if i < j {
                            assert(self.vecs@[i].base + self.vecs@[i].len <= self.vecs@[j as int].base
                                || self.vecs@[j as int].base + self.vecs@[j as int].len
                                <= self.vecs@[i].base);
                            assert(!(iov.base <= a < iov.base + chunk@.len()));
                            assert(um.mem@[a] == pre_mem[a]);
                            assert(seg_byte(pre_mem, self.vecs@[i], k2) == seg_byte(
                                old(um).mem@,
                                self.vecs@[i],
                                k2,
                            ));
                        } else {
                            assert(k2 >= m);
                            assert(!(iov.base <= a < iov.base + chunk@.len()));
                            assert(um.mem@[a] == pre_mem[a]);
                            assert(seg_byte(pre_mem, self.vecs@[i], k2) == seg_byte(
                                old(um).mem@,
                                self.vecs@[i],
                                k2,
                            ));
                        }
                    }
                    assert forall|i: int, k2: int|
                        0 <= i < j + 1 && 0 <= k2 < self.vecs@[i].len && prefix_len(
                            self.vecs@,
                            i,
                        ) + k2 < buf@.len() implies #[trigger] seg_byte(um.mem@, self.vecs@[i], k2)
                        == buf@[prefix_len(self.vecs@, i) + k2] by {
                        if i < j {
                            let a = self.vecs@[i].base + k2;
                            assert(self.vecs@[i].base + self.vecs@[i].len <= self.vecs@[j as int].base
                                || self.vecs@[j as int].base + self.vecs@[j as int].len
                                <= self.vecs@[i].base);
                            assert(!(iov.base <= a < iov.base + chunk@.len()));
                            assert(old(um).range_writable(
                                self.vecs@[i].base as int,
                                self.vecs@[i].len as int,
                            ));
                            assert(old(um).writable_at(a));
                            old(um).lemma_mapped_w_in_bounds(a);
                            assert(um.mem@[a] == pre_mem[a]);
                            assert(seg_byte(um.mem@, self.vecs@[i], k2) == seg_byte(
                                pre_mem,
                                self.vecs@[i],
                                k2,
                            ));
                        } else {
                            assert(prefix_len(self.vecs@, i) + k2 < buf@.len());
                            assert(k2 < m);
                            assert(um.mem@[iov.base + k2] == chunk@[k2]);
                        }
                    }
                }
            }
            consumed = consumed + m;
            j = j + 1;
        }
    }
}

/// Prefix lengths are non-negative.
pub proof fn lemma_prefix_nonneg(s: Seq<IoVec>, j: int)
    requires
        0 <= j <= s.len(),
    ensures
        0 <= prefix_len(s, j),
    decreases j,
{
    if j > 0 {
        lemma_prefix_len_step(s, j - 1);
        lemma_prefix_nonneg(s, j - 1);
    } else {
        assert(s.subrange(0, 0) =~= Seq::<IoVec>::empty());
    }
}

/// A prefix never exceeds the total.
pub proof fn lemma_prefix_total_bound(s: Seq<IoVec>, j: int)
    requires
        0 <= j <= s.len(),
    ensures
        prefix_len(s, j) <= total_len(s),
    decreases s.len() - j,
{
    if j < s.len() {
        lemma_prefix_len_step(s, j);
        lemma_prefix_total_bound(s, j + 1);
    } else {
        lemma_prefix_len_total(s);
    }
}

/// Scatter then gather is the identity: copying a buffer out across
/// pairwise-disjoint segments and reading the same segments back in
/// order reproduces the buffer exactly, whatever the segment shape.
pub proof fn lemma_scatter_gather_roundtrip(pre: UserMem, post: UserMem, v: IoVecs, buf: Seq<u8>)
    requires
        pre.wf(),
        v.writable,
        segments_valid(pre, v.vecs@, true),
        segments_disjoint(v.vecs@),
        buf.len() == total_len(v.vecs@),
        post.mem@.len() == pre.mem@.len(),
        forall|j: int, k: int|
            0 <= j < v.vecs@.len() && 0 <= k < v.vecs@[j].len && prefix_len(v.vecs@, j) + k
                < buf.len() ==> #[trigger] seg_byte(post.mem@, v.vecs@[j], k) == buf[prefix_len(
                v.vecs@,
                j,
            ) + k],
    ensures
        gather(post.mem@, v.vecs@) == buf,
{
    assert forall|j: int, k: int|
        0 <= j < v.vecs@.len() && 0 <= k < v.vecs@[j].len implies #[trigger] seg_byte(
        post.mem@,
        v.vecs@[j],
        k,
    ) == buf[0 + prefix_len(v.vecs@, j) + k] by {
        lemma_prefix_nonneg(v.vecs@, j);
        lemma_prefix_len_step(v.vecs@, j);
        lemma_prefix_total_bound(v.vecs@, j + 1);
    }
    lemma_gather_of_chunks(post.mem@, v.vecs@, buf, 0);
    assert(buf.subrange(0, buf.len() as int) =~= buf);
}

} // verus!

//! The console device: a FIFO queue of pending input characters and a
//! best-effort output sink.
//!
//! Blocking belongs to the surrounding runtime: `pop` here is the
//! re-checked decision of the blocking loop — `None` means the caller
//! must wait on the wake signal that accompanies `push` and try again.

use vstd::prelude::*;

verus! {

/// Readiness of a descriptor, as the multiplexer consumes it.
#[derive(Clone, Copy, Debug, PartialEq, Eq, Structural)]
pub struct PollStatus {
    pub read: bool,
    pub write: bool,
    pub error: bool,
}

/// Console input: a FIFO of characters not yet read.
pub struct Stdin {
    pub buf: Vec<char>,
}

impl Stdin {
    /// The queue of pending characters, oldest first.
    pub open spec fn view(&self) -> Seq<char> {
        self.buf@
    }

    /// An empty input queue.
    pub fn new() -> (r: Stdin)
        ensures
            r@ == Seq::<char>::empty(),
    {
        Stdin { buf: Vec::new() }
    }

    /// Appends an arriving character. The wake signal that lets a blocked
    /// reader re-check is the runtime's affair.
    pub fn push(&mut self, c: char)
        ensures
            final(self)@ == old(self)@.push(c),
    {
        self.buf.push(c);
    }

    /// Removes and returns the oldest pending character; `None` when the
    /// queue is empty at check time, upon which the caller blocks on the
    /// wake signal and re-checks.
    pub fn pop(&mut self) -> (r: Option<char>)
        ensures
            old(self)@.len() == 0 ==> r is None && final(self)@ == old(self)@,
            old(self)@.len() > 0 ==> r == Some(old(self)@[0]) && final(self)@ == old(self)@.drop_first(),
    {
        if self.buf.len() == 0 {
            None
        } else {
            let c = self.buf.remove(0);
            Some(c)
        }
    }

    /// Non-blocking queue-non-empty check, as the multiplexer uses it.
    pub fn can_read(&self) -> (r: bool)
        ensures
            r == (self@.len() > 0),
    {
        self.buf.len() > 0
    }

    /// Console input is read-ready iff a character is pending; never
    /// write-ready.
    pub fn poll(&self) -> (r: PollStatus)
        ensures
            r.read == (self@.len() > 0),
            !r.write,
            !r.error,
    {
        PollStatus { read: self.can_read(), write: false, error: false }
    }
}

/// Console output: accepts bytes immediately and keeps them for the
/// runtime to hand to the terminal, interpreting them as text
/// best-effort (malformed sequences are not validated).
pub struct Stdout {
    pub written: Vec<u8>,
}

impl Stdout {
    /// Everything written so far, in order.
    pub open spec fn view(&self) -> Seq<u8> {
        self.written@
    }

    /// A sink that has seen nothing yet.
    pub fn new() -> (r: Stdout)
        ensures
            r@ == Seq::<u8>::empty(),
    {
        Stdout { written: Vec::new() }
    }

    /// Appends the whole buffer and reports its length: console output
    /// never blocks and never writes partially.
    pub fn write(&mut self, buf: &[u8]) -> (r: usize)
        ensures
            final(self)@ == old(self)@ + buf@,
            r == buf@.len(),
    {
        proof {
            assert(self@ + buf@.subrange(0, 0) =~= self@);
        }
        let mut i: usize = 0;
        while i < buf.len()
            invariant
                i <= buf@.len(),
                self@ == old(self)@ + buf@.subrange(0, i as int),
            decreases buf@.len() - i,
        {
            self.written.push(buf[i]);
            proof {
                assert(buf@.subrange(0, (i + 1) as int) =~= buf@.subrange(0, i as int).push(
                    buf@[i as int],
                ));
            }
            i = i + 1;
        }
        proof {
            assert(buf@.subrange(0, buf@.len() as int) =~= buf@);
        }
        buf.len()
    }

    /// Hands out the bytes accumulated for the terminal and empties the
    /// sink.
    pub fn take_output(&mut self) -> (r: Vec<u8>)
        ensures
            r@ == old(self)@,
            final(self)@ == Seq::<u8>::empty(),
    {
        let mut out: Vec<u8> = Vec::new();
        let mut i: usize = 0;
        while i < self.written.len()
            invariant
                i <= self.written@.len(),
                self.written@ == old(self)@,
                out@ == self.written@.subrange(0, i as int),
            decreases self.written@.len() - i,
        {
            out.push(self.written[i]);
            proof {
                assert(self.written@.subrange(0, (i + 1) as int) =~= self.written@.subrange(
                    0,
                    i as int,
                ).push(self.written@[i as int]));
            }
            i = i + 1;
        }
        proof {
            assert(self.written@.subrange(0, self.written@.len() as int) =~= self.written@);
        }
        self.written.clear();
        out
    }

    /// Console output is always write-ready and never read-ready.
    pub fn poll(&self) -> (r: PollStatus)
        ensures
            !r.read,
            r.write,
            !r.error,
    {
        PollStatus { read: false, write: true, error: false }
    }
}

/// Console FIFO law: characters pushed in the order c1, c2, c3 onto an
/// empty queue come back in that same order from three pops, however
/// many readers were blocked meanwhile — each pop takes the head that
/// the queue holds at its own check time.
pub proof fn lemma_console_fifo(c1: char, c2: char, c3: char)
    ensures
        ({
            let q = Seq::<char>::empty().push(c1).push(c2).push(c3);
            &&& q[0] == c1
            &&& q.drop_first()[0] == c2
            &&& q.drop_first().drop_first()[0] == c3
            &&& q.drop_first().drop_first().drop_first() == Seq::<char>::empty()
        }),
{
    let q = Seq::<char>::empty().push(c1).push(c2).push(c3);
    assert(q.drop_first() =~= seq![c2, c3]);
    assert(q.drop_first().drop_first() =~= seq![c3]);
    assert(q.drop_first().drop_first().drop_first() =~= Seq::<char>::empty());
}

} // verus!

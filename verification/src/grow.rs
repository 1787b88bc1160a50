//! The growable read-ahead buffer that backs the splitter.
use vstd::prelude::*;

verus! {

/// A growable read-ahead window over an owned byte source.
///
/// `deq` holds every byte pulled from the source but not yet drained, oldest
/// first; `read_pos` counts how many bytes at the front of `deq` have already
/// been handed out through the read interface to the matching engine.  The
/// ghost `released` records the bytes permanently drained from the front, so
/// `released + deq` is the whole stream pulled from the source so far.
pub struct Grow<R> {
    input: R,
    deq: Vec<u8>,
    read_pos: usize,
    released: Ghost<Seq<u8>>,
}

impl<R> Grow<R> {
    /// The underlying byte source.
    pub closed spec fn source(&self) -> R {
        self.input
    }

    /// The bytes currently buffered: pulled from the source, not yet drained.
    pub closed spec fn window(&self) -> Seq<u8> {
        self.deq@
    }

    /// How many bytes at the front of the window have been handed to the matcher.
    pub closed spec fn handed(&self) -> int {
        self.read_pos as int
    }

    /// The bytes already drained from the front, in stream order.
    pub closed spec fn released(&self) -> Seq<u8> {
        self.released@
    }

    /// Everything pulled from the source so far, in stream order.
    pub open spec fn history(&self) -> Seq<u8> {
        self.released() + self.window()
    }

    /// The cumulative stream offset of the window's first byte.
    pub open spec fn cursor(&self) -> int {
        self.released().len() as int
    }

    /// Buffered bytes that have not yet been handed to the matcher.
    pub open spec fn backlog(&self) -> int {
        self.window().len() - self.handed()
    }

    pub open spec fn wf(&self) -> bool {
        0 <= self.handed() <= self.window().len()
    }

    /// The handed-out count as a plain value, so that an unverified driver
    /// can check a drain amount against it before asking for the drain.
    pub fn handed_len(&self) -> (n: usize)
        ensures
            n as int == self.handed(),
    {
        self.read_pos
    }

    /// Wraps a byte source in an empty buffer.
    pub fn new(input: R) -> (g: Grow<R>)
        ensures
            g.wf(),
            g.window() == Seq::<u8>::empty(),
            g.released() == Seq::<u8>::empty(),
            g.handed() == 0,
            g.source() == input,
    {
        Grow { input, deq: Vec::new(), read_pos: 0, released: Ghost(Seq::empty()) }
    }

    /// Exclusive access to the underlying source, so that the caller can pull
    /// bytes from it; the buffered window itself is untouched.
    pub fn source_mut(&mut self) -> (r: &mut R)
        ensures
            *r == old(self).source(),
            final(self).source() == *final(r),
            final(self).window() == old(self).window(),
            final(self).handed() == old(self).handed(),
            final(self).released() == old(self).released(),
    {
        &mut self.input
    }

    /// A non-destructive copy of the whole buffered window, oldest byte first.
    pub fn iter(&self) -> (r: Vec<u8>)
        ensures
            r@ == self.window(),
    {
        let mut r: Vec<u8> = Vec::new();
        let mut i: usize = 0;
        while i < self.deq.len()
            invariant
                i <= self.deq.len(),
                r@ == self.deq@.subrange(0, i as int),
            decreases self.deq.len() - i,
        {
            r.push(self.deq[i]);
            i = i + 1;
        }
        assert(self.deq@.subrange(0, self.deq@.len() as int) == self.deq@);
        r
    }

    /// A non-destructive copy of the first `n` buffered bytes (all of them if
    /// fewer than `n` are buffered), oldest first.
    pub fn peek(&self, n: usize) -> (r: Vec<u8>)
        ensures
            r@ == if n <= self.window().len() {
                self.window().subrange(0, n as int)
            } else {
                self.window()
            },
    {
        let upto: usize = if n <= self.deq.len() {
            n
        } else {
            self.deq.len()
        };
        let mut r: Vec<u8> = Vec::new();
        let mut i: usize = 0;
        while i < upto
            invariant
                i <= upto,
                upto <= self.deq.len(),
                r@ == self.deq@.subrange(0, i as int),
            decreases upto - i,
        {
            r.push(self.deq[i]);
            i = i + 1;
        }
        assert(self.deq@.subrange(0, self.deq@.len() as int) == self.deq@);
        r
    }

    /// Removes exactly `amount` bytes from the front of the window and
    /// returns them in order.  Only bytes already handed to the matcher may
    /// be drained, so the count of handed-out bytes shrinks by the same
    /// amount and the drained bytes join the released prefix of the stream.
    pub fn drain(&mut self, amount: usize) -> (removed: Vec<u8>)
        requires
            old(self).wf(),
            amount as int <= old(self).handed(),
        ensures
            final(self).wf(),
            removed@ == old(self).window().subrange(0, amount as int),
            final(self).window() == old(self).window().subrange(
                amount as int,
                old(self).window().len() as int,
            ),
            final(self).handed() == old(self).handed() - amount,
            final(self).released() == old(self).released() + removed@,
            final(self).history() == old(self).history(),
            final(self).cursor() == old(self).cursor() + amount,
            final(self).backlog() == old(self).backlog(),
            final(self).source() == old(self).source(),
    {
        self.read_pos = self.read_pos - amount;
        let mut front = self.deq.split_off(amount);
        core::mem::swap(&mut self.deq, &mut front);
        self.released = Ghost(self.released@ + front@);
        front
    }

    /// Removes every buffered byte and returns them in order; afterwards the
    /// buffer is empty and nothing counts as handed out.
    pub fn drain_all(&mut self) -> (removed: Vec<u8>)
        requires
            old(self).wf(),
        ensures
            final(self).wf(),
            removed@ == old(self).window(),
            final(self).window() == Seq::<u8>::empty(),
            final(self).handed() == 0,
            final(self).released() == old(self).history(),
            final(self).history() == old(self).history(),
            final(self).source() == old(self).source(),
    {
        self.read_pos = 0;
        let mut front: Vec<u8> = Vec::new();
        core::mem::swap(&mut self.deq, &mut front);
        self.released = Ghost(self.released@ + front@);
        front
    }

    /// Copies the not-yet-handed-out part of the window into the front of
    /// `buf`, as much of it as fits, and reports how many bytes were written.
    fn copy_to(&self, buf: &mut Vec<u8>) -> (n: usize)
        requires
            self.wf(),
        ensures
            n as int == vstd::math::min(old(buf)@.len() as int, self.backlog()),
            final(buf)@.len() == old(buf)@.len(),
            forall|i: int|
                0 <= i < n ==> final(buf)@[i] == self.window()[self.handed() + i],
            forall|i: int|
                n <= i < old(buf)@.len() ==> final(buf)@[i] == old(buf)@[i],
    {
        let avail: usize = self.deq.len() - self.read_pos;
        let n: usize = if buf.len() < avail {
            buf.len()
        } else {
            avail
        };
        let mut i: usize = 0;
        while i < n
            invariant
                i <= n,
                n <= buf@.len(),
                n as int <= self.backlog(),
                self.window().len() <= usize::MAX as int,
                self.wf(),
                buf@.len() == old(buf)@.len(),
                forall|j: int|
                    0 <= j < i ==> buf@[j] == self.window()[self.handed() + j],
                forall|j: int| i <= j < buf@.len() ==> buf@[j] == old(buf)@[j],
            decreases n - i,
        {
            buf.set(i, self.deq[self.read_pos + i]);
            i = i + 1;
        }
        n
    }

    /// Whether a read of `dest_len` bytes is not yet covered by the buffered
    /// backlog, so that the caller must first pull from the source.
    pub fn needs_pull(&self, dest_len: usize) -> (b: bool)
        requires
            self.wf(),
        ensures
            b == (self.backlog() < dest_len as int),
    {
        self.deq.len() - self.read_pos < dest_len
    }

    /// One step of the buffer's read interface, after any required pull from
    /// the source has been done by the caller.
    ///
    /// The caller asked for `dest.len()` bytes.  If the backlog did not cover
    /// that, the caller has pulled up to `dest.len()` fresh bytes from the
    /// source directly into `dest[..pulled]` (using the destination as the
    /// read-in cache); those bytes are appended to the window's tail here.
    /// If nothing needed pulling, `pulled` is zero.  The bytes handed out are
    /// the next run of window bytes after the already-handed-out front; when
    /// there was no backlog of previously-buffered-but-unhanded bytes, the
    /// freshly pulled bytes in `dest` are already exactly that run, so they
    /// are handed out without a recopy.  Zero is handed out only when the
    /// backlog was empty and the pull produced nothing: end of the stream.
    pub fn read_step(&mut self, dest: &mut Vec<u8>, pulled: usize) -> (n: usize)
        requires
            old(self).wf(),
            pulled as int <= old(dest)@.len(),
            old(self).backlog() >= old(dest)@.len() ==> pulled == 0,
        ensures
            final(self).wf(),
            final(self).released() == old(self).released(),
            final(self).source() == old(self).source(),
            final(dest)@.len() == old(dest)@.len(),
            final(self).window() == old(self).window() + (
            if old(self).backlog() < old(dest)@.len() {
                old(dest)@.subrange(0, pulled as int)
            } else {
                Seq::<u8>::empty()
            }),
            n as int == vstd::math::min(old(dest)@.len() as int, old(self).backlog() + (
            if old(self).backlog() < old(dest)@.len() {
                pulled as int
            } else {
                0
            })),
            final(self).handed() == old(self).handed() + n,
            forall|i: int|
                0 <= i < n ==> final(dest)@[i] == final(self).window()[old(self).handed() + i],
            forall|i: int| n <= i < old(dest)@.len() ==> final(dest)@[i] == old(dest)@[i],
            old(self).backlog() == 0 ==> final(dest)@ == old(dest)@,
            old(dest)@.len() > 0 ==> (n == 0 <==> old(self).backlog() == 0 && pulled == 0),
            old(self).backlog() == 0 ==> final(self).backlog() == 0,
    {
        let bytes_written: usize;
        if self.deq.len() - self.read_pos < dest.len() {
            let no_backlog: bool = self.deq.len() == self.read_pos;
            let mut i: usize = 0;
            while i < pulled
                invariant
                    i <= pulled,
                    pulled <= dest@.len(),
                    dest@ == old(dest)@,
                    self.deq@ == old(self).window() + dest@.subrange(0, i as int),
                    self.read_pos == old(self).handed(),
                    self.released@ == old(self).released(),
                    self.input == old(self).source(),
                decreases pulled - i,
            {
                let b: u8 = dest[i];
                self.deq.push(b);
                i = i + 1;
            }
            assert(self.deq@ == old(self).window() + dest@.subrange(0, pulled as int));
            if no_backlog {
                assert(forall|j: int|
                    0 <= j < pulled ==> self.deq@[self.read_pos + j] == dest@[j]);
                bytes_written = pulled;
            } else {
                bytes_written = self.copy_to(dest);
            }
        } else {
            bytes_written = self.copy_to(dest);
        }
        let total: usize = self.deq.len();
        assert(self.read_pos as int + bytes_written as int <= total as int);
        self.read_pos = self.read_pos + bytes_written;
        bytes_written
    }
}

/// The buffer's memory use is bounded by the matcher's read-ahead: the
/// window holds exactly the bytes between the last drained position and the
/// read frontier of the source — never more of the stream than the matcher
/// has had to look at beyond the last drain.
pub proof fn lemma_window_is_lookahead<R>(g: Grow<R>)
    ensures
        g.window() == g.history().subrange(g.cursor(), g.history().len() as int),
        g.window().len() == g.history().len() - g.cursor(),
{
    assert(g.window() =~= g.history().subrange(g.cursor(), g.history().len() as int));
}

} // verus!

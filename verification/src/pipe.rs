//! The in-memory pipes between host and guest.
use crate::error::ApiError;
use std::collections::VecDeque;
use vstd::prelude::*;

verus! {

/// The guest's standard input: bytes that the host has pushed and the guest has not read,
/// and what is to be woken when there are more. A waker is whatever the caller uses to
/// wake a waiting reader; the methods hand back the ones to wake.
pub struct HostStdin<W> {
    buffer: VecDeque<u8>,
    closed: bool,
    wakers: Vec<W>,
}

/// What a read that does not wait finds.
#[derive(Debug, PartialEq, Eq)]
pub enum ReadOutcome {
    /// The bytes that were there, possibly none.
    Bytes(Vec<u8>),
    /// There are no more bytes and there will be none.
    Closed,
}

/// One use of a pipe: bytes put in, or a read of up to so many bytes.
pub enum PipeUse {
    Push(Seq<u8>),
    Read(nat),
}

/// What one use of a pipe that holds `held` hands out, and what the pipe holds then.
pub open spec fn used(held: Seq<u8>, one: PipeUse) -> (Seq<u8>, Seq<u8>) {
    match one {
        PipeUse::Push(bytes) => (Seq::empty(), held + bytes),
        PipeUse::Read(size) => {
            let n = lesser(size, held.len()) as int;
            (held.take(n), held.skip(n))
        },
    }
}

/// The lesser of two numbers.
pub open spec fn lesser(a: nat, b: nat) -> nat {
    if a <= b {
        a
    } else {
        b
    }
}

impl<W> HostStdin<W> {
    /// The bytes that wait to be read.
    pub closed spec fn bytes(&self) -> Seq<u8> {
        self.buffer@
    }

    /// Whether the host has closed the pipe.
    pub closed spec fn is_closed(&self) -> bool {
        self.closed
    }

    /// The wakers of the readers that wait.
    pub closed spec fn waiting(&self) -> Seq<W> {
        self.wakers@
    }

    /// No reader waits while there are bytes to read or the end has been reached.
    pub open spec fn settled(&self) -> bool {
        self.waiting().len() > 0 ==> self.bytes().len() == 0 && !self.is_closed()
    }

    /// An open pipe without bytes or readers.
    pub fn new() -> (r: HostStdin<W>)
        ensures
            r.settled(),
            r.bytes() == Seq::<u8>::empty(),
            !r.is_closed(),
            r.waiting() == Seq::<W>::empty(),
    {
        HostStdin { buffer: VecDeque::new(), closed: false, wakers: Vec::new() }
    }

    /// Appends `bytes`, unless the pipe is closed; gives the wakers of all waiting readers.
    pub fn push(&mut self, bytes: &[u8]) -> (r: Result<Vec<W>, ApiError>)
        ensures
            old(self).settled() ==> final(self).settled(),
            old(self).is_closed() ==> r == Err::<Vec<W>, ApiError>(ApiError::Closed) && *final(self)
                == *old(self),
            !old(self).is_closed() ==> {
                &&& r matches Ok(wakers)
                &&& wakers@ == old(self).waiting()
                &&& final(self).waiting() == Seq::<W>::empty()
                &&& final(self).bytes() == used(old(self).bytes(), PipeUse::Push(bytes@)).1
                &&& !final(self).is_closed()
            },
    {
        if self.closed {
            return Err(ApiError::Closed);
        }
        let mut i: usize = 0;
        while i < bytes.len()
            invariant
                i <= bytes.len(),
                self.buffer@ == old(self).buffer@ + bytes@.take(i as int),
                !self.closed,
                self.wakers == old(self).wakers,
            decreases bytes.len() - i,
        {
            self.buffer.push_back(bytes[i]);
            assert(bytes@.take(i + 1) =~= bytes@.take(i as int).push(bytes@[i as int]));
            i += 1;
        }
        assert(bytes@.take(bytes@.len() as int) =~= bytes@);
        let mut wakers: Vec<W> = Vec::new();
        wakers.append(&mut self.wakers);
        assert(wakers@ =~= old(self).wakers@);
        Ok(wakers)
    }

    /// Closes the pipe for pushing; gives the wakers of all waiting readers.
    pub fn close(&mut self) -> (wakers: Vec<W>)
        ensures
            old(self).settled() ==> final(self).settled(),
            wakers@ == old(self).waiting(),
            final(self).waiting() == Seq::<W>::empty(),
            final(self).bytes() == old(self).bytes(),
            final(self).is_closed(),
    {
        self.closed = true;
        let mut wakers: Vec<W> = Vec::new();
        wakers.append(&mut self.wakers);
        assert(wakers@ =~= old(self).wakers@);
        wakers
    }

    /// Takes up to `size` bytes off the front.
    fn take(&mut self, size: usize) -> (r: Vec<u8>)
        ensures
            r@ == old(self).bytes().take(lesser(size as nat, old(self).bytes().len()) as int),
            final(self).bytes() == old(self).bytes().skip(
                lesser(size as nat, old(self).bytes().len()) as int,
            ),
            final(self).is_closed() == old(self).is_closed(),
            final(self).waiting() == old(self).waiting(),
    {
        let mut out: Vec<u8> = Vec::new();
        let count: usize = if size <= self.buffer.len() {
            size
        } else {
            self.buffer.len()
        };
        while out.len() < count
            invariant
                out@.len() <= count <= old(self).buffer@.len(),
                out@ =~= old(self).buffer@.take(out@.len() as int),
                self.buffer@ =~= old(self).buffer@.skip(out@.len() as int),
                self.closed == old(self).closed,
                self.wakers == old(self).wakers,
            decreases count - out.len(),
        {
            if let Some(byte) = self.buffer.pop_front() {
                out.push(byte);
            }
        }
        out
    }

    /// Reads up to `size` bytes without waiting.
    pub fn read(&mut self, size: usize) -> (r: ReadOutcome)
        ensures
            old(self).settled() ==> final(self).settled(),
            match r {
                ReadOutcome::Closed => old(self).bytes().len() == 0 && old(self).is_closed()
                    && *final(self) == *old(self),
                ReadOutcome::Bytes(out) => {
                    &&& old(self).bytes().len() > 0 || !old(self).is_closed()
                    &&& (out@, final(self).bytes()) == used(
                        old(self).bytes(),
                        PipeUse::Read(size as nat),
                    )
                    &&& final(self).is_closed() == old(self).is_closed()
                    &&& final(self).waiting() == old(self).waiting()
                },
            },
    {
        if self.buffer.len() == 0 && self.closed {
            return ReadOutcome::Closed;
        }
        ReadOutcome::Bytes(self.take(size))
    }

    /// Whether a read would find bytes or the end; where not, `waker` is kept for later.
    pub fn ready(&mut self, waker: W) -> (r: bool)
        ensures
            old(self).settled() ==> final(self).settled(),
            r == (old(self).bytes().len() > 0 || old(self).is_closed()),
            r ==> *final(self) == *old(self),
            !r ==> final(self).waiting() == old(self).waiting().push(waker) && final(self).bytes()
                == old(self).bytes() && !final(self).is_closed(),
    {
        if self.buffer.len() > 0 || self.closed {
            true
        } else {
            self.wakers.push(waker);
            false
        }
    }

    /// Reads up to `room` bytes; nothing where the reader has to wait, and `waker` is then
    /// kept for later. At the end of a closed pipe it reads no bytes.
    pub fn poll_read(&mut self, room: usize, waker: W) -> (r: Option<Vec<u8>>)
        ensures
            old(self).settled() ==> final(self).settled(),
            match r {
                Some(out) => {
                    &&& old(self).bytes().len() > 0 || old(self).is_closed()
                    &&& (out@, final(self).bytes()) == used(
                        old(self).bytes(),
                        PipeUse::Read(room as nat),
                    )
                    &&& final(self).is_closed() == old(self).is_closed()
                    &&& final(self).waiting() == old(self).waiting()
                },
                None => {
                    &&& old(self).bytes().len() == 0 && !old(self).is_closed()
                    &&& final(self).waiting() == old(self).waiting().push(waker)
                    &&& final(self).bytes() == old(self).bytes()
                    &&& !final(self).is_closed()
                },
            },
    {
        if self.buffer.len() == 0 && !self.closed {
            self.wakers.push(waker);
            return None;
        }
        Some(self.take(room))
    }
}

/// The guest's standard output: bytes that the guest has written and the host has not taken.
pub struct HostStdout {
    buffer: Vec<u8>,
    closed: bool,
}

/// What the host does next about the guest's output.
#[derive(Debug, PartialEq, Eq)]
pub enum Drain {
    /// Go on with these bytes.
    Data(Vec<u8>),
    /// There will be no more bytes.
    Closed,
    /// The deadline has passed.
    TimedOut,
    /// Wait for bytes, at most this long.
    Wait(u128),
}

impl HostStdout {
    /// The bytes that wait to be taken.
    pub closed spec fn bytes(&self) -> Seq<u8> {
        self.buffer@
    }

    /// Whether the guest has closed the pipe.
    pub closed spec fn is_closed(&self) -> bool {
        self.closed
    }

    /// An open pipe without bytes.
    pub fn new() -> (r: HostStdout)
        ensures
            r.bytes() == Seq::<u8>::empty(),
            !r.is_closed(),
    {
        HostStdout { buffer: Vec::new(), closed: false }
    }

    /// Appends what the guest writes.
    pub fn write(&mut self, bytes: &[u8])
        ensures
            final(self).bytes() == used(old(self).bytes(), PipeUse::Push(bytes@)).1,
            final(self).is_closed() == old(self).is_closed(),
    {
        self.buffer.extend_from_slice(bytes);
        assert(self.buffer@ =~= old(self).buffer@ + bytes@);
    }

    /// Marks the end of the guest's output.
    pub fn close(&mut self)
        ensures
            final(self).bytes() == old(self).bytes(),
            final(self).is_closed(),
    {
        self.closed = true;
    }

    /// Takes all bytes that are there; where there are none, says whether to stop or how
    /// long to wait. The times are counted from a common start, in one unit.
    pub fn drain_deadline(&mut self, now: u128, deadline: u128) -> (r: Drain)
        ensures
            final(self).is_closed() == old(self).is_closed(),
            final(self).bytes() == Seq::<u8>::empty(),
            match r {
                Drain::Data(bytes) => old(self).bytes().len() > 0 && bytes@ == old(self).bytes()
                    && (bytes@, final(self).bytes()) == used(
                    old(self).bytes(),
                    PipeUse::Read(old(self).bytes().len()),
                ),
                Drain::Closed => old(self).bytes().len() == 0 && old(self).is_closed(),
                Drain::TimedOut => old(self).bytes().len() == 0 && !old(self).is_closed() && now
                    >= deadline,
                Drain::Wait(time) => old(self).bytes().len() == 0 && !old(self).is_closed() && now
                    < deadline && time == deadline - now,
            },
    {
        if self.buffer.len() > 0 {
            let mut bytes: Vec<u8> = Vec::new();
            bytes.append(&mut self.buffer);
            assert(bytes@ =~= old(self).buffer@);
            return Drain::Data(bytes);
        }
        assert(self.buffer@ =~= Seq::empty());
        if self.closed {
            Drain::Closed
        } else if now >= deadline {
            Drain::TimedOut
        } else {
            Drain::Wait(deadline - now)
        }
    }
}

/// What a pipe that holds `held` hands out over `uses`, and what it holds then.
pub open spec fn piped(held: Seq<u8>, uses: Seq<PipeUse>) -> (Seq<u8>, Seq<u8>)
    decreases uses.len(),
{
    if uses.len() == 0 {
        (Seq::empty(), held)
    } else {
        let (out, left) = piped(held, uses.drop_last());
        let (more, kept) = used(left, uses.last());
        (out + more, kept)
    }
}

/// All bytes put in over `uses`.
pub open spec fn all_pushed(uses: Seq<PipeUse>) -> Seq<u8>
    decreases uses.len(),
{
    if uses.len() == 0 {
        Seq::empty()
    } else {
        match uses.last() {
            PipeUse::Push(bytes) => all_pushed(uses.drop_last()) + bytes,
            PipeUse::Read(_) => all_pushed(uses.drop_last()),
        }
    }
}

/// A pipe loses, repeats and reorders nothing: what it has handed out, followed by what it
/// still holds, is what it held and was given.
pub proof fn law_pipe_keeps_bytes_in_order(held: Seq<u8>, uses: Seq<PipeUse>)
    ensures
        piped(held, uses).0 + piped(held, uses).1 == held + all_pushed(uses),
    decreases uses.len(),
{
    if uses.len() == 0 {
        assert(piped(held, uses).0 + piped(held, uses).1 =~= held + all_pushed(uses));
    } else {
        law_pipe_keeps_bytes_in_order(held, uses.drop_last());
        let (out, left) = piped(held, uses.drop_last());
        match uses.last() {
            PipeUse::Push(bytes) => {
                assert((out + Seq::empty()) + (left + bytes) =~= held + (all_pushed(uses.drop_last()) + bytes)) by {
                    assert((out + Seq::empty()) + (left + bytes) =~= (out + left) + bytes);
                }
            },
            PipeUse::Read(size) => {
                let n = lesser(size, left.len()) as int;
                assert((out + left.take(n)) + left.skip(n) =~= out + left);
            },
        }
    }
}

/// A pipe is `pipes`, one after the other, as it is put to `uses`, which hand out `outs`:
/// each use does what pushing or reading does.
pub open spec fn goes_through<W>(
    pipes: Seq<HostStdin<W>>,
    uses: Seq<PipeUse>,
    outs: Seq<Seq<u8>>,
) -> bool {
    &&& pipes.len() == uses.len() + 1
    &&& outs.len() == uses.len()
    &&& forall|i: int|
        0 <= i < uses.len() ==> (outs[i], pipes[i + 1].bytes()) == used(
            pipes[i].bytes(),
            #[trigger] uses[i],
        )
}

/// Pushing to the guest's standard input and reading from it, in whatever turn, lose, repeat
/// and reorder nothing: what has been read, followed by what waits to be read, is what
/// waited at first and what was pushed.
pub proof fn law_stdin_keeps_bytes_in_order<W>(
    pipes: Seq<HostStdin<W>>,
    uses: Seq<PipeUse>,
    outs: Seq<Seq<u8>>,
)
    requires
        goes_through(pipes, uses, outs),
    ensures
        outs.flatten() + pipes.last().bytes() == pipes[0].bytes() + all_pushed(uses),
{
    lemma_stdin_is_piped(pipes, uses, outs);
    law_pipe_keeps_bytes_in_order(pipes[0].bytes(), uses);
}

proof fn lemma_stdin_is_piped<W>(
    pipes: Seq<HostStdin<W>>,
    uses: Seq<PipeUse>,
    outs: Seq<Seq<u8>>,
)
    requires
        goes_through(pipes, uses, outs),
    ensures
        piped(pipes[0].bytes(), uses) == (outs.flatten(), pipes.last().bytes()),
    decreases uses.len(),
{
    if uses.len() == 0 {
        assert(outs.flatten() =~= Seq::empty());
    } else {
        let k = uses.len() - 1;
        let (ps, us, os) = (pipes.drop_last(), uses.drop_last(), outs.drop_last());
        assert forall|i: int| 0 <= i < us.len() implies (os[i], ps[i + 1].bytes()) == used(
            ps[i].bytes(),
            #[trigger] us[i],
        ) by {
            assert(us[i] == uses[i]);
        }
        lemma_stdin_is_piped(ps, us, os);
        assert((outs[k], pipes[k + 1].bytes()) == used(pipes[k].bytes(), uses[k]));
        outs.lemma_flatten_and_flatten_alt_are_equivalent();
        os.lemma_flatten_and_flatten_alt_are_equivalent();
        assert(outs.flatten_alt() == os.flatten_alt() + outs.last());
    }
}

/// Pushed bytes go to the end, all of them. A read takes bytes off the front, as many as were
/// asked for or as there are.
pub proof fn law_uses_of_a_pipe(held: Seq<u8>, bytes: Seq<u8>, size: nat)
    ensures
        used(held, PipeUse::Push(bytes)).1 == held + bytes,
        used(held, PipeUse::Push(bytes)).0.len() == 0,
        used(held, PipeUse::Read(size)).0 + used(held, PipeUse::Read(size)).1 == held,
        size <= held.len() ==> used(held, PipeUse::Read(size)).0.len() == size,
        size >= held.len() ==> used(held, PipeUse::Read(size)).0 == held && used(
            held,
            PipeUse::Read(size),
        ).1.len() == 0,
{
    let (out, left) = used(held, PipeUse::Read(size));
    assert(out + left =~= held);
    if size >= held.len() {
        assert(out =~= held);
    }
}

} // verus!

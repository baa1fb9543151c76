//! A stream with bytes to read before its own: what a handshake has read
//! past the response head belongs to the tunnel, and is handed out first.

use vstd::prelude::*;

verus! {

/// A byte buffer and the position up to which it has been read. As with a
/// cursor of the standard library, the position may be set behind the end
/// of the buffer, and nothing is left to read from there.
#[derive(Debug, PartialEq, Eq)]
pub struct Cursor {
    inner: Vec<u8>,
    pos: usize,
}

impl Cursor {
    /// All the bytes of the buffer, read or not.
    pub closed spec fn bytes(&self) -> Seq<u8> {
        self.inner@
    }

    /// The position: how many bytes count as read.
    pub closed spec fn pos(&self) -> nat {
        self.pos as nat
    }

    /// The bytes still to be read: those from the position on.
    pub open spec fn remaining(&self) -> Seq<u8> {
        if self.pos() <= self.bytes().len() {
            self.bytes().skip(self.pos() as int)
        } else {
            Seq::empty()
        }
    }

    /// A cursor at the start of `inner`.
    pub fn new(inner: Vec<u8>) -> (cursor: Cursor)
        ensures
            cursor.bytes() == inner@,
            cursor.pos() == 0,
    {
        Cursor { inner, pos: 0 }
    }

    /// The position.
    pub fn position(&self) -> (pos: usize)
        ensures
            pos == self.pos(),
    {
        self.pos
    }

    /// Moves the position to `pos`.
    pub fn set_position(&mut self, pos: usize)
        ensures
            final(self).bytes() == old(self).bytes(),
            final(self).pos() == pos,
    {
        self.pos = pos;
    }

    /// The buffer, read or not.
    pub fn get_ref(&self) -> (inner: &Vec<u8>)
        ensures
            inner@ == self.bytes(),
    {
        &self.inner
    }

    /// The buffer, read or not.
    pub fn into_inner(self) -> (inner: Vec<u8>)
        ensures
            inner@ == self.bytes(),
    {
        self.inner
    }

    /// The bytes still to be read.
    pub fn remaining_slice(&self) -> (rest: &[u8])
        ensures
            rest@ == self.remaining(),
    {
        if self.pos <= self.inner.len() {
            let rest = &self.inner.as_slice()[self.pos..self.inner.len()];
            assert(rest@ =~= self.remaining());
            rest
        } else {
            let rest: &[u8] = &[];
            rest
        }
    }

    /// Reads into the front of `buf` as many of the remaining bytes as
    /// `buf` has room for, and says how many these were. The position
    /// moves on by as many.
    pub fn read(&mut self, buf: &mut [u8]) -> (n: usize)
        ensures
            n == replayed_len(old(self).remaining(), old(buf)@.len()),
            final(buf)@ == old(self).remaining().take(n as int) + old(buf)@.skip(n as int),
            final(self).bytes() == old(self).bytes(),
            final(self).pos() == old(self).pos() + n,
            final(self).remaining() == old(self).remaining().skip(n as int),
    {
        if self.pos >= self.inner.len() {
            assert(buf@ =~= old(self).remaining().take(0) + old(buf)@.skip(0));
            assert(self.remaining() =~= old(self).remaining().skip(0));
            return 0;
        }
        let start: usize = self.pos;
        let left: usize = self.inner.len() - start;
        let n: usize = if buf.len() < left { buf.len() } else { left };
        let mut i: usize = 0;
        while i < n
            invariant
                i <= n,
                n <= buf@.len(),
                buf@.len() == old(buf)@.len(),
                start + n <= self.inner@.len() <= usize::MAX,
                start == old(self).pos,
                *self == *old(self),
                buf@ == old(self).remaining().take(i as int) + old(buf)@.skip(i as int),
            decreases n - i,
        {
            buf[i] = self.inner[start + i];
            i += 1;
            assert(buf@ =~= old(self).remaining().take(i as int) + old(buf)@.skip(i as int));
        }
        self.pos = start + n;
        assert(self.remaining() =~= old(self).remaining().skip(n as int));
        n
    }
}

/// How many bytes a read with room for `room` bytes takes from `pending`.
pub open spec fn replayed_len(pending: Seq<u8>, room: nat) -> nat {
    if room < pending.len() {
        room
    } else {
        pending.len()
    }
}

/// What is still pending after reads with room for `rooms[0]`, `rooms[1]`
/// and so on, one after the other, each of them as `PrependIoStream::read`
/// answers it.
pub open spec fn pending_after(pending: Seq<u8>, rooms: Seq<nat>) -> Seq<u8>
    decreases rooms.len(),
{
    if rooms.len() == 0 {
        pending
    } else {
        pending_after(
            pending.skip(replayed_len(pending, rooms[0]) as int),
            rooms.drop_first(),
        )
    }
}

/// The bytes that those reads hand out, in the order of the reads.
pub open spec fn replayed(pending: Seq<u8>, rooms: Seq<nat>) -> Seq<u8>
    decreases rooms.len(),
{
    if rooms.len() == 0 {
        Seq::empty()
    } else {
        let n = replayed_len(pending, rooms[0]) as int;
        pending.take(n) + replayed(pending.skip(n), rooms.drop_first())
    }
}

/// The sum of `rooms`.
pub open spec fn total(rooms: Seq<nat>) -> nat
    decreases rooms.len(),
{
    if rooms.len() == 0 {
        0
    } else {
        rooms[0] + total(rooms.drop_first())
    }
}

/// Reads hand out the pending bytes in their order, none twice and none
/// left out: what any number of reads have handed out, followed by what is
/// still pending, is what was pending before them.
pub proof fn lemma_replay_in_order(pending: Seq<u8>, rooms: Seq<nat>)
    ensures
        replayed(pending, rooms) + pending_after(pending, rooms) == pending,
    decreases rooms.len(),
{
    if rooms.len() == 0 {
        assert(replayed(pending, rooms) + pending_after(pending, rooms) =~= pending);
    } else {
        let n = replayed_len(pending, rooms[0]) as int;
        lemma_replay_in_order(pending.skip(n), rooms.drop_first());
        assert(replayed(pending, rooms) + pending_after(pending, rooms) =~= pending.take(n) + (
            replayed(pending.skip(n), rooms.drop_first()) + pending_after(
                pending.skip(n),
                rooms.drop_first(),
            )));
        assert(pending.take(n) + pending.skip(n) =~= pending);
    }
}

/// Once nothing is pending, nothing is pending ever after, and no read
/// hands out a byte.
pub proof fn lemma_drained_for_good(pending: Seq<u8>, rooms: Seq<nat>)
    requires
        pending.len() == 0,
    ensures
        pending_after(pending, rooms).len() == 0,
        replayed(pending, rooms).len() == 0,
    decreases rooms.len(),
{
    if rooms.len() > 0 {
        lemma_drained_for_good(pending.skip(0), rooms.drop_first());
    }
}

/// Reads drain what is pending, be they one or many: when their rooms add
/// up to the number of pending bytes or more, nothing is pending after
/// them, and they have handed out every byte.
pub proof fn lemma_reads_drain(pending: Seq<u8>, rooms: Seq<nat>)
    requires
        total(rooms) >= pending.len(),
    ensures
        pending_after(pending, rooms).len() == 0,
        replayed(pending, rooms) == pending,
    decreases rooms.len(),
{
    if rooms.len() > 0 {
        let n = replayed_len(pending, rooms[0]) as int;
        lemma_reads_drain(pending.skip(n), rooms.drop_first());
    }
    lemma_replay_in_order(pending, rooms);
    assert(replayed(pending, rooms) + pending_after(pending, rooms) =~= replayed(pending, rooms));
}

/// A stream with, possibly, bytes to read before its own.
#[derive(Debug)]
pub enum PrependIoStream<T> {
    /// Reads take from the cursor while it has bytes left.
    Chain(Cursor, T),
    /// Reads go to the stream.
    Plain(T),
}

/// Which way a read went.
#[derive(Debug, Clone, Copy, PartialEq, Eq)]
pub enum ReadPath {
    /// The read was answered with this many of the pending bytes. The
    /// inner stream is not to be read for it.
    Replay(usize),
    /// No bytes are pending: the read is the inner stream's to answer.
    Forward,
}

impl<T> PrependIoStream<T> {
    /// The bytes that reads hand out before any of the inner stream's.
    pub open spec fn pending(&self) -> Seq<u8> {
        match self {
            PrependIoStream::Chain(cursor, _) => cursor.remaining(),
            PrependIoStream::Plain(_) => Seq::empty(),
        }
    }

    /// The inner stream.
    pub open spec fn inner(&self) -> T {
        match self {
            PrependIoStream::Chain(_, stream) => *stream,
            PrependIoStream::Plain(stream) => *stream,
        }
    }

    /// The stream and the cursor that `into_inner` gives: the cursor only
    /// while it has bytes left.
    pub open spec fn decomposed(&self) -> (T, Option<Cursor>) {
        match self {
            PrependIoStream::Chain(cursor, stream) => if cursor.remaining().len() > 0 {
                (*stream, Some(*cursor))
            } else {
                (*stream, None)
            },
            PrependIoStream::Plain(stream) => (*stream, None),
        }
    }

    /// Taking a wrapper apart loses none of the pending bytes: while some
    /// are pending they are what is left of the cursor given back, and no
    /// cursor is given back once none are.
    pub proof fn lemma_decomposed(self)
        ensures
            self.decomposed().0 == self.inner(),
            match self.decomposed().1 {
                Some(cursor) => cursor.remaining() == self.pending() && self.pending().len() > 0,
                None => self.pending().len() == 0,
            },
    {
    }

    /// `stream` with the bytes of `read_prepend` to read before it. Without
    /// such bytes it is the plain stream.
    pub fn from_vec(stream: T, read_prepend: Option<Vec<u8>>) -> (wrapped: Self)
        ensures
            wrapped.inner() == stream,
            wrapped.pending() == match read_prepend {
                Some(bytes) => bytes@,
                None => Seq::empty(),
            },
            wrapped is Chain <==> wrapped.pending().len() > 0,
            wrapped matches PrependIoStream::Chain(cursor, _) ==> cursor.pos() == 0
                && cursor.bytes() == wrapped.pending(),
    {
        match read_prepend {
            None => Self::plain(stream),
            Some(bytes) => {
                if bytes.len() == 0 {
                    Self::plain(stream)
                } else {
                    Self::from_cursor(stream, Cursor::new(bytes))
                }
            },
        }
    }

    /// `stream` with what is left of `read_prepend` to read before it.
    pub fn from_cursor(stream: T, read_prepend: Cursor) -> (wrapped: Self)
        ensures
            wrapped.inner() == stream,
            wrapped.pending() == read_prepend.remaining(),
            wrapped is Chain <==> wrapped.pending().len() > 0,
            wrapped matches PrependIoStream::Chain(cursor, _) ==> cursor == read_prepend,
    {
        Self::chain(read_prepend, stream)
    }

    /// What is left of `first`, then `second`.
    pub fn chain(first: Cursor, second: T) -> (wrapped: Self)
        ensures
            wrapped.inner() == second,
            wrapped.pending() == first.remaining(),
            wrapped is Chain <==> wrapped.pending().len() > 0,
            wrapped matches PrependIoStream::Chain(cursor, _) ==> cursor == first,
    {
        if first.position() < first.get_ref().len() {
            PrependIoStream::Chain(first, second)
        } else {
            PrependIoStream::Plain(second)
        }
    }

    /// `stream` with nothing to read before it.
    pub fn plain(stream: T) -> (wrapped: Self)
        ensures
            wrapped == PrependIoStream::Plain(stream),
    {
        PrependIoStream::Plain(stream)
    }

    /// Takes the wrapper apart: the inner stream, and the cursor if it has
    /// bytes left.
    pub fn into_inner(self) -> (parts: (T, Option<Cursor>))
        ensures
            parts == self.decomposed(),
    {
        match self {
            PrependIoStream::Chain(cursor, stream) => {
                if cursor.position() < cursor.get_ref().len() {
                    (stream, Some(cursor))
                } else {
                    (stream, None)
                }
            },
            PrependIoStream::Plain(stream) => (stream, None),
        }
    }

    /// The inner stream.
    pub fn get_ref(&self) -> (stream: &T)
        ensures
            *stream == self.inner(),
    {
        match self {
            PrependIoStream::Chain(_, stream) => stream,
            PrependIoStream::Plain(stream) => stream,
        }
    }

    /// The inner stream, to write to: a write is the inner stream's alone,
    /// and leaves what is pending as it is.
    pub fn get_mut(&mut self) -> (stream: &mut T)
        ensures
            *stream == old(self).inner(),
            final(self).inner() == *final(stream),
            final(self).pending() == old(self).pending(),
            final(self).decomposed().1 == old(self).decomposed().1,
            *final(self) is Chain <==> *old(self) is Chain,
    {
        match self {
            PrependIoStream::Chain(_, stream) => stream,
            PrependIoStream::Plain(stream) => stream,
        }
    }

    /// The bytes that reads hand out before any of the inner stream's.
    pub fn pending_prepend_data(&self) -> (data: &[u8])
        ensures
            data@ == self.pending(),
    {
        match self {
            PrependIoStream::Chain(cursor, _) => cursor.remaining_slice(),
            PrependIoStream::Plain(_) => {
                let cursor: &[u8] = &[];
                cursor
            },
        }
    }

    /// Answers a read into `buf` from the pending bytes, if there are any:
    /// as many as `buf` has room for go to its front, in their order, and
    /// the inner stream is left alone. Once none are pending the wrapper is
    /// the plain stream, and the read is the inner stream's to answer.
    pub fn read(self, buf: &mut [u8]) -> (after: (Self, ReadPath))
        ensures
            after.0.inner() == self.inner(),
            after.0 is Chain <==> after.0.pending().len() > 0,
            after.0 matches PrependIoStream::Chain(cursor, _) ==> self matches PrependIoStream::Chain(
                before,
                _,
            ) && cursor.bytes() == before.bytes() && cursor.pos() == before.pos() + replayed_len(
                self.pending(),
                old(buf)@.len(),
            ),
            self.pending().len() > 0 ==> {
                let n = replayed_len(self.pending(), old(buf)@.len());
                &&& after.1 == ReadPath::Replay(n as usize)
                &&& final(buf)@ == self.pending().take(n as int) + old(buf)@.skip(n as int)
                &&& after.0.pending() == self.pending().skip(n as int)
            },
            self.pending().len() == 0 ==> {
                &&& after.1 == ReadPath::Forward
                &&& final(buf)@ == old(buf)@
                &&& after.0.pending() == self.pending()
            },
    {
        match self {
            PrependIoStream::Plain(stream) => (PrependIoStream::Plain(stream), ReadPath::Forward),
            PrependIoStream::Chain(cursor, stream) => {
                if cursor.position() >= cursor.get_ref().len() {
                    return (PrependIoStream::Plain(stream), ReadPath::Forward);
                }
                let mut cursor = cursor;
                let n = cursor.read(buf);
                (Self::chain(cursor, stream), ReadPath::Replay(n))
            },
        }
    }
}

} // verus!

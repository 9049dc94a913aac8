//! Framing of the messages that a client sends: bytes gather in a buffer of
//! fixed size until one ends with the delimiter.

use vstd::prelude::*;
use crate::protocol::DELIMITER;

verus! {

/// Size of a client's receive buffer.
pub const SOCKET_CONNECTION_BUF_SIZE: usize = 1024;

/// A client's receive buffer: the bytes of the message being received.
pub struct CommandBuffer {
    buf: Vec<u8>,
    index: usize,
}

/// What a read from the client gives.
#[derive(Debug, PartialEq, Eq)]
pub enum Received {
    /// Nothing was read: the client closed, or the buffer is full.
    Done,
    /// A part of a message; more is to come.
    Partial,
    /// A whole message, without its delimiter.
    Message(Vec<u8>),
}

impl View for CommandBuffer {
    type V = Seq<u8>;

    closed spec fn view(&self) -> Seq<u8> {
        self.buf@.take(self.index as int)
    }
}

impl CommandBuffer {
    /// The buffer holds at most `SOCKET_CONNECTION_BUF_SIZE` bytes.
    pub closed spec fn wf(&self) -> bool {
        &&& self.buf@.len() == SOCKET_CONNECTION_BUF_SIZE
        &&& self.index <= SOCKET_CONNECTION_BUF_SIZE
    }

    /// An empty buffer.
    pub fn new() -> (r: CommandBuffer)
        ensures
            r.wf(),
            r@ == Seq::<u8>::empty(),
    {
        let mut buf: Vec<u8> = Vec::with_capacity(SOCKET_CONNECTION_BUF_SIZE);
        let mut i: usize = 0;
        while i < SOCKET_CONNECTION_BUF_SIZE
            invariant
                i <= SOCKET_CONNECTION_BUF_SIZE,
                buf@.len() == i,
            decreases SOCKET_CONNECTION_BUF_SIZE - i,
        {
            buf.push(0u8);
            i = i + 1;
        }
        let r = CommandBuffer { buf, index: 0 };
        assert(r@ =~= Seq::<u8>::empty());
        r
    }

    /// How many bytes the next read may bring.
    pub fn room(&self) -> (r: usize)
        requires
            self.wf(),
        ensures
            r == SOCKET_CONNECTION_BUF_SIZE - self@.len(),
    {
        SOCKET_CONNECTION_BUF_SIZE - self.index
    }

    /// Takes the bytes `data` of a read: none means the read is done; bytes
    /// that end with the delimiter complete a message, which is given
    /// without its delimiter, and the buffer empties; other bytes wait for
    /// the rest of their message.
    pub fn receive(&mut self, data: &[u8]) -> (r: Received)
        requires
            old(self).wf(),
            data@.len() <= SOCKET_CONNECTION_BUF_SIZE - old(self)@.len(),
        ensures
            final(self).wf(),
            data@.len() == 0 ==> r == Received::Done && final(self)@ == old(self)@,
            data@.len() > 0 && data@.last() == DELIMITER ==> {
                &&& r matches Received::Message(m) && m@ == (old(self)@ + data@).drop_last()
                &&& final(self)@ == Seq::<u8>::empty()
            },
            data@.len() > 0 && data@.last() != DELIMITER ==> {
                &&& r == Received::Partial
                &&& final(self)@ == old(self)@ + data@
            },
    {
        if data.len() == 0 {
            return Received::Done;
        }
        let ghost before = self@;
        let ghost start = self.index;
        let mut i: usize = 0;
        while i < data.len()
            invariant
                i <= data@.len(),
                self.index == start,
                before == old(self)@,
                before.len() == start,
                self.buf@.len() == SOCKET_CONNECTION_BUF_SIZE,
                self.index + data@.len() <= SOCKET_CONNECTION_BUF_SIZE,
                self.buf@.take(self.index + i) == before + data@.take(i as int),
            decreases data.len() - i,
        {
            let ghost prev = self.buf@;
            self.buf.set(self.index + i, data[i]);
            assert(self.buf@.take(self.index + i + 1) =~= prev.take(self.index + i).push(data@[i as int]));
            assert(data@.take(i + 1) =~= data@.take(i as int).push(data@[i as int]));
            i = i + 1;
        }
        assert(data@.take(data@.len() as int) =~= data@);
        self.index = self.index + data.len();
        assert(self.buf@.take(self.index as int) == before + data@);
        assert(self.buf@[self.index - 1] == (before + data@)[self.index - 1]);
        assert(self.buf@[self.index - 1] == data@.last());
        if self.buf[self.index - 1] == DELIMITER {
            let mut message: Vec<u8> = Vec::new();
            let mut j: usize = 0;
            while j < self.index - 1
                invariant
                    j <= self.index - 1,
                    self.index >= 1,
                    self.index <= self.buf@.len(),
                    message@ == self.buf@.take(j as int),
                decreases self.index - 1 - j,
            {
                message.push(self.buf[j]);
                assert(self.buf@.take(j + 1) =~= self.buf@.take(j as int).push(self.buf@[j as int]));
                j = j + 1;
            }
            assert(message@ =~= (before + data@).drop_last());
            self.index = 0;
            assert(self@ =~= Seq::<u8>::empty());
            Received::Message(message)
        } else {
            Received::Partial
        }
    }
}

} // verus!

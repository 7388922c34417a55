//! A message as one forward-only source of bytes: first the encoded header
//! and attributes, then the payload. The source has two stages and never
//! copies the payload: while bytes of the head are left it hands those out,
//! as many at a time as the caller has room for, and only when the head is
//! exhausted does it give up the payload, whose bytes the caller then reads
//! from the payload's own reader.
use vstd::prelude::*;
use crate::payload::IppPayload;

verus! {

/// Where a source stands.
#[derive(Clone, Copy, Debug, PartialEq, Eq, Structural)]
pub enum Stage {
    /// Bytes of the head are left.
    Head,
    /// The head is exhausted and the payload has not been taken.
    Payload,
    /// The head is exhausted and there is no payload, or it has been taken.
    Done,
}

/// The mathematical content of an [`IppReader`].
pub struct ReaderView<R> {
    /// The encoded header and attributes.
    pub head: Seq<u8>,
    /// How many bytes of the head have been handed out.
    pub pos: nat,
    /// The payload, until it is taken.
    pub payload: Option<IppPayload<R>>,
}

impl<R> ReaderView<R> {
    /// The stage of a source with this content.
    pub open spec fn stage(self) -> Stage {
        if self.pos < self.head.len() {
            Stage::Head
        } else if self.payload is Some {
            Stage::Payload
        } else {
            Stage::Done
        }
    }
}

/// A two-stage source of the bytes of a message.
pub struct IppReader<R> {
    head: Vec<u8>,
    pos: usize,
    payload: Option<IppPayload<R>>,
}

impl<R> View for IppReader<R> {
    type V = ReaderView<R>;

    closed spec fn view(&self) -> ReaderView<R> {
        ReaderView {
            head: self.head@,
            pos: if self.pos <= self.head@.len() {
                self.pos as nat
            } else {
                self.head@.len()
            },
            payload: self.payload,
        }
    }
}

impl<R> IppReader<R> {
    /// A source that yields `head` and then `payload`.
    pub fn new(head: Vec<u8>, payload: Option<IppPayload<R>>) -> (r: IppReader<R>)
        ensures
            r@ == (ReaderView { head: head@, pos: 0, payload }),
    {
        IppReader { head, pos: 0, payload }
    }

    /// Where the source stands.
    pub fn stage(&self) -> (s: Stage)
        ensures
            s == self@.stage(),
            self@.pos <= self@.head.len(),
    {
        if self.pos < self.head.len() {
            Stage::Head
        } else if self.payload.is_some() {
            Stage::Payload
        } else {
            Stage::Done
        }
    }

    /// How many bytes of the head are left.
    pub fn head_remaining(&self) -> (n: usize)
        ensures
            n == self@.head.len() - self@.pos,
    {
        if self.pos < self.head.len() {
            self.head.len() - self.pos
        } else {
            0
        }
    }

    /// Copies the next bytes of the head to the front of `buf`, as many as
    /// are left and fit, and returns their number. The rest of `buf` stays as
    /// it was. The result is zero only where `buf` is empty or the head is
    /// exhausted.
    pub fn read_head(&mut self, buf: &mut [u8]) -> (n: usize)
        ensures
            n == if old(self)@.head.len() - old(self)@.pos < old(buf)@.len() {
                old(self)@.head.len() - old(self)@.pos
            } else {
                old(buf)@.len() as int
            },
            final(self)@ == (ReaderView { pos: old(self)@.pos + n as nat, ..old(self)@ }),
            final(buf)@ == old(self)@.head.subrange(
                old(self)@.pos as int,
                old(self)@.pos + n as int,
            ) + old(buf)@.subrange(n as int, old(buf)@.len() as int),
    {
        let left: usize = self.head_remaining();
        let n: usize = if left < buf.len() {
            left
        } else {
            buf.len()
        };
        let start: usize = self.pos;
        let len: usize = self.head.len();
        let ghost from = old(self)@.pos as int;
        let mut i: usize = 0;
        proof {
            assert(buf@ =~= self.head@.subrange(from, from) + old(buf)@.subrange(
                0,
                old(buf)@.len() as int,
            ));
        }
        while i < n
            invariant
                0 <= i <= n,
                n <= buf@.len(),
                buf@.len() == old(buf)@.len(),
                n > 0 ==> start == from,
                0 <= from,
                from + n <= self.head@.len(),
                len == self.head@.len(),
                self.pos == start,
                self.head == old(self).head,
                self.payload == old(self).payload,
                buf@ == self.head@.subrange(from, from + i as int) + old(buf)@.subrange(
                    i as int,
                    old(buf)@.len() as int,
                ),
            decreases n - i,
        {
            buf[i] = self.head[start + i];
            i += 1;
            assert(buf@ =~= self.head@.subrange(from, from + i as int) + old(buf)@.subrange(
                i as int,
                old(buf)@.len() as int,
            ));
        }
        if n > 0 {
            self.pos = start + n;
        }
        n
    }

    /// Gives up the payload once the head is exhausted. Before that, and
    /// where there is no payload or it has been taken, the result is `None`
    /// and nothing changes.
    pub fn take_payload(&mut self) -> (p: Option<IppPayload<R>>)
        ensures
            p == if old(self)@.stage() == Stage::Payload {
                old(self)@.payload
            } else {
                None
            },
            final(self)@ == if old(self)@.stage() == Stage::Payload {
                ReaderView { payload: None, ..old(self)@ }
            } else {
                old(self)@
            },
    {
        if self.pos < self.head.len() {
            None
        } else {
            self.payload.take()
        }
    }
}

} // verus!

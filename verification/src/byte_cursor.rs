//! A read position over a borrowed byte buffer, with bounds-checked
//! fixed-width reads.

use crate::binlog_error::BinlogError;
use crate::endian::{be_value, le_value, read_u64_le, read_uint_be};
use vstd::prelude::*;
use vstd::slice::slice_subrange;

verus! {

/// What a [`ByteCursor`] stands for: the bytes already consumed and the
/// bytes still to be read, which together are the buffer.
pub struct CursorView {
    pub consumed: Seq<u8>,
    pub unread: Seq<u8>,
}

impl CursorView {
    /// The read position: how many bytes have been consumed.
    pub open spec fn position(self) -> nat {
        self.consumed.len()
    }

    /// The whole buffer.
    pub open spec fn bytes(self) -> Seq<u8> {
        self.consumed + self.unread
    }

    /// The state after `n` more bytes have been consumed.
    pub open spec fn advance(self, n: nat) -> CursorView
        recommends
            n <= self.unread.len(),
    {
        CursorView {
            consumed: self.consumed + self.unread.take(n as int),
            unread: self.unread.skip(n as int),
        }
    }

    /// Advancing moves the position and leaves the buffer as it is; it can
    /// be done in steps.
    pub proof fn lemma_advance(self, n: nat, m: nat)
        requires
            n + m <= self.unread.len(),
        ensures
            self.advance(n).position() == self.position() + n,
            self.advance(n).bytes() == self.bytes(),
            self.advance(n).unread.len() == self.unread.len() - n,
            self.advance(n).advance(m) == self.advance(n + m),
            self.advance(0) == self,
    {
        assert(self.advance(n).bytes() =~= self.bytes());
        assert(self.advance(n).advance(m).consumed =~= self.advance(n + m).consumed);
        assert(self.advance(n).advance(m).unread =~= self.advance(n + m).unread);
        assert(self.advance(0).consumed =~= self.consumed);
        assert(self.advance(0).unread =~= self.unread);
    }

    /// After `n` bytes, a further step of up to `m` bytes lands where a
    /// single step from the start does, whether the `m` bytes are there or
    /// the input ends first.
    pub proof fn lemma_step(self, n: nat, m: nat)
        requires
            n <= self.unread.len(),
        ensures
            self.advance(n).unread == self.unread.skip(n as int),
            self.advance(n).unread.len() == self.unread.len() - n,
            n + m <= self.unread.len() ==> self.advance(n).advance(m) == self.advance(n + m),
            n + m > self.unread.len() ==> self.advance(n).advance(self.advance(n).unread.len())
                == self.advance(self.unread.len()),
    {
        if n + m <= self.unread.len() {
            self.lemma_advance(n, m);
        } else {
            self.lemma_advance(n, (self.unread.len() - n) as nat);
        }
    }
}

/// A cursor over a byte buffer. The position never passes the end.
pub struct ByteCursor<'a> {
    data: &'a [u8],
    pos: usize,
}

impl<'a> View for ByteCursor<'a> {
    type V = CursorView;

    closed spec fn view(&self) -> CursorView {
        CursorView {
            consumed: self.data@.take(self.pos as int),
            unread: self.data@.skip(self.pos as int),
        }
    }
}

impl<'a> ByteCursor<'a> {
    #[verifier::type_invariant]
    spec fn in_bounds(self) -> bool {
        self.pos <= self.data@.len()
    }

    /// A cursor at the start of `data`.
    pub fn new(data: &'a [u8]) -> (cursor: Self)
        ensures
            cursor@.consumed == Seq::<u8>::empty(),
            cursor@.unread == data@,
    {
        let cursor = ByteCursor { data, pos: 0 };
        assert(cursor@.consumed =~= Seq::<u8>::empty());
        assert(cursor@.unread =~= data@);
        cursor
    }

    /// How many bytes have been consumed.
    pub fn position(&self) -> (pos: usize)
        ensures
            pos == self@.position(),
    {
        proof {
            use_type_invariant(self);
        }
        self.pos
    }

    /// How many bytes are left to read.
    pub fn remaining(&self) -> (left: usize)
        ensures
            left == self@.unread.len(),
    {
        proof {
            use_type_invariant(self);
        }
        self.data.len() - self.pos
    }

    /// Consumes one byte.
    pub fn read_u8(&mut self) -> (res: Result<u8, BinlogError>)
        ensures
            match res {
                Ok(byte) => {
                    &&& old(self)@.unread.len() >= 1
                    &&& byte == old(self)@.unread[0]
                    &&& final(self)@ == old(self)@.advance(1)
                },
                Err(e) => {
                    &&& e == BinlogError::UnexpectedEndOfInput
                    &&& old(self)@.unread.len() == 0
                    &&& final(self)@ == old(self)@
                },
            },
    {
        proof {
            use_type_invariant(&*self);
        }
        if self.pos < self.data.len() {
            let byte = self.data[self.pos];
            self.pos = self.pos + 1;
            proof {
                assert(self@.consumed =~= old(self)@.advance(1).consumed);
                assert(self@.unread =~= old(self)@.advance(1).unread);
            }
            Ok(byte)
        } else {
            Err(BinlogError::UnexpectedEndOfInput)
        }
    }

    /// Consumes eight bytes and returns them as a little-endian integer.
    /// Nothing is consumed when fewer than eight bytes are left.
    pub fn read_u64_le(&mut self) -> (res: Result<u64, BinlogError>)
        ensures
            match res {
                Ok(value) => {
                    &&& old(self)@.unread.len() >= 8
                    &&& value as nat == le_value(old(self)@.unread.take(8))
                    &&& final(self)@ == old(self)@.advance(8)
                },
                Err(e) => {
                    &&& e == BinlogError::UnexpectedEndOfInput
                    &&& old(self)@.unread.len() < 8
                    &&& final(self)@ == old(self)@
                },
            },
    {
        proof {
            use_type_invariant(&*self);
        }
        if self.data.len() - self.pos < 8 {
            return Err(BinlogError::UnexpectedEndOfInput);
        }
        let field = slice_subrange(self.data, self.pos, self.pos + 8);
        let value = read_u64_le(field);
        self.pos = self.pos + 8;
        proof {
            assert(field@.take(8) =~= old(self)@.unread.take(8));
            assert(self@.consumed =~= old(self)@.advance(8).consumed);
            assert(self@.unread =~= old(self)@.advance(8).unread);
        }
        Ok(value)
    }

    /// Consumes `nbytes` bytes and returns them as a big-endian integer; no
    /// bytes make zero. Nothing is consumed when fewer than `nbytes` bytes are
    /// left. More than eight bytes do not fit the result.
    pub fn read_uint_be(&mut self, nbytes: usize) -> (res: Result<u64, BinlogError>)
        requires
            nbytes <= 8,
        ensures
            match res {
                Ok(value) => {
                    &&& old(self)@.unread.len() >= nbytes
                    &&& value as nat == be_value(old(self)@.unread.take(nbytes as int))
                    &&& final(self)@ == old(self)@.advance(nbytes as nat)
                },
                Err(e) => {
                    &&& e == BinlogError::UnexpectedEndOfInput
                    &&& old(self)@.unread.len() < nbytes
                    &&& final(self)@ == old(self)@
                },
            },
    {
        proof {
            use_type_invariant(&*self);
        }
        if self.data.len() - self.pos < nbytes {
            return Err(BinlogError::UnexpectedEndOfInput);
        }
        let value = if nbytes == 0 {
            0
        } else {
            let field = slice_subrange(self.data, self.pos, self.pos + nbytes);
            assert(field@.take(nbytes as int) =~= old(self)@.unread.take(nbytes as int));
            read_uint_be(field, nbytes)
        };
        self.pos = self.pos + nbytes;
        proof {
            assert(self@.consumed =~= old(self)@.advance(nbytes as nat).consumed);
            assert(self@.unread =~= old(self)@.advance(nbytes as nat).unread);
        }
        Ok(value)
    }
}

} // verus!

//! A reader over bytes held in memory.

use crate::error::Av1Error;
use vstd::prelude::*;
use vstd::slice::slice_subrange;

verus! {

/// Bytes with a read position. Its view is what is still to be read.
pub struct ByteReader {
    data: Vec<u8>,
    pos: usize,
}

impl View for ByteReader {
    type V = Seq<u8>;

    closed spec fn view(&self) -> Seq<u8> {
        self.data@.skip(self.pos as int)
    }
}

impl ByteReader {
    #[verifier::type_invariant]
    spec fn position_in_bounds(self) -> bool {
        self.pos <= self.data@.len()
    }

    /// A reader at the first byte of `data`.
    pub fn new(data: Vec<u8>) -> (reader: Self)
        ensures
            reader@ == data@,
    {
        assert(data@.skip(0) =~= data@);
        ByteReader { data, pos: 0 }
    }

    /// The bytes that are still to be read; none is consumed.
    pub fn fill_buf(&self) -> (buf: &[u8])
        ensures
            buf@ == self@,
    {
        proof {
            use_type_invariant(self);
        }
        let buf = slice_subrange(self.data.as_slice(), self.pos, self.data.len());
        assert(buf@ =~= self@);
        buf
    }

    /// Takes the next `len` bytes. Where fewer are left, all of them are
    /// consumed and the read fails.
    pub fn read_exact(&mut self, len: usize) -> (r: Result<Vec<u8>, Av1Error>)
        ensures
            match r {
                Ok(bytes) => {
                    &&& len <= old(self)@.len()
                    &&& bytes@ == old(self)@.take(len as int)
                    &&& final(self)@ == old(self)@.skip(len as int)
                },
                Err(e) => {
                    &&& old(self)@.len() < len
                    &&& e == Av1Error::UnexpectedEof
                    &&& final(self)@ == Seq::<u8>::empty()
                },
            },
    {
        proof {
            use_type_invariant(&*self);
        }
        let left: usize = self.data.len() - self.pos;
        if left < len {
            self.pos = self.data.len();
            assert(self@ =~= Seq::<u8>::empty());
            return Err(Av1Error::UnexpectedEof);
        }
        let end: usize = self.pos + len;
        let bytes = vstd::slice::slice_to_vec(
            slice_subrange(self.data.as_slice(), self.pos, end),
        );
        self.pos = end;
        assert(bytes@ =~= old(self)@.take(len as int));
        assert(self@ =~= old(self)@.skip(len as int));
        Ok(bytes)
    }
}

} // verus!

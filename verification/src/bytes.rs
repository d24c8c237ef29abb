//! Plain seekable byte streams for the container formats that are neither
//! enciphered nor compressed.

use vstd::prelude::*;

verus! {

/// Reads little-endian records out of a byte buffer.
pub struct ByteReader {
    data: Vec<u8>,
    pos: usize,
}

impl ByteReader {
    /// The whole underlying buffer.
    pub closed spec fn bytes(&self) -> Seq<u8> {
        self.data@
    }

    pub closed spec fn spec_pos(&self) -> int {
        self.pos as int
    }

    pub fn new(data: Vec<u8>) -> (r: ByteReader)
        ensures
            r.bytes() == data@,
            r.spec_pos() == 0,
    {
        ByteReader { data, pos: 0 }
    }

    pub fn stream_len(&self) -> (r: usize)
        ensures
            r as int == self.bytes().len(),
    {
        self.data.len()
    }

    pub fn position(&self) -> (r: usize)
        ensures
            r as int == self.spec_pos(),
    {
        self.pos
    }

    /// The cursor can never stand before the start of the stream.
    pub proof fn lemma_pos_nonneg(&self)
        ensures
            self.spec_pos() >= 0,
    {
    }

    pub fn seek_to(&mut self, p: usize)
        ensures
            final(self).bytes() == old(self).bytes(),
            final(self).spec_pos() == p as int,
    {
        self.pos = p;
    }

    /// Read exactly `n` bytes at the current position; fails (like a short
    /// read) when fewer than `n` bytes remain.
    pub fn read_exact(&mut self, n: usize) -> (r: Option<Vec<u8>>)
        ensures
            final(self).bytes() == old(self).bytes(),
            match r {
                Some(v) => {
                    &&& old(self).spec_pos() + n <= old(self).bytes().len()
                    &&& v@ == old(self).bytes().subrange(
                        old(self).spec_pos(),
                        old(self).spec_pos() + n,
                    )
                    &&& final(self).spec_pos() == old(self).spec_pos() + n
                },
                None => {
                    &&& old(self).spec_pos() + n > old(self).bytes().len()
                    &&& final(self).spec_pos() == old(self).spec_pos()
                },
            },
    {
        let pos = self.pos;
        if n > self.data.len() || pos > self.data.len() - n {
            return None;
        }
        let v = vstd::slice::slice_to_vec(
            vstd::slice::slice_subrange(self.data.as_slice(), pos, pos + n),
        );
        self.pos = pos + n;
        Some(v)
    }

    /// Read a little-endian `u16` at the current position.
    pub fn read_u16(&mut self) -> (r: Option<u16>)
        ensures
            final(self).bytes() == old(self).bytes(),
            match r {
                Some(x) => {
                    &&& old(self).spec_pos() + 2 <= old(self).bytes().len()
                    &&& x == vstd::bytes::spec_u16_from_le_bytes(
                        old(self).bytes().subrange(old(self).spec_pos(), old(self).spec_pos() + 2),
                    )
                    &&& final(self).spec_pos() == old(self).spec_pos() + 2
                },
                None => {
                    &&& old(self).spec_pos() + 2 > old(self).bytes().len()
                    &&& final(self).spec_pos() == old(self).spec_pos()
                },
            },
    {
        match self.read_exact(2) {
            Some(v) => Some(vstd::bytes::u16_from_le_bytes(v.as_slice())),
            None => None,
        }
    }

    /// Read a little-endian `u32` at the current position.
    pub fn read_u32(&mut self) -> (r: Option<u32>)
        ensures
            final(self).bytes() == old(self).bytes(),
            match r {
                Some(x) => {
                    &&& old(self).spec_pos() + 4 <= old(self).bytes().len()
                    &&& x == vstd::bytes::spec_u32_from_le_bytes(
                        old(self).bytes().subrange(old(self).spec_pos(), old(self).spec_pos() + 4),
                    )
                    &&& final(self).spec_pos() == old(self).spec_pos() + 4
                },
                None => {
                    &&& old(self).spec_pos() + 4 > old(self).bytes().len()
                    &&& final(self).spec_pos() == old(self).spec_pos()
                },
            },
    {
        match self.read_exact(4) {
            Some(v) => Some(vstd::bytes::u32_from_le_bytes(v.as_slice())),
            None => None,
        }
    }

    /// Read one byte at the current position.
    pub fn read_u8(&mut self) -> (r: Option<u8>)
        ensures
            final(self).bytes() == old(self).bytes(),
            match r {
                Some(x) => {
                    &&& old(self).spec_pos() + 1 <= old(self).bytes().len()
                    &&& x == old(self).bytes()[old(self).spec_pos()]
                    &&& final(self).spec_pos() == old(self).spec_pos() + 1
                },
                None => {
                    &&& old(self).spec_pos() + 1 > old(self).bytes().len()
                    &&& final(self).spec_pos() == old(self).spec_pos()
                },
            },
    {
        match self.read_exact(1) {
            Some(v) => Some(v[0]),
            None => None,
        }
    }
}

/// Appends little-endian records to a byte buffer.
pub struct ByteWriter {
    out: Vec<u8>,
}

impl ByteWriter {
    /// Everything written so far.
    pub closed spec fn bytes(&self) -> Seq<u8> {
        self.out@
    }

    pub fn new() -> (r: ByteWriter)
        ensures
            r.bytes() == Seq::<u8>::empty(),
    {
        let r = ByteWriter { out: Vec::new() };
        proof {
            assert(r.bytes() =~= Seq::<u8>::empty());
        }
        r
    }

    pub fn stream_len(&self) -> (r: usize)
        ensures
            r as int == self.bytes().len(),
    {
        self.out.len()
    }

    pub fn write_bytes(&mut self, b: &[u8])
        ensures
            final(self).bytes() == old(self).bytes() + b@,
    {
        let mut v = vstd::slice::slice_to_vec(b);
        self.out.append(&mut v);
    }

    pub fn write_u8(&mut self, x: u8)
        ensures
            final(self).bytes() == old(self).bytes() + seq![x],
    {
        let ghost b0 = self.out@;
        self.out.push(x);
        proof {
            assert(self.out@ =~= b0 + seq![x]);
        }
    }

    pub fn write_u16(&mut self, x: u16)
        ensures
            final(self).bytes() == old(self).bytes() + vstd::bytes::spec_u16_to_le_bytes(x),
    {
        let mut v = vstd::bytes::u16_to_le_bytes(x);
        self.out.append(&mut v);
    }

    pub fn write_u32(&mut self, x: u32)
        ensures
            final(self).bytes() == old(self).bytes() + vstd::bytes::spec_u32_to_le_bytes(x),
    {
        let mut v = vstd::bytes::u32_to_le_bytes(x);
        self.out.append(&mut v);
    }

    /// Overwrite the 4 bytes at `pos` with a little-endian `u32`: the
    /// resolution half of the offset-backpatching pattern for plain
    /// containers.
    pub fn patch_u32(&mut self, pos: usize, x: u32)
        requires
            pos + 4 <= old(self).bytes().len(),
        ensures
            final(self).bytes() == crate::patch::spec_patch(old(self).bytes(), pos as int, x),
    {
        let b = vstd::bytes::u32_to_le_bytes(x);
        let ghost s0 = self.out@;
        let total = self.out.len();
        let mut i: usize = 0;
        while i < 4
            invariant
                0 <= i <= 4,
                pos + 4 <= total,
                total == self.out@.len(),
                b@ == vstd::bytes::spec_u32_to_le_bytes(x),
                b@.len() == 4,
                pos + 4 <= s0.len(),
                self.out@.len() == s0.len(),
                forall|k: int| 0 <= k < i ==> self.out@[pos + k] == b@[k],
                forall|k: int|
                    0 <= k < s0.len() && !(pos <= k < pos + i) ==> self.out@[k] == s0[k],
            decreases 4 - i,
        {
            self.out[pos + i] = b[i];
            i = i + 1;
        }
        proof {
            crate::stream::lemma_spec_write_within(s0, pos as int, b@);
            assert(self.out@ =~= s0.take(pos as int) + b@ + s0.skip(pos as int + 4));
        }
    }

    pub fn into_bytes(self) -> (r: Vec<u8>)
        ensures
            r@ == self.bytes(),
    {
        self.out
    }
}

} // verus!

//! In-memory seekable byte streams behind the keystream transform.
//!
//! `XorWriter` builds a ciphered byte buffer while its contract speaks of the
//! *plaintext* image: every write XORs the given bytes with the keystream at
//! their absolute positions, so deciphering the finished buffer yields
//! exactly the bytes that were written.  `XorReader` is the matching read
//! side over a ciphered buffer.  Both support absolute seeks; a seek past
//! the end of a writer's buffer is filled so the skipped plaintext reads as
//! zero until it is overwritten.

use vstd::prelude::*;

use crate::cipher::{apply_keystream, mask_at, mask_byte};

verus! {

/// The plaintext image after writing `b` at position `pos` of image `s`:
/// the image grows (zero-filled) as needed, and `b` overwrites `[pos,
/// pos + b.len())`.
pub open spec fn spec_write(s: Seq<u8>, pos: int, b: Seq<u8>) -> Seq<u8> {
    let padded = if s.len() >= pos {
        s
    } else {
        s + Seq::new((pos - s.len()) as nat, |i: int| 0u8)
    };
    let end = if padded.len() >= pos + b.len() {
        padded.len() as int
    } else {
        pos + b.len()
    };
    Seq::new(
        end as nat,
        |i: int|
            if pos <= i < pos + b.len() {
                b[i - pos]
            } else {
                padded[i]
            },
    )
}

/// Writing at the end of the image appends.
pub proof fn lemma_spec_write_append(s: Seq<u8>, b: Seq<u8>)
    ensures
        spec_write(s, s.len() as int, b) == s + b,
{
    assert(spec_write(s, s.len() as int, b) =~= s + b);
}

/// A write that stays inside the existing image splices `b` between the
/// unchanged prefix and suffix.
pub proof fn lemma_spec_write_within(s: Seq<u8>, pos: int, b: Seq<u8>)
    requires
        0 <= pos,
        pos + b.len() <= s.len(),
    ensures
        spec_write(s, pos, b) == s.take(pos) + b + s.skip(pos + b.len()),
{
    assert(spec_write(s, pos, b) =~= s.take(pos) + b + s.skip(pos + b.len()));
}

/// Writes a ciphered buffer; contracts describe the plaintext image.
pub struct XorWriter {
    out: Vec<u8>,
    pos: usize,
    key: Vec<u8>,
}

impl XorWriter {
    /// The key must be non-empty for the keystream index to be defined.
    pub closed spec fn wf(&self) -> bool {
        self.key@.len() > 0
    }

    pub closed spec fn spec_key(&self) -> Seq<u8> {
        self.key@
    }

    /// The plaintext image of everything written so far.
    pub closed spec fn plain(&self) -> Seq<u8> {
        apply_keystream(self.key@, self.out@)
    }

    pub closed spec fn spec_pos(&self) -> int {
        self.pos as int
    }

    pub fn new(key: Vec<u8>) -> (r: XorWriter)
        requires
            key@.len() > 0,
        ensures
            r.wf(),
            r.spec_key() == key@,
            r.plain() == Seq::<u8>::empty(),
            r.spec_pos() == 0,
    {
        let r = XorWriter { out: Vec::new(), pos: 0, key };
        proof {
            assert(r.plain() =~= Seq::<u8>::empty());
        }
        r
    }

    pub fn position(&self) -> (r: usize)
        ensures
            r as int == self.spec_pos(),
    {
        self.pos
    }

    pub fn stream_len(&self) -> (r: usize)
        ensures
            r as int == self.plain().len(),
    {
        self.out.len()
    }

    pub fn seek_to(&mut self, p: usize)
        ensures
            final(self).wf() == old(self).wf(),
            final(self).spec_key() == old(self).spec_key(),
            final(self).plain() == old(self).plain(),
            final(self).spec_pos() == p as int,
    {
        self.pos = p;
    }

    /// Write all of `buf` at the current position, advancing it.
    pub fn write_all(&mut self, buf: &[u8])
        requires
            old(self).wf(),
            old(self).spec_pos() + buf@.len() <= u32::MAX,
        ensures
            final(self).wf(),
            final(self).spec_key() == old(self).spec_key(),
            final(self).plain() == spec_write(old(self).plain(), old(self).spec_pos(), buf@),
            final(self).spec_pos() == old(self).spec_pos() + buf@.len(),
    {
        let ghost plain0 = self.plain();
        let ghost key = self.key@;
        let pos = self.pos;
        // Fill any gap between the end of the buffer and the write position
        // so that the skipped plaintext reads as zero.
        while self.out.len() < pos
            invariant
                self.key@ == key,
                key.len() > 0,
                self.pos == pos,
                plain0.len() <= self.out@.len(),
                self.out@.len() <= pos || self.out@.len() == plain0.len(),
                forall|k: int|
                    0 <= k < self.out@.len() ==> self.plain()[k] == if k < plain0.len() {
                        plain0[k]
                    } else {
                        0u8
                    },
            decreases pos - self.out.len(),
        {
            let n = self.out.len();
            let ghost old_out = self.out@;
            let ghost old_plain = self.plain();
            let m = mask_byte(&self.key, n);
            self.out.push(m);
            proof {
                assert(m ^ m == 0u8) by (bit_vector);
                assert forall|k: int|
                    0 <= k < self.out@.len() implies self.plain()[k] == (if k < plain0.len() {
                        plain0[k]
                    } else {
                        0u8
                    }) by {
                    if k < n as int {
                        assert(self.out@[k] == old_out[k]);
                        assert(self.plain()[k] == old_out[k] ^ mask_at(key, k));
                        assert(old_plain[k] == old_out[k] ^ mask_at(key, k));
                        assert(old_plain[k] == (if k < plain0.len() {
                            plain0[k]
                        } else {
                            0u8
                        }));
                    } else {
                        assert(k == n as int);
                        assert(self.out@[k] == m);
                        assert(self.plain()[k] == m ^ mask_at(key, k));
                        assert(m == mask_at(key, n as int));
                    }
                }
            }
        }
        let ghost padded = self.plain();
        proof {
            assert(padded.len() == if plain0.len() >= pos as int {
                plain0.len() as int
            } else {
                pos as int
            });
        }
        let mut i: usize = 0;
        while i < buf.len()
            invariant
                self.key@ == key,
                key.len() > 0,
                self.pos == pos,
                0 <= i <= buf@.len(),
                pos + buf@.len() <= u32::MAX,
                padded.len() >= pos,
                padded.len() >= plain0.len(),
                padded.len() == plain0.len() || padded.len() == pos as int,
                forall|k: int|
                    0 <= k < padded.len() ==> padded[k] == if k < plain0.len() {
                        plain0[k]
                    } else {
                        0u8
                    },
                self.out@.len() == if padded.len() >= pos + i {
                    padded.len() as int
                } else {
                    pos + i
                },
                forall|k: int|
                    pos <= k < pos + i ==> self.plain()[k] == buf@[k - pos],
                forall|k: int|
                    0 <= k < padded.len() && !(pos <= k < pos + i) ==> self.plain()[k]
                        == padded[k],
            decreases buf@.len() - i,
        {
            let ghost old_out = self.out@;
            let ghost old_plain = self.plain();
            let c = buf[i] ^ mask_byte(&self.key, pos + i);
            proof {
                crate::cipher::lemma_xor_involution(buf@[i as int], mask_at(key, pos + i));
            }
            if pos + i < self.out.len() {
                self.out[pos + i] = c;
            } else {
                self.out.push(c);
            }
            proof {
                assert(self.out@[pos + i] == c);
                assert(self.plain()[pos + i] == c ^ mask_at(key, pos + i));
                assert(self.plain()[pos + i] == buf@[i as int]);
                assert forall|k: int|
                    pos <= k < pos + i + 1 implies self.plain()[k] == buf@[k - pos] by {
                    if k != pos + i {
                        assert(self.out@[k] == old_out[k]);
                        assert(self.plain()[k] == old_out[k] ^ mask_at(key, k));
                        assert(old_plain[k] == old_out[k] ^ mask_at(key, k));
                    }
                }
                assert forall|k: int|
                    0 <= k < padded.len() && !(pos <= k < pos + i + 1) implies self.plain()[k]
                    == padded[k] by {
                    assert(self.out@[k] == old_out[k]);
                    assert(self.plain()[k] == old_out[k] ^ mask_at(key, k));
                    assert(old_plain[k] == old_out[k] ^ mask_at(key, k));
                }
            }
            i = i + 1;
        }
        proof {
            let target = spec_write(plain0, pos as int, buf@);
            assert(self.plain().len() == target.len());
            assert forall|k: int| 0 <= k < target.len() implies self.plain()[k] == target[k] by {
                if pos <= k < pos + buf@.len() {
                    assert(self.plain()[k] == buf@[k - pos]);
                } else {
                    assert(k < padded.len());
                    assert(self.plain()[k] == padded[k]);
                }
            }
            assert(self.plain() =~= target);
        }
        self.pos = pos + buf.len();
    }

    /// Hand back the ciphered buffer; deciphering it yields the plaintext
    /// image that was written.
    pub fn into_bytes(self) -> (r: Vec<u8>)
        ensures
            apply_keystream(self.spec_key(), r@) == self.plain(),
            r@.len() == self.plain().len(),
    {
        self.out
    }
}

/// Reads a ciphered buffer; contracts describe the plaintext image.
pub struct XorReader {
    data: Vec<u8>,
    pos: usize,
    key: Vec<u8>,
}

impl XorReader {
    pub closed spec fn wf(&self) -> bool {
        self.key@.len() > 0
    }

    pub closed spec fn spec_key(&self) -> Seq<u8> {
        self.key@
    }

    /// The plaintext image of the whole buffer.
    pub closed spec fn plain(&self) -> Seq<u8> {
        apply_keystream(self.key@, self.data@)
    }

    pub closed spec fn spec_pos(&self) -> int {
        self.pos as int
    }

    pub fn new(data: Vec<u8>, key: Vec<u8>) -> (r: XorReader)
        requires
            key@.len() > 0,
        ensures
            r.wf(),
            r.spec_key() == key@,
            r.plain() == apply_keystream(key@, data@),
            r.spec_pos() == 0,
    {
        XorReader { data, pos: 0, key }
    }

    pub fn stream_len(&self) -> (r: usize)
        ensures
            r as int == self.plain().len(),
    {
        self.data.len()
    }

    pub fn position(&self) -> (r: usize)
        ensures
            r as int == self.spec_pos(),
    {
        self.pos
    }

    /// The cursor can never stand before the start of the stream.
    pub proof fn lemma_pos_nonneg(&self)
        ensures
            self.spec_pos() >= 0,
    {
    }

    pub fn seek_to(&mut self, p: usize)
        ensures
            final(self).wf() == old(self).wf(),
            final(self).spec_key() == old(self).spec_key(),
            final(self).plain() == old(self).plain(),
            final(self).spec_pos() == p as int,
    {
        self.pos = p;
    }

    /// Skip `n` bytes forward from the current position.
    pub fn skip(&mut self, n: usize) -> (r: bool)
        ensures
            final(self).wf() == old(self).wf(),
            final(self).spec_key() == old(self).spec_key(),
            final(self).plain() == old(self).plain(),
            r == (old(self).spec_pos() + n <= usize::MAX),
            r ==> final(self).spec_pos() == old(self).spec_pos() + n,
            !r ==> final(self).spec_pos() == old(self).spec_pos(),
    {
        match self.pos.checked_add(n) {
            Some(p) => {
                self.pos = p;
                true
            },
            None => false,
        }
    }

    /// Read exactly `n` plaintext bytes at the current position; fails (like
    /// a short read) when fewer than `n` bytes remain.
    pub fn read_exact(&mut self, n: usize) -> (r: Option<Vec<u8>>)
        requires
            old(self).wf(),
        ensures
            final(self).wf(),
            final(self).spec_key() == old(self).spec_key(),
            final(self).plain() == old(self).plain(),
            match r {
                Some(v) => {
                    &&& old(self).spec_pos() + n <= old(self).plain().len()
                    &&& v@ == old(self).plain().subrange(
                        old(self).spec_pos(),
                        old(self).spec_pos() + n,
                    )
                    &&& final(self).spec_pos() == old(self).spec_pos() + n
                },
                None => {
                    &&& old(self).spec_pos() + n > old(self).plain().len()
                    &&& final(self).spec_pos() == old(self).spec_pos()
                },
            },
    {
        let pos = self.pos;
        if n > self.data.len() || pos > self.data.len() - n {
            return None;
        }
        let mut v: Vec<u8> = Vec::new();
        let mut i: usize = 0;
        while i < n
            invariant
                self.wf(),
                self.key@.len() > 0,
                self.pos == pos,
                0 <= i <= n,
                pos + n <= self.data@.len(),
                self.data@.len() <= usize::MAX,
                v@.len() == i as int,
                forall|k: int| 0 <= k < i ==> v@[k] == self.plain()[pos + k],
            decreases n - i,
        {
            let b = self.data[pos + i] ^ mask_byte(&self.key, pos + i);
            proof {
                assert(self.plain()[pos + i] == self.data@[pos + i] ^ mask_at(
                    self.key@,
                    pos + i,
                ));
            }
            v.push(b);
            i = i + 1;
        }
        self.pos = pos + n;
        proof {
            assert(v@ =~= self.plain().subrange(pos as int, pos + n));
        }
        Some(v)
    }

    /// Read a little-endian `u16` at the current position.
    pub fn read_u16(&mut self) -> (r: Option<u16>)
        requires
            old(self).wf(),
        ensures
            final(self).wf(),
            final(self).spec_key() == old(self).spec_key(),
            final(self).plain() == old(self).plain(),
            match r {
                Some(x) => {
                    &&& old(self).spec_pos() + 2 <= old(self).plain().len()
                    &&& x == vstd::bytes::spec_u16_from_le_bytes(
                        old(self).plain().subrange(old(self).spec_pos(), old(self).spec_pos() + 2),
                    )
                    &&& final(self).spec_pos() == old(self).spec_pos() + 2
                },
                None => {
                    &&& old(self).spec_pos() + 2 > old(self).plain().len()
                    &&& final(self).spec_pos() == old(self).spec_pos()
                },
            },
    {
        match self.read_exact(2) {
            Some(v) => Some(vstd::bytes::u16_from_le_bytes(v.as_slice())),
            None => None,
        }
    }

    /// Read a little-endian `u32` at the current position.
    pub fn read_u32(&mut self) -> (r: Option<u32>)
        requires
            old(self).wf(),
        ensures
            final(self).wf(),
            final(self).spec_key() == old(self).spec_key(),
            final(self).plain() == old(self).plain(),
            match r {
                Some(x) => {
                    &&& old(self).spec_pos() + 4 <= old(self).plain().len()
                    &&& x == vstd::bytes::spec_u32_from_le_bytes(
                        old(self).plain().subrange(old(self).spec_pos(), old(self).spec_pos() + 4),
                    )
                    &&& final(self).spec_pos() == old(self).spec_pos() + 4
                },
                None => {
                    &&& old(self).spec_pos() + 4 > old(self).plain().len()
                    &&& final(self).spec_pos() == old(self).spec_pos()
                },
            },
    {
        match self.read_exact(4) {
            Some(v) => Some(vstd::bytes::u32_from_le_bytes(v.as_slice())),
            None => None,
        }
    }
}

} // verus!

use crate::bits::{bits_value, bytes_bits, bytes_of_bits, lemma_bits_value_bound, padded_len, zeros};
use crate::buf::BitBuf;
use crate::render::{debug, render};
use vstd::arithmetic::power2::{lemma2_to64, lemma2_to64_rest, lemma_pow2_strictly_increases, pow2};
use vstd::layout::unsigned_int_max_values;
use vstd::prelude::*;
use vstd::slice::slice_to_vec;

verus! {

/// A cursor over a fixed bit sequence, read from the front.
#[derive(Clone)]
pub struct FleaBitReader {
    pub(crate) bits: BitBuf,
    pub(crate) pos: usize,
}

impl FleaBitReader {
    /// The whole bit sequence, read or not.
    pub closed spec fn bits(&self) -> Seq<bool> {
        self.bits@
    }

    /// How many bits have been read.
    pub closed spec fn pos(&self) -> nat {
        self.pos as nat
    }

    pub closed spec fn wf(&self) -> bool {
        self.bits.wf() && self.pos <= self.bits@.len()
    }

    /// The read position never passes the end.
    pub proof fn lemma_pos_in_range(&self)
        requires
            self.wf(),
        ensures
            self.pos() <= self.bits().len(),
    {
    }

    /// A cursor at the start of `b`.
    pub(crate) fn from_buf(b: BitBuf) -> (r: Self)
        requires
            b.wf(),
        ensures
            r.wf(),
            r.bits() == b@,
            r.pos() == 0,
    {
        FleaBitReader { bits: b, pos: 0 }
    }

    /// Bit `i`, whatever has been read.
    pub(crate) fn bit(&self, i: usize) -> (r: bool)
        requires
            self.wf(),
            i < self.bits().len(),
        ensures
            r == self.bits()[i as int],
    {
        self.bits.get(i)
    }

    /// A cursor at the start of every bit of `v`.
    pub fn from_vec(v: Vec<u8>) -> (r: Self)
        requires
            v@.len() * 8 <= usize::MAX,
        ensures
            r.wf(),
            r.bits() == bytes_bits(v@),
            r.pos() == 0,
    {
        FleaBitReader { bits: BitBuf::from_bytes(v), pos: 0 }
    }

    /// A cursor at the start of every bit of a copy of `v`.
    pub fn from_slice(v: &[u8]) -> (r: Self)
        requires
            v@.len() * 8 <= usize::MAX,
        ensures
            r.wf(),
            r.bits() == bytes_bits(v@),
            r.pos() == 0,
    {
        Self::from_vec(slice_to_vec(v))
    }

    pub fn bool(&mut self) -> (r: bool)
        requires
            old(self).wf(),
            old(self).pos() < old(self).bits().len(),
        ensures
            final(self).wf(),
            final(self).bits() == old(self).bits(),
            final(self).pos() == old(self).pos() + 1,
            r == old(self).bits()[old(self).pos() as int],
    {
        let b = self.bits.get(self.pos);
        self.pos = self.pos + 1;
        b
    }

    /// Reads `n` bits as an unsigned number, the first bit read being the least
    /// significant.
    fn read_uint(&mut self, n: usize) -> (r: u64)
        requires
            old(self).wf(),
            n <= 64,
            old(self).pos() + n <= old(self).bits().len(),
        ensures
            final(self).wf(),
            final(self).bits() == old(self).bits(),
            final(self).pos() == old(self).pos() + n,
            r as nat == bits_value(
                old(self).bits().subrange(old(self).pos() as int, old(self).pos() + n),
            ),
            (r as nat) < pow2(n as nat),
    {
        let start = self.pos;
        let ghost s = self.bits@;
        let mut r: u64 = 0;
        let mut i: usize = n;
        proof {
            lemma2_to64();
            assert(s.subrange(start + n, start + n) =~= Seq::<bool>::empty());
        }
        while i > 0
            invariant
                self.wf(),
                self.bits@ == s,
                self.pos == start,
                start + n <= s.len(),
                n <= 64,
                i <= n,
                r as nat == bits_value(s.subrange(start + i, start + n)),
            decreases i,
        {
            i -= 1;
            let b = self.bits.get(start + i);
            let ghost tail = s.subrange(start + i + 1, start + n);
            let ghost whole = s.subrange(start + i, start + n);
            proof {
                assert(whole.drop_first() =~= tail);
                lemma_bits_value_bound(tail);
                if n - i - 1 < 63 {
                    lemma_pow2_strictly_increases((n - i - 1) as nat, 63);
                }
                lemma2_to64_rest();
            }
            r = 2 * r + if b {
                1u64
            } else {
                0u64
            };
        }
        self.pos = start + n;
        proof {
            lemma_bits_value_bound(s.subrange(start as int, start + n));
        }
        r
    }

    pub fn u8(&mut self) -> (r: u8)
        requires
            old(self).wf(),
            old(self).pos() + 8 <= old(self).bits().len(),
        ensures
            final(self).wf(),
            final(self).bits() == old(self).bits(),
            final(self).pos() == old(self).pos() + 8,
            r as nat == bits_value(
                old(self).bits().subrange(old(self).pos() as int, old(self).pos() + 8int),
            ),
    {
        proof {
            lemma2_to64();
        }
        self.read_uint(8) as u8
    }

    /// Reads `bits` bits; the high bits of the result are zero.
    pub fn u8_part(&mut self, bits: usize) -> (r: u8)
        requires
            old(self).wf(),
            bits <= 8,
            old(self).pos() + bits <= old(self).bits().len(),
        ensures
            final(self).wf(),
            final(self).bits() == old(self).bits(),
            final(self).pos() == old(self).pos() + bits,
            r as nat == bits_value(
                old(self).bits().subrange(old(self).pos() as int, old(self).pos() + bits),
            ),
    {
        let r = self.read_uint(bits);
        proof {
            lemma2_to64();
            if bits < 8 {
                lemma_pow2_strictly_increases(bits as nat, 8);
            }
        }
        r as u8
    }

    pub fn u16(&mut self) -> (r: u16)
        requires
            old(self).wf(),
            old(self).pos() + 16 <= old(self).bits().len(),
        ensures
            final(self).wf(),
            final(self).bits() == old(self).bits(),
            final(self).pos() == old(self).pos() + 16,
            r as nat == bits_value(
                old(self).bits().subrange(old(self).pos() as int, old(self).pos() + 16int),
            ),
    {
        proof {
            lemma2_to64();
        }
        self.read_uint(16) as u16
    }

    /// Reads `bits` bits; the high bits of the result are zero.
    pub fn u16_part(&mut self, bits: usize) -> (r: u16)
        requires
            old(self).wf(),
            bits <= 16,
            old(self).pos() + bits <= old(self).bits().len(),
        ensures
            final(self).wf(),
            final(self).bits() == old(self).bits(),
            final(self).pos() == old(self).pos() + bits,
            r as nat == bits_value(
                old(self).bits().subrange(old(self).pos() as int, old(self).pos() + bits),
            ),
    {
        let r = self.read_uint(bits);
        proof {
            lemma2_to64();
            if bits < 16 {
                lemma_pow2_strictly_increases(bits as nat, 16);
            }
        }
        r as u16
    }

    pub fn u32(&mut self) -> (r: u32)
        requires
            old(self).wf(),
            old(self).pos() + 32 <= old(self).bits().len(),
        ensures
            final(self).wf(),
            final(self).bits() == old(self).bits(),
            final(self).pos() == old(self).pos() + 32,
            r as nat == bits_value(
                old(self).bits().subrange(old(self).pos() as int, old(self).pos() + 32int),
            ),
    {
        proof {
            lemma2_to64();
        }
        self.read_uint(32) as u32
    }

    /// Reads as many bits as a `usize` has.
    pub fn usize(&mut self) -> (r: usize)
        requires
            old(self).wf(),
            old(self).pos() + usize::BITS <= old(self).bits().len(),
        ensures
            final(self).wf(),
            final(self).bits() == old(self).bits(),
            final(self).pos() == old(self).pos() + usize::BITS,
            r as nat == bits_value(
                old(self).bits().subrange(
                    old(self).pos() as int,
                    old(self).pos() + usize::BITS,
                ),
            ),
    {
        self.usize_part(usize::BITS as usize)
    }

    /// Reads `bits` bits; the high bits of the result are zero.
    pub fn usize_part(&mut self, bits: usize) -> (r: usize)
        requires
            old(self).wf(),
            bits <= usize::BITS,
            old(self).pos() + bits <= old(self).bits().len(),
        ensures
            final(self).wf(),
            final(self).bits() == old(self).bits(),
            final(self).pos() == old(self).pos() + bits,
            r as nat == bits_value(
                old(self).bits().subrange(old(self).pos() as int, old(self).pos() + bits),
            ),
    {
        let r = self.read_uint(bits);
        proof {
            unsigned_int_max_values();
            if bits < usize::BITS {
                lemma_pow2_strictly_increases(bits as nat, usize::BITS as nat);
            }
        }
        r as usize
    }

    /// Reads `bytes_len` whole bytes, each from the next eight bits, whether or not
    /// the cursor stands on a byte boundary.
    pub fn bytes(&mut self, bytes_len: usize) -> (r: Vec<u8>)
        requires
            old(self).wf(),
            old(self).pos() + 8 * bytes_len <= old(self).bits().len(),
        ensures
            final(self).wf(),
            final(self).bits() == old(self).bits(),
            final(self).pos() == old(self).pos() + 8 * bytes_len,
            r@ == bytes_of_bits(old(self).bits(), old(self).pos() as int, bytes_len as nat),
    {
        let start = self.pos;
        let ghost s = self.bits@;
        let mut out: Vec<u8> = Vec::new();
        let mut j: usize = 0;
        while j < bytes_len
            invariant
                self.wf(),
                self.bits@ == s,
                start + 8 * bytes_len <= s.len(),
                j <= bytes_len,
                self.pos == start + 8 * j,
                out@ == bytes_of_bits(s, start as int, j as nat),
            decreases bytes_len - j,
        {
            let b = self.u8();
            out.push(b);
            proof {
                assert(out@ =~= bytes_of_bits(s, start as int, (j + 1) as nat));
            }
            j += 1;
        }
        out
    }

    /// A new cursor, at its start, over the bits not yet read; this cursor is left as
    /// it was.
    pub fn crop_end(&mut self) -> (r: Self)
        requires
            old(self).wf(),
        ensures
            final(self).wf(),
            final(self).bits() == old(self).bits(),
            final(self).pos() == old(self).pos(),
            r.wf(),
            r.bits() == old(self).bits().subrange(old(self).pos() as int, old(self).bits().len() as int),
            r.pos() == 0,
    {
        let ghost s = self.bits@;
        let mut rest = BitBuf::new();
        let mut i: usize = self.pos;
        while i < self.bits.len
            invariant
                self.wf(),
                self.bits@ == s,
                self.pos <= i <= s.len(),
                rest.wf(),
                rest@ == s.subrange(self.pos as int, i as int),
            decreases s.len() - i,
        {
            let b = self.bits.get(i);
            rest.push(b);
            proof {
                assert(rest@ =~= s.subrange(self.pos as int, i + 1));
            }
            i += 1;
        }
        FleaBitReader { bits: rest, pos: 0 }
    }

    /// Total number of bits.
    pub fn len(&self) -> (r: usize)
        requires
            self.wf(),
        ensures
            r == self.bits().len(),
    {
        self.bits.len
    }

    /// Number of bits not yet read.
    pub fn remaining_len(&self) -> (r: usize)
        requires
            self.wf(),
        ensures
            r == self.bits().len() - self.pos(),
    {
        self.bits.len - self.pos
    }

    pub fn is_end(&self) -> (r: bool)
        requires
            self.wf(),
        ensures
            r == (self.pos() >= self.bits().len()),
    {
        self.pos >= self.bits.len
    }

    /// The bytes that hold every bit, read or not; the unused high bits of the last
    /// byte are clear.
    pub fn into_vec(self) -> (r: Vec<u8>)
        requires
            self.wf(),
        ensures
            8 * r@.len() == padded_len(self.bits().len()),
            bytes_bits(r@) == self.bits() + zeros(
                (padded_len(self.bits().len()) - self.bits().len()) as nat,
            ),
    {
        self.bits.into_bytes()
    }

    /// Every bit in groups of eight, see `render`.
    pub fn to_string(&self) -> (r: String)
        requires
            self.wf(),
        ensures
            r@ == render(self.bits()),
    {
        debug(&self.bits)
    }
}

} // verus!

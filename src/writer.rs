use crate::bits::{bytes_bits, int_bits, padded_len, zeros};
use crate::buf::BitBuf;
use crate::reader::FleaBitReader;
use crate::render::{debug, render};
use vstd::arithmetic::div_mod::lemma_div_denominator;
use vstd::arithmetic::power2::{lemma2_to64, lemma_pow2_pos, lemma_pow2_unfold, pow2};
use vstd::prelude::*;

verus! {

/// An append-only bit sequence.
#[derive(Clone)]
pub struct FleaBitWriter(BitBuf);

impl View for FleaBitWriter {
    type V = Seq<bool>;

    closed spec fn view(&self) -> Seq<bool> {
        self.0@
    }
}

impl FleaBitWriter {
    pub closed spec fn wf(&self) -> bool {
        self.0.wf()
    }

    pub fn new() -> (r: Self)
        ensures
            r.wf(),
            r@ == Seq::<bool>::empty(),
    {
        FleaBitWriter(BitBuf::new())
    }

    /// Number of bits written.
    pub fn len(&self) -> (r: usize)
        requires
            self.wf(),
        ensures
            r == self@.len(),
    {
        self.0.len
    }

    /// Appends one bit.
    pub fn bool(&mut self, v: bool)
        requires
            old(self).wf(),
            old(self)@.len() < usize::MAX,
        ensures
            final(self).wf(),
            final(self)@ == old(self)@.push(v),
    {
        self.0.push(v);
    }

    /// Overwrites the bit at `pos`, which must already have been written.
    pub fn set_bool(&mut self, pos: usize, v: bool)
        requires
            old(self).wf(),
            pos < old(self)@.len(),
        ensures
            final(self).wf(),
            final(self)@ == old(self)@.update(pos as int, v),
    {
        self.0.set(pos, v);
    }

    /// Appends the low `n` bits of `v`, least significant first.
    fn push_uint(&mut self, v: u64, n: usize)
        requires
            old(self).wf(),
            n <= 64,
            old(self)@.len() + n <= usize::MAX,
        ensures
            final(self).wf(),
            final(self)@ == old(self)@ + int_bits(v as nat, n as nat),
    {
        let mut w: u64 = v;
        let mut i: usize = 0;
        proof {
            lemma2_to64();
            assert(old(self)@ + int_bits(v as nat, 0) =~= old(self)@);
        }
        while i < n
            invariant
                self.wf(),
                i <= n,
                n <= 64,
                old(self)@.len() + n <= usize::MAX,
                w as nat == v as nat / pow2(i as nat),
                self@ == old(self)@ + int_bits(v as nat, i as nat),
            decreases n - i,
        {
            let b = w % 2 == 1;
            self.0.push(b);
            proof {
                lemma_pow2_pos(i as nat);
                lemma_pow2_unfold((i + 1) as nat);
                lemma_div_denominator(v as int, pow2(i as nat) as int, 2);
                assert(old(self)@ + int_bits(v as nat, (i + 1) as nat) =~= (old(self)@ + int_bits(
                    v as nat,
                    i as nat,
                )).push(b));
            }
            w = w / 2;
            i += 1;
        }
    }

    /// Appends the eight bits of `v`.
    pub fn u8(&mut self, v: u8)
        requires
            old(self).wf(),
            old(self)@.len() + 8 <= usize::MAX,
        ensures
            final(self).wf(),
            final(self)@ == old(self)@ + int_bits(v as nat, 8),
    {
        self.push_uint(v as u64, 8);
    }

    /// Appends the low `bits` bits of `v`.
    pub fn u8_part(&mut self, v: u8, bits: usize)
        requires
            old(self).wf(),
            bits <= 8,
            old(self)@.len() + bits <= usize::MAX,
        ensures
            final(self).wf(),
            final(self)@ == old(self)@ + int_bits(v as nat, bits as nat),
    {
        self.push_uint(v as u64, bits);
    }

    /// Appends the sixteen bits of `v`, low byte first.
    pub fn u16(&mut self, v: u16)
        requires
            old(self).wf(),
            old(self)@.len() + 16 <= usize::MAX,
        ensures
            final(self).wf(),
            final(self)@ == old(self)@ + int_bits(v as nat, 16),
    {
        self.push_uint(v as u64, 16);
    }

    /// Appends the low `bits` bits of `v`.
    pub fn u16_part(&mut self, v: u16, bits: usize)
        requires
            old(self).wf(),
            bits <= 16,
            old(self)@.len() + bits <= usize::MAX,
        ensures
            final(self).wf(),
            final(self)@ == old(self)@ + int_bits(v as nat, bits as nat),
    {
        self.push_uint(v as u64, bits);
    }

    /// Appends the thirty-two bits of `v`, low byte first.
    pub fn u32(&mut self, v: u32)
        requires
            old(self).wf(),
            old(self)@.len() + 32 <= usize::MAX,
        ensures
            final(self).wf(),
            final(self)@ == old(self)@ + int_bits(v as nat, 32),
    {
        self.push_uint(v as u64, 32);
    }

    /// Appends the low `bits` bits of `v`.
    pub fn u32_part(&mut self, v: u32, bits: usize)
        requires
            old(self).wf(),
            bits <= 32,
            old(self)@.len() + bits <= usize::MAX,
        ensures
            final(self).wf(),
            final(self)@ == old(self)@ + int_bits(v as nat, bits as nat),
    {
        self.push_uint(v as u64, bits);
    }

    /// Appends every bit of `v`, low byte first.
    pub fn usize(&mut self, v: usize)
        requires
            old(self).wf(),
            old(self)@.len() + usize::BITS <= usize::MAX,
        ensures
            final(self).wf(),
            final(self)@ == old(self)@ + int_bits(v as nat, usize::BITS as nat),
    {
        self.push_uint(v as u64, usize::BITS as usize);
    }

    /// Appends the low `bits` bits of `v`.
    pub fn usize_part(&mut self, v: usize, bits: usize)
        requires
            old(self).wf(),
            bits <= usize::BITS,
            old(self)@.len() + bits <= usize::MAX,
        ensures
            final(self).wf(),
            final(self)@ == old(self)@ + int_bits(v as nat, bits as nat),
    {
        self.push_uint(v as u64, bits);
    }

    /// Appends the bytes of `v` in order, each least significant bit first.
    pub fn bytes(&mut self, v: &[u8])
        requires
            old(self).wf(),
            old(self)@.len() + 8 * v@.len() <= usize::MAX,
        ensures
            final(self).wf(),
            final(self)@ == old(self)@ + bytes_bits(v@),
    {
        let mut j: usize = 0;
        proof {
            assert(old(self)@ + bytes_bits(v@.subrange(0, 0)) =~= old(self)@);
        }
        while j < v.len()
            invariant
                self.wf(),
                j <= v@.len(),
                old(self)@.len() + 8 * v@.len() <= usize::MAX,
                self@ == old(self)@ + bytes_bits(v@.subrange(0, j as int)),
            decreases v@.len() - j,
        {
            let ghost before = self@;
            self.push_uint(v[j] as u64, 8);
            proof {
                assert(bytes_bits(v@.subrange(0, j + 1)) =~= bytes_bits(v@.subrange(0, j as int))
                    + int_bits(v@[j as int] as nat, 8));
                assert(before + int_bits(v@[j as int] as nat, 8) =~= old(self)@ + (bytes_bits(
                    v@.subrange(0, j as int),
                ) + int_bits(v@[j as int] as nat, 8)));
            }
            j += 1;
        }
        proof {
            assert(v@.subrange(0, v@.len() as int) =~= v@);
        }
    }

    /// Appends clear bits up to the next byte boundary; does nothing on one.
    pub fn pad(&mut self)
        requires
            old(self).wf(),
            padded_len(old(self)@.len()) <= usize::MAX,
        ensures
            final(self).wf(),
            final(self)@ == old(self)@ + zeros((padded_len(old(self)@.len()) - old(self)@.len()) as nat),
            final(self)@.len() == padded_len(old(self)@.len()),
    {
        let len = self.0.len;
        let rem = len % 8;
        if rem == 0 {
            assert(old(self)@ + zeros(0) =~= old(self)@);
            return;
        }
        let pad = 8 - rem;
        let mut i: usize = 0;
        while i < pad
            invariant
                self.wf(),
                i <= pad,
                pad == 8 - len % 8,
                len == old(self)@.len(),
                len + pad <= usize::MAX,
                self@ == old(self)@ + zeros(i as nat),
            decreases pad - i,
        {
            self.0.push(false);
            proof {
                assert(old(self)@ + zeros((i + 1) as nat) =~= (old(self)@ + zeros(i as nat)).push(
                    false,
                ));
            }
            i += 1;
        }
    }

    /// Appends every bit of `v`, whatever `v` has already read.
    pub fn extend_all(&mut self, v: &FleaBitReader)
        requires
            old(self).wf(),
            v.wf(),
            old(self)@.len() + v.bits().len() <= usize::MAX,
        ensures
            final(self).wf(),
            final(self)@ == old(self)@ + v.bits(),
    {
        let mut i: usize = 0;
        let n = v.len();
        while i < n
            invariant
                self.wf(),
                v.wf(),
                n == v.bits().len(),
                i <= n,
                old(self)@.len() + n <= usize::MAX,
                self@ == old(self)@ + v.bits().subrange(0, i as int),
            decreases n - i,
        {
            let b = v.bit(i);
            self.0.push(b);
            proof {
                assert(old(self)@ + v.bits().subrange(0, i + 1) =~= (old(self)@ + v.bits().subrange(
                    0,
                    i as int,
                )).push(b));
            }
            i += 1;
        }
        proof {
            assert(v.bits().subrange(0, n as int) =~= v.bits());
        }
    }

    /// The bytes that hold the bits; the unused high bits of the last byte are clear.
    pub fn into_vec(self) -> (r: Vec<u8>)
        requires
            self.wf(),
        ensures
            8 * r@.len() == padded_len(self@.len()),
            bytes_bits(r@) == self@ + zeros((padded_len(self@.len()) - self@.len()) as nat),
    {
        self.0.into_bytes()
    }

    /// Every bit in groups of eight, see `render`.
    pub fn to_string(&self) -> (r: String)
        requires
            self.wf(),
        ensures
            r@ == render(self@),
    {
        debug(&self.0)
    }

    /// A cursor at the start of the bits written.
    pub fn into_reader(self) -> (r: FleaBitReader)
        requires
            self.wf(),
        ensures
            r.wf(),
            r.bits() == self@,
            r.pos() == 0,
    {
        FleaBitReader::from_buf(self.0)
    }
}

} // verus!

use crate::bits::{
    bit_at, bytes_bits, lemma_bit_at_zero, lemma_byte_bit, lemma_byte_update, padded_len, zeros,
};
use vstd::prelude::*;

verus! {

/// The bits `0..len` held in `bytes`, bit `i` in byte `i / 8` at position `i % 8`.
pub open spec fn stored_bits(bytes: Seq<u8>, len: nat) -> Seq<bool> {
    Seq::new(len, |i: int| bit_at(bytes[i / 8] as nat, (i % 8) as nat))
}

/// A growable bit sequence stored in whole bytes; the unused high bits of the last
/// byte are kept at zero.
#[derive(Clone)]
pub struct BitBuf {
    pub bytes: Vec<u8>,
    pub len: usize,
}

impl View for BitBuf {
    type V = Seq<bool>;

    open spec fn view(&self) -> Seq<bool> {
        stored_bits(self.bytes@, self.len as nat)
    }
}

impl BitBuf {
    pub open spec fn wf(&self) -> bool {
        &&& self.bytes@.len() == (self.len + 7) / 8
        &&& forall|i: int|
            self.len <= i < 8 * self.bytes@.len() ==> !#[trigger] bit_at(
                self.bytes@[i / 8] as nat,
                (i % 8) as nat,
            )
    }

    pub fn new() -> (r: BitBuf)
        ensures
            r.wf(),
            r@ == Seq::<bool>::empty(),
    {
        let r = BitBuf { bytes: Vec::new(), len: 0 };
        assert(r@ =~= Seq::<bool>::empty());
        r
    }

    /// Takes every bit of `bytes`.
    pub fn from_bytes(bytes: Vec<u8>) -> (r: BitBuf)
        requires
            bytes@.len() * 8 <= usize::MAX,
        ensures
            r.wf(),
            r@ == bytes_bits(bytes@),
            r.bytes@ == bytes@,
    {
        let len = bytes.len() * 8;
        let r = BitBuf { bytes, len };
        assert(r@ =~= bytes_bits(bytes@));
        r
    }

    pub fn get(&self, i: usize) -> (r: bool)
        requires
            self.wf(),
            i < self@.len(),
        ensures
            r == self@[i as int],
    {
        let byte = self.bytes[i / 8];
        let k = (i % 8) as u8;
        proof {
            lemma_byte_bit(byte, k);
        }
        (byte >> k) & 1u8 == 1u8
    }

    pub fn push(&mut self, v: bool)
        requires
            old(self).wf(),
            old(self)@.len() < usize::MAX,
        ensures
            final(self).wf(),
            final(self)@ == old(self)@.push(v),
    {
        let ghost old_bytes = self.bytes@;
        let len = self.len;
        let idx = len / 8;
        let k = (len % 8) as u8;
        if k == 0 {
            self.bytes.push(0u8);
            proof {
                assert forall|j: u8| j < 8 implies !#[trigger] bit_at(0u8 as nat, j as nat) by {
                    lemma_bit_at_zero(j as nat);
                }
            }
        }
        let ghost mid = self.bytes@;
        let b = self.bytes[idx];
        let c = if v {
            b | (1u8 << k)
        } else {
            b & !(1u8 << k)
        };
        proof {
            lemma_byte_update(b, k, v, c);
        }
        self.bytes.set(idx, c);
        self.len = len + 1;
        proof {
            assert forall|i: int| 0 <= i < 8 * mid.len() && i / 8 != idx implies #[trigger] mid[i
                / 8] == self.bytes@[i / 8] by {}
            assert forall|i: int| 0 <= i < 8 * mid.len() && i / 8 == idx implies bit_at(
                #[trigger] self.bytes@[i / 8] as nat,
                (i % 8) as nat,
            ) == if i == len {
                v
            } else {
                bit_at(mid[i / 8] as nat, (i % 8) as nat)
            } by {
                let j = (i % 8) as u8;
                assert(bit_at(c as nat, j as nat) == ((j == k && v) || (j != k && bit_at(
                    b as nat,
                    j as nat,
                ))));
            }
            assert forall|i: int| 0 <= i < len implies bit_at(
                #[trigger] mid[i / 8] as nat,
                (i % 8) as nat,
            ) == old(self)@[i] by {}
            assert(self@ =~= old(self)@.push(v));
        }
    }

    pub fn set(&mut self, i: usize, v: bool)
        requires
            old(self).wf(),
            i < old(self)@.len(),
        ensures
            final(self).wf(),
            final(self)@ == old(self)@.update(i as int, v),
    {
        let idx = i / 8;
        let k = (i % 8) as u8;
        let b = self.bytes[idx];
        let c = if v {
            b | (1u8 << k)
        } else {
            b & !(1u8 << k)
        };
        proof {
            lemma_byte_update(b, k, v, c);
        }
        let ghost before = self.bytes@;
        self.bytes.set(idx, c);
        proof {
            assert forall|t: int| 0 <= t < 8 * before.len() implies bit_at(
                #[trigger] self.bytes@[t / 8] as nat,
                (t % 8) as nat,
            ) == if t == i {
                v
            } else {
                bit_at(before[t / 8] as nat, (t % 8) as nat)
            } by {
                if t / 8 == idx {
                    let j = (t % 8) as u8;
                    assert(bit_at(c as nat, j as nat) == ((j == k && v) || (j != k && bit_at(
                        b as nat,
                        j as nat,
                    ))));
                }
            }
            assert(self@ =~= old(self)@.update(i as int, v));
        }
    }

    /// The bytes that hold the bits; the unused high bits of the last byte are clear.
    pub fn into_bytes(self) -> (r: Vec<u8>)
        requires
            self.wf(),
        ensures
            8 * r@.len() == padded_len(self@.len()),
            bytes_bits(r@) == self@ + zeros((padded_len(self@.len()) - self@.len()) as nat),
    {
        proof {
            let s = self@;
            let len = self.len as nat;
            let z = zeros((padded_len(len) - len) as nat);
            assert forall|i: int| 0 <= i < 8 * self.bytes@.len() implies #[trigger] bytes_bits(
                self.bytes@,
            )[i] == (s + z)[i] by {}
            assert(bytes_bits(self.bytes@) =~= s + z);
        }
        self.bytes
    }
}

} // verus!

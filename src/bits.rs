use vstd::arithmetic::div_mod::*;
use vstd::arithmetic::power2::*;
use vstd::bits::*;
use vstd::prelude::*;

verus! {

/// Bit `k` of the number `v`, counting from the least significant bit.
pub open spec fn bit_at(v: nat, k: nat) -> bool {
    (v / pow2(k)) % 2 == 1
}

/// The low `n` bits of `v`, least significant first.
pub open spec fn int_bits(v: nat, n: nat) -> Seq<bool> {
    Seq::new(n, |i: int| bit_at(v, i as nat))
}

/// The number whose binary digits, least significant first, are `s`.
pub open spec fn bits_value(s: Seq<bool>) -> nat
    decreases s.len(),
{
    if s.len() == 0 {
        0
    } else {
        (if s[0] {
            1nat
        } else {
            0nat
        }) + 2 * bits_value(s.drop_first())
    }
}

/// The bits of a run of bytes: each byte in the given order, least significant bit first.
pub open spec fn bytes_bits(b: Seq<u8>) -> Seq<bool> {
    Seq::new(8 * b.len(), |i: int| bit_at(b[i / 8] as nat, (i % 8) as nat))
}

/// The `n` bytes whose bits are the `n` groups of eight bits of `s` that start at `start`.
pub open spec fn bytes_of_bits(s: Seq<bool>, start: int, n: nat) -> Seq<u8> {
    Seq::new(n, |j: int| bits_value(s.subrange(start + 8 * j, start + 8 * j + 8)) as u8)
}

/// `n` bits, all clear.
pub open spec fn zeros(n: nat) -> Seq<bool> {
    Seq::new(n, |i: int| false)
}

/// A bit length rounded up to a whole number of bytes.
pub open spec fn padded_len(n: nat) -> nat {
    if n % 8 == 0 {
        n
    } else {
        (n + (8 - n % 8)) as nat
    }
}

/// Reading bit `k` of a byte with a shift and a mask gives `bit_at`.
pub proof fn lemma_byte_bit(b: u8, k: u8)
    requires
        k < 8,
    ensures
        ((b >> k) & 1u8 == 1u8) == bit_at(b as nat, k as nat),
{
    lemma_u8_shr_is_div(b, k);
    let y = b >> k;
    assert((y & 1u8 == 1u8) == (y % 2u8 == 1u8)) by (bit_vector);
}

/// Setting or clearing bit `k` of a byte leaves its other bits as they were.
pub proof fn lemma_byte_update(b: u8, k: u8, v: bool, c: u8)
    requires
        k < 8,
        c == (if v {
            b | (1u8 << k)
        } else {
            b & !(1u8 << k)
        }),
    ensures
        forall|j: u8|
            j < 8 ==> #[trigger] bit_at(c as nat, j as nat) == ((j == k && v) || (j != k
                && bit_at(b as nat, j as nat))),
{
    assert forall|j: u8| j < 8 implies #[trigger] bit_at(c as nat, j as nat) == ((j == k && v) || (
    j != k && bit_at(b as nat, j as nat))) by {
        lemma_byte_bit(c, j);
        lemma_byte_bit(b, j);
        if v {
            assert(((b | (1u8 << k)) >> j) & 1u8 == 1u8 <==> (j == k || (b >> j) & 1u8 == 1u8))
                by (bit_vector)
                requires
                    j < 8,
                    k < 8,
            ;
        } else {
            assert(((b & !(1u8 << k)) >> j) & 1u8 == 1u8 <==> (j != k && (b >> j) & 1u8 == 1u8))
                by (bit_vector)
                requires
                    j < 8,
                    k < 8,
            ;
        }
    }
}

/// Bit `k + 1` of `v` is bit `k` of `v / 2`.
pub proof fn lemma_bit_at_half(v: nat, k: nat)
    ensures
        bit_at(v, k + 1) == bit_at(v / 2, k),
        v / pow2(k + 1) == (v / 2) / pow2(k),
{
    lemma_pow2_pos(k);
    lemma_pow2_unfold(k + 1);
    lemma_div_denominator(v as int, 2, pow2(k) as int);
    assert(2 * pow2(k) == pow2(k + 1));
}

/// No bit of zero is set.
pub proof fn lemma_bit_at_zero(k: nat)
    ensures
        !bit_at(0, k),
{
    lemma_pow2_pos(k);
}

/// The value of `n` digits is below `2^n`.
pub proof fn lemma_bits_value_bound(s: Seq<bool>)
    ensures
        bits_value(s) < pow2(s.len()),
    decreases s.len(),
{
    if s.len() == 0 {
        lemma2_to64();
    } else {
        lemma_bits_value_bound(s.drop_first());
        lemma_pow2_unfold(s.len());
    }
}

/// Reading back the low `n` bits of `v` gives `v` modulo `2^n`.
pub proof fn lemma_value_of_int_bits(v: nat, n: nat)
    ensures
        bits_value(int_bits(v, n)) == v % pow2(n),
    decreases n,
{
    if n == 0 {
        lemma2_to64();
    } else {
        let s = int_bits(v, n);
        assert forall|i: int| 0 <= i < n - 1 implies #[trigger] s.drop_first()[i] == int_bits(
            v / 2,
            (n - 1) as nat,
        )[i] by {
            lemma_bit_at_half(v, i as nat);
        }
        assert(s.drop_first() =~= int_bits(v / 2, (n - 1) as nat));
        lemma_value_of_int_bits(v / 2, (n - 1) as nat);
        lemma_pow2_pos((n - 1) as nat);
        lemma_pow2_unfold(n);
        lemma_mod_breakdown(v as int, 2, pow2((n - 1) as nat) as int);
        lemma2_to64();
        assert(s[0] == (v % 2 == 1));
    }
}

} // verus!

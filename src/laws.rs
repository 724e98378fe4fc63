use crate::bits::{bits_value, bytes_bits, bytes_of_bits, int_bits, lemma_value_of_int_bits, padded_len};
use crate::reader::FleaBitReader;
use vstd::arithmetic::div_mod::lemma_small_mod;
use vstd::arithmetic::power2::{lemma2_to64, pow2};
use vstd::prelude::*;

verus! {

/// Writing the low `n` bits of `v` after any bits at all, then reading `n` bits from
/// where the write began, gives `v` modulo `2^n`: the bits written before do not
/// matter, aligned to a byte or not.
pub proof fn lemma_truncated_round_trip(prefix: Seq<bool>, v: nat, n: nat)
    ensures
        bits_value(
            (prefix + int_bits(v, n)).subrange(prefix.len() as int, (prefix.len() + n) as int),
        ) == v % pow2(n),
{
    assert((prefix + int_bits(v, n)).subrange(prefix.len() as int, (prefix.len() + n) as int)
        =~= int_bits(v, n));
    lemma_value_of_int_bits(v, n);
}

/// Writing all `n` bits of a value below `2^n` after any bits, then reading `n` bits
/// from where the write began, gives the value back.
pub proof fn lemma_fixed_round_trip(prefix: Seq<bool>, v: nat, n: nat)
    requires
        v < pow2(n),
    ensures
        bits_value(
            (prefix + int_bits(v, n)).subrange(prefix.len() as int, (prefix.len() + n) as int),
        ) == v,
{
    lemma_truncated_round_trip(prefix, v, n);
    lemma_small_mod(v, pow2(n));
}

/// Writing a run of bytes after any bits, then reading as many bytes from where the
/// write began, gives the run back.
pub proof fn lemma_bytes_round_trip(prefix: Seq<bool>, b: Seq<u8>)
    ensures
        bytes_of_bits(prefix + bytes_bits(b), prefix.len() as int, b.len()) == b,
{
    let s = prefix + bytes_bits(b);
    let p = prefix.len() as int;
    assert forall|j: int| 0 <= j < b.len() implies #[trigger] bytes_of_bits(s, p, b.len())[j]
        == b[j] by {
        assert(s.subrange(p + 8 * j, p + 8 * j + 8) =~= int_bits(b[j] as nat, 8));
        lemma_value_of_int_bits(b[j] as nat, 8);
        lemma2_to64();
        lemma_small_mod(b[j] as nat, 256);
    }
    assert(bytes_of_bits(s, p, b.len()) =~= b);
}

/// Padding a length that is already padded leaves it as it is.
pub proof fn lemma_pad_idempotent(len: nat)
    ensures
        padded_len(padded_len(len)) == padded_len(len),
        padded_len(len) % 8 == 0,
{
}

/// A cursor that has read every bit is at its end, has nothing left, and admits no
/// further read: each read asks for at least one bit past the position.
pub proof fn lemma_exhausted(r: &FleaBitReader)
    requires
        r.wf(),
        r.pos() == r.bits().len(),
    ensures
        r.pos() >= r.bits().len(),
        r.bits().len() - r.pos() == 0,
        r.pos() + 1 > r.bits().len(),
{
}

} // verus!

use vstd::prelude::*;
use vstd::arithmetic::power2::{lemma2_to64, lemma_pow2_pos, lemma_pow2_unfold, pow2};
use vstd::arithmetic::div_mod::lemma_mod_multiples_basic;

verus! {

/// `n` zero bits.
pub open spec fn zero_bits(n: nat) -> Seq<bool> {
    Seq::new(n, |i: int| false)
}

/// Number of zero bits that complete `n` bits to whole bytes.
pub open spec fn pad_len(n: nat) -> nat {
    if n % 8 == 0 { 0 } else { (8 - n % 8) as nat }
}

/// The number whose binary digits, most significant first, are `s`.
pub open spec fn bits_value(s: Seq<bool>) -> nat
    decreases s.len(),
{
    if s.len() == 0 {
        0
    } else {
        2 * bits_value(s.drop_last()) + if s.last() { 1nat } else { 0nat }
    }
}

/// Bytes holding the bits `bits`, eight to a byte, most significant bit
/// first; trailing bits that do not fill a byte are left out.
pub open spec fn pack(bits: Seq<bool>) -> Seq<u8> {
    Seq::new(bits.len() / 8, |j: int| bits_value(bits.subrange(8 * j, 8 * j + 8)) as u8)
}

proof fn lemma_bits_value_bound(s: Seq<bool>)
    ensures
        bits_value(s) < pow2(s.len()),
    decreases s.len(),
{
    if s.len() > 0 {
        lemma_bits_value_bound(s.drop_last());
        lemma_pow2_unfold(s.len());
    } else {
        lemma_pow2_pos(0);
        lemma2_to64();
    }
}

proof fn lemma_bits_value_shift(a: Seq<bool>, k: nat)
    ensures
        bits_value(a + zero_bits(k)) == bits_value(a) * pow2(k),
    decreases k,
{
    if k == 0 {
        assert(a + zero_bits(0) =~= a);
        lemma2_to64();
    } else {
        lemma_bits_value_shift(a, (k - 1) as nat);
        assert((a + zero_bits(k)).drop_last() =~= a + zero_bits((k - 1) as nat));
        lemma_pow2_unfold(k);
        let x = bits_value(a);
        let y = pow2((k - 1) as nat);
        assert(2 * (x * y) == x * (2 * y)) by (nonlinear_arith);
    }
}

/// Padding: when the bits `m` are completed with zero bits to whole bytes,
/// the last byte's low bits that `m` does not reach are all zero, and no
/// bit of `m` is lost.
pub proof fn lemma_padding_is_zero(m: Seq<bool>)
    ensures
        pack(m + zero_bits(pad_len(m.len()))).len() * 8 == m.len() + pad_len(m.len()),
        pack(m + zero_bits(pad_len(m.len()))).len() > 0 ==> pack(
            m + zero_bits(pad_len(m.len())),
        ).last() as nat % pow2(pad_len(m.len())) == 0,
{
    let p = pad_len(m.len());
    let s = m + zero_bits(p);
    let b = pack(s);
    assert(s.len() % 8 == 0);
    if b.len() > 0 {
        let j = b.len() - 1;
        let tail = m.subrange(8 * j, m.len() as int);
        assert(s.subrange(8 * j, 8 * j + 8) =~= tail + zero_bits(p));
        lemma_bits_value_shift(tail, p);
        lemma_bits_value_bound(s.subrange(8 * j, 8 * j + 8));
        lemma2_to64();
        lemma_pow2_pos(p);
        lemma_mod_multiples_basic(bits_value(tail) as int, pow2(p) as int);
    }
}

} // verus!

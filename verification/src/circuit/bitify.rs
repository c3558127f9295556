use crate::circuit::bool::{bools_view, CBool};
use crate::circuit::cs::CS;
use crate::circuit::num::CNum;
use crate::native::num::{field_add, field_sub, modulus, Num, MODULUS_BITS};
use crate::native::uint::{
    bit_of, bit_weight, bits_of, bits_value, lemma_bases, lemma_bits_of_value,
    lemma_bits_value_bound, U256,
};
use vstd::arithmetic::div_mod::{lemma_add_mod_noop, lemma_mod_bound, lemma_small_mod};
use vstd::arithmetic::power2::{lemma2_to64, lemma_pow2_adds, lemma_pow2_pos, pow2};
use vstd::prelude::*;

verus! {

/// The field has 254 bits.
pub proof fn lemma_modulus_bits()
    ensures
        pow2(253) < modulus() < pow2(254),
{
    lemma2_to64();
    vstd::arithmetic::power2::lemma2_to64_rest();
    lemma_pow2_adds(64, 64);
    lemma_pow2_adds(128, 64);
    lemma_pow2_adds(192, 61);
    lemma_pow2_adds(192, 62);
}

/// Decomposes a signal into its `limit` lowest bits and constrains it to have
/// no bit above them.
pub fn c_into_bits_le(cs: &mut CS, signal: &CNum, limit: usize) -> (bits: Vec<CBool>)
    requires
        0 < limit <= MODULUS_BITS,
    ensures
        final(cs).satisfied() == (old(cs).satisfied() && signal@ < pow2(limit as nat)),
        bools_view(bits@) == bits_of(signal@, limit as nat),
        bits@.len() == limit,
{
    let value = signal.get_value().to_uint();
    let is_const = signal.as_const().is_some();
    let mut bits: Vec<CBool> = Vec::new();
    let mut i: usize = 0;
    while i < limit
        invariant
            i <= limit <= MODULUS_BITS,
            value@ == signal@,
            bits@.len() == i,
            forall|k: int| 0 <= k < i ==> (#[trigger] bits@[k])@ == bit_of(signal@, k as nat),
        decreases limit - i,
    {
        let b = value.bit(i);
        bits.push(
            if is_const {
                CBool::from_const(b)
            } else {
                CBool::allocate(b)
            },
        );
        i += 1;
    }
    cs.enforce(value.fits_bits(limit as u32));
    proof {
        assert(bools_view(bits@) =~= bits_of(signal@, limit as nat));
    }
    bits
}

/// Decomposes a signal into the bits of its least representative.
pub fn c_into_bits_le_strict(cs: &mut CS, signal: &CNum) -> (bits: Vec<CBool>)
    ensures
        final(cs).satisfied() == old(cs).satisfied(),
        bools_view(bits@) == bits_of(signal@, MODULUS_BITS as nat),
        bits@.len() == MODULUS_BITS,
        bits_value(bools_view(bits@)) == signal@,
{
    let ghost before = *cs;
    let bits = c_into_bits_le(cs, signal, MODULUS_BITS);
    proof {
        use_type_invariant(signal);
        lemma_modulus_bits();
        lemma_bits_of_value(signal@, 254);
        lemma_small_mod(signal@, pow2(254));
    }
    bits
}

/// The signal that a sequence of bits, lowest first, stands for.
pub fn c_from_bits_le(bits: &[CBool]) -> (r: CNum)
    requires
        bits@.len() > 0,
    ensures
        r@ == bits_value(bools_view(bits@)) % modulus(),
{
    let ghost bv = bools_view(bits@);
    let mut acc = CNum::from_const(Num::zero());
    let mut k = Num::one();
    let mut i: usize = 0;
    proof {
        lemma2_to64();
        lemma_small_mod(1, modulus());
        lemma_small_mod(0, modulus());
        assert(bv.take(0) =~= Seq::<bool>::empty());
    }
    while i < bits.len()
        invariant
            i <= bits@.len(),
            bv == bools_view(bits@),
            acc@ == bits_value(bv.take(i as int)) % modulus(),
            k@ == pow2(i as nat) % modulus(),
        decreases bits@.len() - i,
    {
        let b = bits[i].to_num();
        let term = b.mul_const(&k);
        let ghost prev = bits_value(bv.take(i as int));
        proof {
            let j = (i + 1) as int;
            assert(bv.take(j).drop_last() =~= bv.take(i as int));
            assert(bv.take(j).last() == bits@[i as int]@);
            let w = bit_weight(bits@[i as int]@, i as nat);
            assert(bits_value(bv.take(j)) == prev + w);
            // the term is the weight of the bit
            lemma_pow2_pos(i as nat);
            lemma_mod_bound(pow2(i as nat) as int, modulus() as int);
            if bits@[i as int]@ {
                assert(b@ * k@ == k@);
                lemma_small_mod(k@, modulus());
                assert(term@ == w % modulus());
            } else {
                assert(b@ * k@ == 0);
                lemma_small_mod(0, modulus());
                assert(term@ == w % modulus());
            }
            lemma_add_mod_noop(prev as int, w as int, modulus() as int);
            // doubling the weight
            lemma2_to64();
            lemma_pow2_adds(i as nat, 1);
            lemma_add_mod_noop(pow2(i as nat) as int, pow2(i as nat) as int, modulus() as int);
        }
        acc = acc.add(&term);
        k = k.add(&k);
        i += 1;
    }
    proof {
        assert(bv.take(bits@.len() as int) =~= bv);
    }
    acc
}

/// The number that at most 256 bits, lowest first, stand for.
pub fn bits_to_uint(bits: &[CBool]) -> (r: U256)
    requires
        bits@.len() <= 256,
    ensures
        r@ == bits_value(bools_view(bits@)),
{
    let ghost bv = bools_view(bits@);
    let mut acc = U256::zero();
    let mut i: usize = 0;
    proof {
        assert(bv.take(0) =~= Seq::<bool>::empty());
    }
    while i < bits.len()
        invariant
            i <= bits@.len() <= 256,
            bv == bools_view(bits@),
            acc@ == bits_value(bv.take(i as int)),
        decreases bits@.len() - i,
    {
        proof {
            let j = (i + 1) as int;
            assert(bv.take(j).drop_last() =~= bv.take(i as int));
            assert(bv.take(j).last() == bits@[i as int]@);
            lemma_bits_value_bound(bv.take(i as int));
            lemma_pow2_adds(i as nat, 1);
            lemma2_to64();
            lemma_bases();
            if i + 1 < 256 {
                vstd::arithmetic::power2::lemma_pow2_strictly_increases((i + 1) as nat, 256);
            }
        }
        if bits[i].get_value() {
            acc = acc.add(&U256::pow2(i as u32));
        }
        i += 1;
    }
    proof {
        assert(bv.take(bits@.len() as int) =~= bv);
    }
    acc
}

/// The sum that `c_comp` decomposes: two to `limit`, less one, plus `s1`,
/// less `s2`, in the field.
pub open spec fn comp_sum(s1: nat, s2: nat, limit: nat) -> nat {
    field_sub(field_add((pow2(limit) - 1) as nat, s1), s2)
}

/// For two numbers below two to `limit`, the sum has no bit above `limit`,
/// and its bit `limit` tells whether the first is above the second.
pub proof fn lemma_comp_sum(s1: nat, s2: nat, limit: nat)
    requires
        0 < limit < MODULUS_BITS - 1,
        s1 < pow2(limit),
        s2 < pow2(limit),
    ensures
        comp_sum(s1, s2, limit) < pow2(limit + 1),
        bit_of(comp_sum(s1, s2, limit), limit) == (s1 > s2),
{
    lemma_modulus_bits();
    lemma_pow2_pos(limit);
    lemma_pow2_adds(limit, 1);
    lemma2_to64();
    if limit + 1 < 253 {
        vstd::arithmetic::power2::lemma_pow2_strictly_increases(limit + 1, 253);
    }
    let h = pow2(limit);
    let a = (h - 1 + s1) as nat;
    lemma_small_mod(a, modulus());
    lemma_small_mod((a - s2) as nat, modulus());
    let n = comp_sum(s1, s2, limit);
    assert(n == h - 1 + s1 - s2);
    if s1 > s2 {
        vstd::arithmetic::div_mod::lemma_fundamental_div_mod_converse(
            n as int,
            h as int,
            1,
            (s1 - s2 - 1) as int,
        );
    } else {
        vstd::arithmetic::div_mod::lemma_fundamental_div_mod_converse(n as int, h as int, 0, n as int);
    }
}

/// A bit that tells whether `s1` is above `s2`, for two signals below two to
/// `limit`: the bit `limit` of `comp_sum`, which is constrained to have no
/// bit above it.
pub fn c_comp(cs: &mut CS, s1: &CNum, s2: &CNum, limit: usize) -> (r: CBool)
    requires
        0 < limit < MODULUS_BITS - 1,
    ensures
        final(cs).satisfied() == (old(cs).satisfied() && comp_sum(s1@, s2@, limit as nat) < pow2(
            (limit + 1) as nat,
        )),
        r@ == bit_of(comp_sum(s1@, s2@, limit as nat), limit as nat),
        s1@ < pow2(limit as nat) && s2@ < pow2(limit as nat) ==> final(cs).satisfied() == old(
            cs,
        ).satisfied() && r@ == (s1@ > s2@),
{
    proof {
        lemma_modulus_bits();
        lemma_pow2_pos(limit as nat);
        lemma2_to64();
        if limit < 253 {
            vstd::arithmetic::power2::lemma_pow2_strictly_increases(limit as nat, 253);
        }
        if s1@ < pow2(limit as nat) && s2@ < pow2(limit as nat) {
            lemma_comp_sum(s1@, s2@, limit as nat);
        }
    }
    let t = U256::pow2(limit as u32).sub(&U256::one());
    let t = Num::from_uint_unchecked(t);
    let n = CNum::from_const(t).add(s1).sub(s2);
    let bits = c_into_bits_le(cs, &n, limit + 1);
    proof {
        assert(bools_view(bits@)[limit as int] == bit_of(n@, limit as nat));
    }
    bits[limit]
}

} // verus!

use fawkes_crypto::engines::U256 as RawU256;
use fawkes_crypto::ff_uint::{NumRepr, Uint};
use vstd::arithmetic::div_mod::{
    lemma_basic_div, lemma_div_denominator, lemma_div_non_zero, lemma_fundamental_div_mod,
    lemma_mod_breakdown, lemma_small_mod,
};
use vstd::arithmetic::mul::lemma_mul_is_commutative;
use vstd::arithmetic::power2::{
    lemma2_to64, lemma_pow2_adds, lemma_pow2_pos, lemma_pow2_strictly_increases, pow2,
};
use vstd::prelude::*;

verus! {

/// 2^64, the weight of the second limb.
pub open spec fn base1() -> nat {
    18446744073709551616nat
}

/// 2^128, the weight of the third limb.
pub open spec fn base2() -> nat {
    340282366920938463463374607431768211456nat
}

/// 2^192, the weight of the fourth limb.
pub open spec fn base3() -> nat {
    6277101735386680763835789423207666416102355444464034512896nat
}

/// 2^256, one more than the largest value a `U256` holds.
pub open spec fn base4() -> nat {
    115792089237316195423570985008687907853269984665640564039457584007913129639936nat
}

/// The bit of weight 2^i in `n`.
pub open spec fn bit_of(n: nat, i: nat) -> bool {
    (n / pow2(i)) % 2 == 1
}

/// What a bit contributes at the position `i`.
pub open spec fn bit_weight(b: bool, i: nat) -> nat {
    if b {
        pow2(i)
    } else {
        0
    }
}

/// The number that a sequence of bits, lowest first, stands for.
pub open spec fn bits_value(bits: Seq<bool>) -> nat
    decreases bits.len(),
{
    if bits.len() == 0 {
        0
    } else {
        bits_value(bits.drop_last()) + bit_weight(bits.last(), (bits.len() - 1) as nat)
    }
}

/// The `len` lowest bits of `n`, lowest first.
pub open spec fn bits_of(n: nat, len: nat) -> Seq<bool> {
    Seq::new(len, |i: int| bit_of(n, i as nat))
}

/// A sequence of bits stands for a number below two to its length.
pub proof fn lemma_bits_value_bound(bits: Seq<bool>)
    ensures
        bits_value(bits) < pow2(bits.len()),
    decreases bits.len(),
{
    if bits.len() == 0 {
        lemma2_to64();
    } else {
        lemma_bits_value_bound(bits.drop_last());
        lemma_pow2_adds((bits.len() - 1) as nat, 1);
        lemma2_to64();
    }
}

/// The `len` lowest bits of `n` stand for `n` modulo two to `len`.
pub proof fn lemma_bits_of_value(n: nat, len: nat)
    ensures
        bits_value(bits_of(n, len)) == n % pow2(len),
    decreases len,
{
    lemma2_to64();
    if len == 0 {
    } else {
        let k = (len - 1) as nat;
        lemma_bits_of_value(n, k);
        assert(bits_of(n, len).drop_last() =~= bits_of(n, k));
        lemma_pow2_pos(k);
        lemma_pow2_adds(k, 1);
        lemma_mod_breakdown(n as int, pow2(k) as int, 2);
    }
}

/// A number below two to `len` is what its `len` lowest bits stand for.
pub proof fn lemma_bits_of_small(n: nat, len: nat)
    requires
        n < pow2(len),
    ensures
        bits_value(bits_of(n, len)) == n,
{
    lemma_bits_of_value(n, len);
    lemma_small_mod(n, pow2(len));
}

/// A run of the bits of `n` is the low bits of `n` shifted down.
pub proof fn lemma_bits_of_subrange(n: nat, total: nat, a: nat, len: nat)
    requires
        a + len <= total,
    ensures
        bits_of(n, total).subrange(a as int, (a + len) as int) == bits_of(n / pow2(a), len),
{
    assert forall|i: int| 0 <= i < len implies bit_of(n, (a + i) as nat) == #[trigger] bit_of(
        n / pow2(a),
        i as nat,
    ) by {
        lemma_pow2_adds(a, i as nat);
        lemma_pow2_pos(a);
        lemma_pow2_pos(i as nat);
        lemma_div_denominator(n as int, pow2(a) as int, pow2(i as nat) as int);
    }
    assert(bits_of(n, total).subrange(a as int, (a + len) as int) =~= bits_of(n / pow2(a), len));
}

/// The last bit of a sequence is set exactly where the number it stands for
/// reaches the weight of that bit.
pub proof fn lemma_top_bit(bits: Seq<bool>)
    requires
        bits.len() > 0,
    ensures
        bits.last() == (bits_value(bits) >= pow2((bits.len() - 1) as nat)),
{
    lemma_bits_value_bound(bits.drop_last());
}

/// An unsigned integer of 256 bits, held as four limbs of 64 bits, least
/// significant first.
#[derive(Clone, Copy, Debug, PartialEq, Eq, Structural)]
pub struct U256 {
    pub l0: u64,
    pub l1: u64,
    pub l2: u64,
    pub l3: u64,
}

impl View for U256 {
    type V = nat;

    open spec fn view(&self) -> nat {
        (self.l0 + self.l1 * base1() + self.l2 * base2() + self.l3 * base3()) as nat
    }
}

/// The limb weights are the powers of two they are named after.
pub proof fn lemma_bases()
    ensures
        base1() == pow2(64),
        base2() == pow2(128),
        base3() == pow2(192),
        base4() == pow2(256),
{
    lemma2_to64();
    lemma_pow2_adds(64, 64);
    lemma_pow2_adds(128, 64);
    lemma_pow2_adds(192, 64);
}

/// Two values with the same view have the same limbs.
pub proof fn lemma_view_injective(a: U256, b: U256)
    requires
        a@ == b@,
    ensures
        a == b,
{
}

/// Every value is below 2^256.
pub proof fn lemma_view_bound(a: U256)
    ensures
        a@ < base4(),
{
}

impl U256 {
    pub fn zero() -> (r: Self)
        ensures
            r@ == 0,
    {
        U256 { l0: 0, l1: 0, l2: 0, l3: 0 }
    }

    pub fn one() -> (r: Self)
        ensures
            r@ == 1,
    {
        U256 { l0: 1, l1: 0, l2: 0, l3: 0 }
    }

    pub fn from_u64(v: u64) -> (r: Self)
        ensures
            r@ == v,
    {
        U256 { l0: v, l1: 0, l2: 0, l3: 0 }
    }

    /// The value with the limbs `w`, lowest first.
    pub open spec fn from_limbs_spec(w: [u64; 4]) -> U256 {
        U256 { l0: w[0], l1: w[1], l2: w[2], l3: w[3] }
    }

    pub fn from_limbs(w: [u64; 4]) -> (r: Self)
        ensures
            r == Self::from_limbs_spec(w),
            r.l0 == w[0],
            r.l1 == w[1],
            r.l2 == w[2],
            r.l3 == w[3],
    {
        U256 { l0: w[0], l1: w[1], l2: w[2], l3: w[3] }
    }

    pub fn limbs(&self) -> (w: [u64; 4])
        ensures
            w[0] == self.l0,
            w[1] == self.l1,
            w[2] == self.l2,
            w[3] == self.l3,
    {
        [self.l0, self.l1, self.l2, self.l3]
    }

    pub fn is_zero(&self) -> (r: bool)
        ensures
            r == (self@ == 0),
    {
        self.l0 == 0 && self.l1 == 0 && self.l2 == 0 && self.l3 == 0
    }

    /// Whether `self` is strictly below `other`.
    pub fn lt(&self, other: &U256) -> (r: bool)
        ensures
            r == (self@ < other@),
    {
        if self.l3 != other.l3 {
            self.l3 < other.l3
        } else if self.l2 != other.l2 {
            self.l2 < other.l2
        } else if self.l1 != other.l1 {
            self.l1 < other.l1
        } else {
            self.l0 < other.l0
        }
    }

    /// Whether `self` is at least `other`.
    pub fn ge(&self, other: &U256) -> (r: bool)
        ensures
            r == (self@ >= other@),
    {
        !self.lt(other)
    }

    /// Left shift that drops the bits pushed past bit 255.
    ///
    /// Calls `<<` of `ff_uint::NumRepr`, which panics for a shift of 256 or
    /// more and otherwise moves the limbs up, losing what leaves the top.
    #[verifier::external_body]
    pub(crate) fn shl(&self, k: u32) -> (r: U256)
        requires
            k < 256,
        ensures
            r@ == (self@ * pow2(k as nat)) % base4(),
    {
        U256::from_limbs((NumRepr(RawU256::new(self.limbs())) << k).0.0)
    }

    /// Right shift.
    ///
    /// Calls `>>` of `ff_uint::NumRepr`, which panics for a shift of 256 or
    /// more and otherwise moves the limbs down.
    #[verifier::external_body]
    pub(crate) fn shr(&self, k: u32) -> (r: U256)
        requires
            k < 256,
        ensures
            r@ == self@ / pow2(k as nat),
    {
        U256::from_limbs((NumRepr(RawU256::new(self.limbs())) >> k).0.0)
    }

    /// Sum of two values that fits in 256 bits.
    ///
    /// Calls `+` of `ff_uint::NumRepr`, which panics when the sum overflows.
    #[verifier::external_body]
    pub(crate) fn add(&self, other: &U256) -> (r: U256)
        requires
            self@ + other@ < base4(),
        ensures
            r@ == self@ + other@,
    {
        U256::from_limbs((NumRepr(RawU256::new(self.limbs())) + NumRepr(RawU256::new(other.limbs()))).0.0)
    }

    /// Difference of two values, the first at least the second.
    ///
    /// Calls `-` of `ff_uint::NumRepr`, which panics when the difference
    /// would be negative.
    #[verifier::external_body]
    pub(crate) fn sub(&self, other: &U256) -> (r: U256)
        requires
            self@ >= other@,
        ensures
            r@ == self@ - other@,
    {
        U256::from_limbs((NumRepr(RawU256::new(self.limbs())) - NumRepr(RawU256::new(other.limbs()))).0.0)
    }

    /// Whether the value is below 2^l.
    pub fn fits_bits(&self, l: u32) -> (r: bool)
        requires
            l < 256,
        ensures
            r == (self@ < pow2(l as nat)),
    {
        let q = self.shr(l);
        proof {
            lemma_pow2_pos(l as nat);
            if self@ < pow2(l as nat) {
                lemma_basic_div(self@ as int, pow2(l as nat) as int);
            } else {
                lemma_div_non_zero(self@ as int, pow2(l as nat) as int);
            }
        }
        q.is_zero()
    }

    /// The value modulo 2^l: its `l` lowest bits.
    pub fn low_bits(&self, l: u32) -> (r: U256)
        requires
            l < 256,
        ensures
            r@ == self@ % pow2(l as nat),
    {
        let q = self.shr(l);
        proof {
            let d = pow2(l as nat);
            lemma_pow2_pos(l as nat);
            lemma_fundamental_div_mod(self@ as int, d as int);
            lemma_mul_is_commutative(d as int, q@ as int);
            assert(q@ * d <= self@);
            lemma_view_bound(*self);
            lemma_small_mod(q@ * d, base4());
        }
        let h = q.shl(l);
        self.sub(&h)
    }

    /// 2^l.
    pub fn pow2(l: u32) -> (r: U256)
        requires
            l < 256,
        ensures
            r@ == pow2(l as nat),
    {
        proof {
            lemma_bases();
            lemma_pow2_strictly_increases(l as nat, 256);
            lemma_small_mod(pow2(l as nat), base4());
        }
        U256::one().shl(l)
    }

    /// The bit of weight 2^n.
    ///
    /// Calls `Uint::bit` of `ff_uint`, which panics for an index of 256 or
    /// more and otherwise reads the bit out of its limb.
    #[verifier::external_body]
    pub(crate) fn bit(&self, n: usize) -> (r: bool)
        requires
            n < 256,
        ensures
            r == bit_of(self@, n as nat),
    {
        RawU256::new(self.limbs()).bit(n)
    }
}

} // verus!

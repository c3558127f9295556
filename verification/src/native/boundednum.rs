use crate::native::num::{modulus, Num, MODULUS_BITS};
use vstd::arithmetic::div_mod::lemma_mod_bound;
use vstd::arithmetic::power2::{lemma2_to64, lemma2_to64_rest, lemma_pow2_adds, lemma_pow2_pos, lemma_pow2_strictly_increases, pow2};
use vstd::prelude::*;

verus! {

/// Every width a bounded number may have leaves its values below the modulus.
pub proof fn lemma_width_below_modulus(l: nat)
    requires
        l < MODULUS_BITS,
    ensures
        pow2(l) < modulus(),
{
    lemma2_to64();
    lemma2_to64_rest();
    lemma_pow2_adds(64, 64);
    lemma_pow2_adds(128, 64);
    lemma_pow2_adds(192, 61);
    if l < 253 {
        lemma_pow2_strictly_increases(l, 253);
    }
}

/// A field element certified to fit in `L` bits.
///
/// The certificate is `in_range`: `new`, `try_new` and `new_trimmed` give it,
/// `new_unchecked` leaves it to the caller.
#[derive(Clone, Copy, Debug, PartialEq, Eq)]
pub struct BoundedNum<const L: usize>(pub(crate) Num);

impl<const L: usize> View for BoundedNum<L> {
    type V = nat;

    open(crate) spec fn view(&self) -> nat {
        self.0@
    }
}

impl<const L: usize> BoundedNum<L> {
    /// The value fits in `L` bits.
    pub open spec fn in_range(&self) -> bool {
        self@ < pow2(L as nat)
    }

    /// Two bounded numbers with the same view are the same.
    pub proof fn lemma_view_injective(a: Self, b: Self)
        requires
            a@ == b@,
        ensures
            a == b,
    {
        Num::lemma_view_injective(a.0, b.0);
    }

    pub fn zero() -> (r: Self)
        ensures
            r@ == 0,
            r.in_range(),
    {
        proof {
            lemma_pow2_pos(L as nat);
        }
        BoundedNum(Num::zero())
    }

    pub fn one() -> (r: Self)
        ensures
            r@ == 1,
    {
        BoundedNum(Num::one())
    }

    /// Whether `n` fits in `L` bits.
    pub fn fits(n: &Num) -> (r: bool)
        requires
            L < MODULUS_BITS,
        ensures
            r == (n@ < pow2(L as nat)),
    {
        n.to_uint().fits_bits(L as u32)
    }

    /// Certifies `n`, which fits in `L` bits.
    pub fn new(n: Num) -> (r: Self)
        requires
            L < MODULUS_BITS,
            n@ < pow2(L as nat),
        ensures
            r@ == n@,
            r.in_range(),
    {
        Self::new_unchecked(n)
    }

    /// Certifies `n` if and only if it fits in `L` bits.
    pub fn try_new(n: Num) -> (r: Option<Self>)
        requires
            L < MODULUS_BITS,
        ensures
            r.is_some() == (n@ < pow2(L as nat)),
            r.is_some() ==> r.unwrap()@ == n@ && r.unwrap().in_range(),
    {
        if Self::fits(&n) {
            Some(Self::new(n))
        } else {
            None
        }
    }

    /// The `L` lowest bits of `n`.
    pub fn new_trimmed(n: Num) -> (r: Self)
        requires
            L < MODULUS_BITS,
        ensures
            r@ == n@ % pow2(L as nat),
            r.in_range(),
    {
        let t = n.to_uint().low_bits(L as u32);
        proof {
            lemma_pow2_pos(L as nat);
            lemma_mod_bound(n@ as int, pow2(L as nat) as int);
            lemma_width_below_modulus(L as nat);
        }
        Self::new_unchecked(Num::from_uint_unchecked(t))
    }

    /// Takes `n` as it is, in range or not.
    pub fn new_unchecked(n: Num) -> (r: Self)
        ensures
            r@ == n@,
    {
        BoundedNum(n)
    }

    /// Whether two bounded numbers hold the same value.
    pub fn is_eq(&self, other: &Self) -> (r: bool)
        ensures
            r == (self@ == other@),
            r == (*self == *other),
    {
        proof {
            if self@ == other@ {
                Self::lemma_view_injective(*self, *other);
            }
        }
        self.0.is_eq(&other.0)
    }

    pub fn as_num(&self) -> (r: &Num)
        ensures
            r@ == self@,
    {
        &self.0
    }

    pub fn to_num(&self) -> (r: Num)
        ensures
            r@ == self@,
    {
        self.0
    }
}

} // verus!

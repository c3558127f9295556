use crate::circuit::bitify::c_into_bits_le;
use crate::circuit::bool::CBool;
use crate::circuit::cs::CS;
use crate::circuit::num::CNum;
use crate::native::boundednum::BoundedNum;
use crate::native::num::MODULUS_BITS;
use vstd::arithmetic::div_mod::{lemma_mod_bound, lemma_small_mod};
use vstd::arithmetic::power2::{lemma_pow2_pos, pow2};
use vstd::prelude::*;

verus! {

/// A signal that a circuit holds to at most `L` bits. `new` and `allocate`
/// add the constraint, so the signal fits wherever the system they were
/// given is satisfied; `in_range` says that it does.
#[derive(Clone, Copy, Debug)]
pub struct CBoundedNum<const L: usize>(pub(crate) CNum);

impl<const L: usize> View for CBoundedNum<L> {
    type V = nat;

    open(crate) spec fn view(&self) -> nat {
        self.0@
    }
}

impl<const L: usize> CBoundedNum<L> {
    #[verifier::type_invariant]
    pub open(crate) spec fn inv(self) -> bool {
        self.0.inv()
    }

    /// The value that the signal carries fits in `L` bits.
    pub open spec fn in_range(&self) -> bool {
        self@ < pow2(L as nat)
    }

    /// Whether the signal is fixed by the circuit, not by the witness.
    pub open spec fn is_const(&self) -> bool {
        self.as_num_spec().is_const()
    }

    /// The signal without its bound.
    pub closed spec fn as_num_spec(&self) -> CNum {
        self.0
    }

    /// Takes a signal as it is, with no constraint added.
    pub fn new_unchecked(n: &CNum) -> (r: Self)
        ensures
            r.as_num_spec() == *n,
            r@ == n@,
            r.is_const() == n.is_const(),
    {
        proof {
            use_type_invariant(n);
        }
        CBoundedNum(*n)
    }

    /// The `L` lowest bits of a signal. A signal given by the witness is cut
    /// to them; one fixed by the circuit is constrained to have no other.
    pub fn new_trimmed(cs: &mut CS, n: CNum) -> (r: Self)
        requires
            L < MODULUS_BITS,
        ensures
            r@ == n@ % pow2(L as nat),
            r.in_range(),
            r.is_const() == n.is_const(),
            final(cs).satisfied() == (old(cs).satisfied() && (n.is_const() ==> n@ < pow2(L as nat))),
    {
        proof {
            lemma_pow2_pos(L as nat);
            lemma_mod_bound(n@ as int, pow2(L as nat) as int);
            if n@ < pow2(L as nat) {
                lemma_small_mod(n@, pow2(L as nat));
            }
        }
        match n.as_const() {
            Some(cn) => {
                let trimmed = BoundedNum::<L>::new_trimmed(cn);
                let new_n = CNum::from_const(trimmed.to_num());
                n.assert_eq(cs, &new_n);
                Self::new_unchecked(&new_n)
            },
            _ => {
                let trimmed = BoundedNum::<L>::new_trimmed(n.get_value());
                let new_n = CNum::allocate(trimmed.to_num());
                Self::new_unchecked(&new_n)
            },
        }
    }

    /// Takes a signal as it is and constrains it to fit in `L` bits: a
    /// witness that does not fit leaves the system unsatisfied. A signal
    /// fixed by the circuit is checked at once and adds no constraint.
    pub fn new(cs: &mut CS, n: &CNum) -> (r: Self)
        requires
            0 < L < MODULUS_BITS,
            n.is_const() ==> n@ < pow2(L as nat),
        ensures
            r.as_num_spec() == *n,
            r@ == n@,
            r.is_const() == n.is_const(),
            final(cs).satisfied() == (old(cs).satisfied() && n@ < pow2(L as nat)),
    {
        match n.as_const() {
            Some(cn) => Self::new_unchecked(n),
            _ => {
                c_into_bits_le(cs, n, L);
                Self::new_unchecked(n)
            },
        }
    }

    pub fn as_num(&self) -> (r: &CNum)
        ensures
            r@ == self@,
            *r == self.as_num_spec(),
    {
        &self.0
    }

    /// The value of a signal fixed by the circuit, which fits in `L` bits.
    pub fn as_const(&self) -> (r: Option<BoundedNum<L>>)
        requires
            self.is_const() ==> self.in_range(),
        ensures
            r.is_some() == self.is_const(),
            r.is_some() ==> r.unwrap()@ == self@ && r.unwrap().in_range(),
    {
        match self.0.as_const() {
            Some(n) => Some(BoundedNum::new_unchecked(n)),
            None => None,
        }
    }

    /// The value that the signal carries, which fits in `L` bits.
    pub fn get_value(&self) -> (r: BoundedNum<L>)
        requires
            self.in_range(),
        ensures
            r@ == self@,
            r.in_range(),
    {
        BoundedNum::new_unchecked(self.0.get_value())
    }

    /// A signal fixed by the circuit.
    pub fn from_const(value: &BoundedNum<L>) -> (r: Self)
        requires
            value.in_range(),
        ensures
            r@ == value@,
            r.in_range(),
            r.is_const(),
    {
        Self::new_unchecked(&CNum::from_const(value.to_num()))
    }

    /// A signal given by the witness, constrained to fit in `L` bits: a
    /// value that does not fit leaves the system unsatisfied.
    pub fn allocate(cs: &mut CS, value: &BoundedNum<L>) -> (r: Self)
        requires
            0 < L < MODULUS_BITS,
        ensures
            final(cs).satisfied() == (old(cs).satisfied() && value.in_range()),
            r@ == value@,
            !r.is_const(),
    {
        let n = CNum::allocate(value.to_num());
        Self::new(cs, &n)
    }

    /// This signal where `bit` is set, `if_else` where it is not.
    pub fn switch(&self, bit: &CBool, if_else: &Self) -> (r: Self)
        ensures
            r@ == (if bit@ { self@ } else { if_else@ }),
    {
        let n = self.0.switch(bit, &if_else.0);
        Self::new_unchecked(&n)
    }

    /// Constrains the signal to carry `value`.
    pub fn assert_const(&self, cs: &mut CS, value: &BoundedNum<L>)
        ensures
            final(cs).satisfied() == (old(cs).satisfied() && self@ == value@),
    {
        self.0.assert_const(cs, value.as_num());
    }

    /// Constrains two signals to carry the same element.
    pub fn assert_eq(&self, cs: &mut CS, other: &Self)
        ensures
            final(cs).satisfied() == (old(cs).satisfied() && self@ == other@),
    {
        self.0.assert_eq(cs, &other.0);
    }

    /// A bit that tells whether two signals carry the same element.
    pub fn is_eq(&self, other: &Self) -> (r: CBool)
        ensures
            r@ == (self@ == other@),
    {
        self.0.is_eq(&other.0)
    }
}

} // verus!

use crate::circuit::bool::CBool;
use crate::circuit::cs::CS;
use crate::native::num::{field_add, field_mul, field_neg, field_sub, modulus, Num};
use vstd::prelude::*;

verus! {

/// A signal that carries a field element.
#[derive(Clone, Copy, Debug)]
pub struct CNum {
    pub(crate) value: Num,
    pub(crate) constant: bool,
}

impl View for CNum {
    type V = nat;

    open(crate) spec fn view(&self) -> nat {
        self.value@
    }
}

/// The field elements that a sequence of signals carries.
pub open spec fn cnums_view(s: Seq<CNum>) -> Seq<nat> {
    s.map_values(|n: CNum| n@)
}

impl CNum {
    #[verifier::type_invariant]
    pub open(crate) spec fn inv(self) -> bool {
        self.value.inv()
    }

    /// Whether the signal is fixed by the circuit, not by the witness.
    pub closed spec fn is_const(&self) -> bool {
        self.constant
    }

    /// A signal fixed by the circuit.
    pub fn from_const(value: Num) -> (r: CNum)
        ensures
            r@ == value@,
            r.is_const(),
    {
        proof {
            use_type_invariant(&value);
        }
        CNum { value, constant: true }
    }

    /// A signal given by the witness.
    pub fn allocate(value: Num) -> (r: CNum)
        ensures
            r@ == value@,
            !r.is_const(),
    {
        proof {
            use_type_invariant(&value);
        }
        CNum { value, constant: false }
    }

    /// The field element that the signal carries.
    pub fn get_value(&self) -> (r: Num)
        ensures
            r@ == self@,
            r@ < modulus(),
    {
        proof {
            use_type_invariant(self);
        }
        self.value
    }

    /// The field element of a signal fixed by the circuit.
    pub fn as_const(&self) -> (r: Option<Num>)
        ensures
            r.is_some() == self.is_const(),
            r.is_some() ==> r.unwrap()@ == self@,
    {
        if self.constant {
            Some(self.value)
        } else {
            None
        }
    }

    /// A constant beside this signal.
    pub fn derive_const(&self, value: Num) -> (r: CNum)
        ensures
            r@ == value@,
            r.is_const(),
    {
        CNum::from_const(value)
    }

    pub fn add(&self, other: &CNum) -> (r: CNum)
        ensures
            r@ == field_add(self@, other@),
            r.is_const() == (self.is_const() && other.is_const()),
    {
        CNum { value: self.value.add(&other.value), constant: self.constant && other.constant }
    }

    pub fn sub(&self, other: &CNum) -> (r: CNum)
        ensures
            r@ == field_sub(self@, other@),
            (r@ == 0) == (self@ == other@),
            r.is_const() == (self.is_const() && other.is_const()),
    {
        proof {
            use_type_invariant(self);
            use_type_invariant(other);
            crate::native::num::lemma_field_zero(self@ - other@);
        }
        CNum { value: self.value.sub(&other.value), constant: self.constant && other.constant }
    }

    pub fn neg(&self) -> (r: CNum)
        ensures
            r@ == field_neg(self@),
            r.is_const() == self.is_const(),
    {
        CNum { value: self.value.neg(), constant: self.constant }
    }

    pub fn mul(&self, other: &CNum) -> (r: CNum)
        ensures
            r@ == field_mul(self@, other@),
            self.is_const() && other.is_const() ==> r.is_const(),
    {
        CNum { value: self.value.mul(&other.value), constant: self.constant && other.constant }
    }

    pub fn add_const(&self, other: &Num) -> (r: CNum)
        ensures
            r@ == field_add(self@, other@),
            r.is_const() == self.is_const(),
    {
        CNum { value: self.value.add(other), constant: self.constant }
    }

    pub fn sub_const(&self, other: &Num) -> (r: CNum)
        ensures
            r@ == field_sub(self@, other@),
            r.is_const() == self.is_const(),
    {
        CNum { value: self.value.sub(other), constant: self.constant }
    }

    pub fn mul_const(&self, other: &Num) -> (r: CNum)
        ensures
            r@ == field_mul(self@, other@),
            self.is_const() ==> r.is_const(),
    {
        CNum { value: self.value.mul(other), constant: self.constant }
    }

    /// A bit that tells whether the signal carries zero.
    pub fn is_zero(&self) -> (r: CBool)
        ensures
            r@ == (self@ == 0),
            r.is_const() == self.is_const(),
    {
        if self.constant {
            CBool::from_const(self.value.is_zero())
        } else {
            CBool::allocate(self.value.is_zero())
        }
    }

    /// A bit that tells whether two signals carry the same element.
    pub fn is_eq(&self, other: &CNum) -> (r: CBool)
        ensures
            r@ == (self@ == other@),
    {
        if self.constant && other.constant {
            CBool::from_const(self.value.is_eq(&other.value))
        } else {
            CBool::allocate(self.value.is_eq(&other.value))
        }
    }

    /// This signal where `bit` is set, `if_else` where it is not.
    pub fn switch(&self, bit: &CBool, if_else: &CNum) -> (r: CNum)
        ensures
            r@ == (if bit@ { self@ } else { if_else@ }),
    {
        proof {
            use_type_invariant(self);
            use_type_invariant(if_else);
        }
        if bit.get_value() {
            CNum { value: self.value, constant: self.constant && bit.as_const().is_some() }
        } else {
            CNum { value: if_else.value, constant: if_else.constant && bit.as_const().is_some() }
        }
    }

    /// Constrains the signal to carry zero.
    pub fn assert_zero(&self, cs: &mut CS)
        ensures
            final(cs).satisfied() == (old(cs).satisfied() && self@ == 0),
    {
        cs.enforce(self.value.is_zero());
    }

    /// Constrains the signal not to carry zero.
    pub fn assert_nonzero(&self, cs: &mut CS)
        ensures
            final(cs).satisfied() == (old(cs).satisfied() && self@ != 0),
    {
        cs.enforce(!self.value.is_zero());
    }

    /// Constrains the signal to carry `value`.
    pub fn assert_const(&self, cs: &mut CS, value: &Num)
        ensures
            final(cs).satisfied() == (old(cs).satisfied() && self@ == value@),
    {
        cs.enforce(self.value.is_eq(value));
    }

    /// Constrains two signals to carry the same element.
    pub fn assert_eq(&self, cs: &mut CS, other: &CNum)
        ensures
            final(cs).satisfied() == (old(cs).satisfied() && self@ == other@),
    {
        cs.enforce(self.value.is_eq(&other.value));
    }
}

} // verus!

use crate::circuit::cs::CS;
use crate::circuit::num::CNum;
use crate::native::num::Num;
use vstd::prelude::*;

verus! {

/// A signal that carries a bit.
#[derive(Clone, Copy, Debug)]
pub struct CBool {
    value: bool,
    constant: bool,
}

impl View for CBool {
    type V = bool;

    closed spec fn view(&self) -> bool {
        self.value
    }
}

/// The bits that a sequence of signals carries.
pub open spec fn bools_view(s: Seq<CBool>) -> Seq<bool> {
    s.map_values(|b: CBool| b@)
}

impl CBool {
    /// Whether the signal is fixed by the circuit, not by the witness.
    pub closed spec fn is_const(&self) -> bool {
        self.constant
    }

    /// A signal fixed by the circuit.
    pub fn from_const(value: bool) -> (r: CBool)
        ensures
            r@ == value,
            r.is_const(),
    {
        CBool { value, constant: true }
    }

    /// A signal given by the witness.
    pub fn allocate(value: bool) -> (r: CBool)
        ensures
            r@ == value,
            !r.is_const(),
    {
        CBool { value, constant: false }
    }

    /// The bit that the signal carries.
    pub fn get_value(&self) -> (r: bool)
        ensures
            r == self@,
    {
        self.value
    }

    /// The bit of a signal fixed by the circuit.
    pub fn as_const(&self) -> (r: Option<bool>)
        ensures
            r.is_some() == self.is_const(),
            r.is_some() ==> r.unwrap() == self@,
    {
        if self.constant {
            Some(self.value)
        } else {
            None
        }
    }

    /// The signal as a number: one or zero.
    pub fn to_num(&self) -> (r: CNum)
        ensures
            r@ == (if self@ { 1nat } else { 0nat }),
            r.is_const() == self.is_const(),
    {
        if self.constant {
            CNum::from_const(Num::from_bool(self.value))
        } else {
            CNum::allocate(Num::from_bool(self.value))
        }
    }

    pub fn not(&self) -> (r: CBool)
        ensures
            r@ == !self@,
            r.is_const() == self.is_const(),
    {
        CBool { value: !self.value, constant: self.constant }
    }

    pub fn and(&self, other: &CBool) -> (r: CBool)
        ensures
            r@ == (self@ && other@),
    {
        CBool { value: self.value && other.value, constant: self.constant && other.constant }
    }

    pub fn or(&self, other: &CBool) -> (r: CBool)
        ensures
            r@ == (self@ || other@),
    {
        CBool { value: self.value || other.value, constant: self.constant && other.constant }
    }

    /// Constrains the signal to carry `value`.
    pub fn assert_const(&self, cs: &mut CS, value: bool)
        ensures
            final(cs).satisfied() == (old(cs).satisfied() && self@ == value),
    {
        cs.enforce(self.value == value);
    }
}

} // verus!

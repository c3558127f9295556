use crate::constants::{BALANCE_SIZE_BITS, DIVERSIFIER_SIZE_BITS, SALT_SIZE_BITS};
use crate::native::boundednum::BoundedNum;
use crate::native::num::Num;
use crate::native::params::PoolBN256;
use crate::native::poseidon::{nums_view, poseidon};
use vstd::arithmetic::power2::pow2;
use vstd::prelude::*;

verus! {

/// The four fields of a note, as numbers.
pub struct NoteV {
    pub d: nat,
    pub p_d: nat,
    pub b: nat,
    pub t: nat,
}

impl NoteV {
    /// The four fields in the order they are hashed in.
    pub open spec fn fields(self) -> Seq<nat> {
        seq![self.d, self.p_d, self.b, self.t]
    }

    /// Each bounded field fits in its width.
    pub open spec fn in_range(self) -> bool {
        &&& self.d < pow2(DIVERSIFIER_SIZE_BITS as nat)
        &&& self.b < pow2(BALANCE_SIZE_BITS as nat)
        &&& self.t < pow2(SALT_SIZE_BITS as nat)
    }

    /// The commitment of the note: Poseidon over its four fields.
    pub open spec fn hash(self, params: &PoolBN256) -> nat {
        params.spec_note().digest(self.fields())
    }

    /// A note that carries no value stands for an unused slot.
    pub open spec fn is_dummy(self) -> bool {
        self.b == 0
    }

    /// The note whose fields are all zero.
    pub open spec fn is_zero(self) -> bool {
        self.d == 0 && self.p_d == 0 && self.b == 0 && self.t == 0
    }
}

/// A value sent to an address, spent once.
#[derive(Clone, Copy, Debug, PartialEq, Eq)]
pub struct Note {
    pub d: BoundedNum<DIVERSIFIER_SIZE_BITS>,
    pub p_d: Num,
    pub b: BoundedNum<BALANCE_SIZE_BITS>,
    pub t: BoundedNum<SALT_SIZE_BITS>,
}

impl View for Note {
    type V = NoteV;

    open spec fn view(&self) -> NoteV {
        NoteV { d: self.d@, p_d: self.p_d@, b: self.b@, t: self.t@ }
    }
}

impl Note {
    /// Each bounded field fits in its width.
    pub open spec fn in_range(&self) -> bool {
        self@.in_range()
    }

    /// The note whose fields are all zero.
    pub fn zero() -> (r: Self)
        ensures
            r@.is_zero(),
            r.in_range(),
    {
        Note {
            d: BoundedNum::zero(),
            p_d: Num::zero(),
            b: BoundedNum::zero(),
            t: BoundedNum::zero(),
        }
    }

    /// The commitment of the note: Poseidon over its four fields.
    pub fn hash(&self, params: &PoolBN256) -> (r: Num)
        ensures
            r@ == self@.hash(params),
    {
        let inputs = vec![self.d.to_num(), self.p_d, self.b.to_num(), self.t.to_num()];
        proof {
            assert(nums_view(inputs@) =~= self@.fields());
        }
        poseidon(inputs.as_slice(), params.note())
    }

    /// Whether two notes have the same fields.
    pub fn is_eq(&self, other: &Note) -> (r: bool)
        ensures
            r == (self@ == other@),
            r == (*self == *other),
    {
        let r = self.d.is_eq(&other.d) && self.p_d.is_eq(&other.p_d) && self.b.is_eq(&other.b)
            && self.t.is_eq(&other.t);
        r
    }
}

} // verus!

use crate::circuit::bool::CBool;
use crate::circuit::boundednum::CBoundedNum;
use crate::circuit::cs::CS;
use crate::circuit::num::{cnums_view, CNum};
use crate::circuit::poseidon::c_poseidon;
use crate::constants::{BALANCE_SIZE_BITS, DIVERSIFIER_SIZE_BITS, SALT_SIZE_BITS};
use crate::native::note::{Note, NoteV};
use crate::native::params::PoolBN256;
use vstd::prelude::*;

verus! {

/// The signals of a note.
#[derive(Clone, Copy, Debug)]
pub struct CNote {
    pub d: CBoundedNum<DIVERSIFIER_SIZE_BITS>,
    pub p_d: CNum,
    pub b: CBoundedNum<BALANCE_SIZE_BITS>,
    pub t: CBoundedNum<SALT_SIZE_BITS>,
}

impl View for CNote {
    type V = NoteV;

    open spec fn view(&self) -> NoteV {
        NoteV { d: self.d@, p_d: self.p_d@, b: self.b@, t: self.t@ }
    }
}

impl CNote {
    /// The signals of a note given by the witness, each bounded field
    /// constrained to its width.
    pub fn allocate(cs: &mut CS, value: &Note) -> (r: Self)
        ensures
            final(cs).satisfied() == (old(cs).satisfied() && value.in_range()),
            r@ == value@,
    {
        let d = CBoundedNum::allocate(cs, &value.d);
        let p_d = CNum::allocate(value.p_d);
        let b = CBoundedNum::allocate(cs, &value.b);
        let t = CBoundedNum::allocate(cs, &value.t);
        CNote { d, p_d, b, t }
    }

    /// The commitment of the note: Poseidon over its four fields.
    pub fn hash(&self, params: &PoolBN256) -> (r: CNum)
        ensures
            r@ == self@.hash(params),
    {
        let inputs = vec![*self.d.as_num(), self.p_d, *self.b.as_num(), *self.t.as_num()];
        proof {
            assert(cnums_view(inputs@) =~= self@.fields());
        }
        c_poseidon(inputs.as_slice(), params.note())
    }

    /// A signal that carries zero where the note is a dummy: its value.
    pub fn is_dummy_raw(&self) -> (r: CNum)
        ensures
            r@ == self@.b,
            (r@ == 0) == self@.is_dummy(),
    {
        *self.b.as_num()
    }

    /// A bit that tells whether the note is the zero note: each of its four
    /// fields is zero.
    pub fn is_zero(&self) -> (r: CBool)
        ensures
            r@ == self@.is_zero(),
    {
        self.d.as_num().is_zero().and(&self.p_d.is_zero()).and(&self.b.as_num().is_zero()).and(
            &self.t.as_num().is_zero(),
        )
    }
}

/// The commitment that the circuit computes of the signals of a note is the
/// commitment of that note.
pub proof fn lemma_note_hash_agrees(params: &PoolBN256, note: Note, signals: CNote)
    requires
        signals@ == note@,
    ensures
        signals@.hash(params) == note@.hash(params),
{
}

} // verus!

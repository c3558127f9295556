use crate::circuit::bool::CBool;
use crate::circuit::boundednum::CBoundedNum;
use crate::circuit::cs::CS;
use crate::circuit::num::{cnums_view, CNum};
use crate::circuit::poseidon::c_poseidon;
use crate::constants::{BALANCE_SIZE_BITS, DIVERSIFIER_SIZE_BITS, ENERGY_SIZE_BITS, HEIGHT};
use crate::native::account::{Account, AccountV};
use crate::native::params::PoolBN256;
use vstd::prelude::*;

verus! {

/// The signals of an account.
#[derive(Clone, Copy, Debug)]
pub struct CAccount {
    pub d: CBoundedNum<DIVERSIFIER_SIZE_BITS>,
    pub p_d: CNum,
    pub i: CBoundedNum<HEIGHT>,
    pub b: CBoundedNum<BALANCE_SIZE_BITS>,
    pub e: CBoundedNum<ENERGY_SIZE_BITS>,
}

impl View for CAccount {
    type V = AccountV;

    open spec fn view(&self) -> AccountV {
        AccountV { d: self.d@, p_d: self.p_d@, i: self.i@, b: self.b@, e: self.e@ }
    }
}

impl CAccount {
    /// The signals of an account given by the witness, each bounded field
    /// constrained to its width.
    pub fn allocate(cs: &mut CS, value: &Account) -> (r: Self)
        ensures
            final(cs).satisfied() == (old(cs).satisfied() && value.in_range()),
            r@ == value@,
    {
        let d = CBoundedNum::allocate(cs, &value.d);
        let p_d = CNum::allocate(value.p_d);
        let i = CBoundedNum::allocate(cs, &value.i);
        let b = CBoundedNum::allocate(cs, &value.b);
        let e = CBoundedNum::allocate(cs, &value.e);
        CAccount { d, p_d, i, b, e }
    }

    /// The commitment of the account: Poseidon over its five fields.
    pub fn hash(&self, params: &PoolBN256) -> (r: CNum)
        ensures
            r@ == self@.hash(params),
    {
        let inputs = vec![
            *self.d.as_num(),
            self.p_d,
            *self.i.as_num(),
            *self.b.as_num(),
            *self.e.as_num(),
        ];
        proof {
            assert(cnums_view(inputs@) =~= self@.fields());
        }
        c_poseidon(inputs.as_slice(), params.account())
    }

    /// A bit that tells whether the account is the one nobody has used yet
    /// in the pool `poolid`: its height marker, balance and energy are zero,
    /// and its diversifier is the pool id.
    pub fn is_initial(&self, poolid: &CNum) -> (r: CBool)
        ensures
            r@ == self@.is_initial(poolid@),
    {
        self.i.as_num().is_zero().and(&self.b.as_num().is_zero()).and(
            &self.e.as_num().is_zero(),
        ).and(&self.d.as_num().is_eq(poolid))
    }
}

/// The commitment that the circuit computes of the signals of an account is
/// the commitment of that account.
pub proof fn lemma_account_hash_agrees(params: &PoolBN256, account: Account, signals: CAccount)
    requires
        signals@ == account@,
    ensures
        signals@.hash(params) == account@.hash(params),
{
}

} // verus!

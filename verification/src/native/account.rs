use crate::constants::{BALANCE_SIZE_BITS, DIVERSIFIER_SIZE_BITS, ENERGY_SIZE_BITS, HEIGHT};
use crate::native::boundednum::BoundedNum;
use crate::native::num::Num;
use crate::native::params::PoolBN256;
use crate::native::poseidon::{nums_view, poseidon};
use vstd::arithmetic::power2::pow2;
use vstd::prelude::*;

verus! {

/// The five fields of an account, as numbers.
pub struct AccountV {
    pub d: nat,
    pub p_d: nat,
    pub i: nat,
    pub b: nat,
    pub e: nat,
}

impl AccountV {
    /// The five fields in the order they are hashed in.
    pub open spec fn fields(self) -> Seq<nat> {
        seq![self.d, self.p_d, self.i, self.b, self.e]
    }

    /// Each bounded field fits in its width.
    pub open spec fn in_range(self) -> bool {
        &&& self.d < pow2(DIVERSIFIER_SIZE_BITS as nat)
        &&& self.i < pow2(HEIGHT as nat)
        &&& self.b < pow2(BALANCE_SIZE_BITS as nat)
        &&& self.e < pow2(ENERGY_SIZE_BITS as nat)
    }

    /// The commitment of the account: Poseidon over its five fields.
    pub open spec fn hash(self, params: &PoolBN256) -> nat {
        params.spec_account().digest(self.fields())
    }

    /// The account that nobody has used yet in the pool `poolid`.
    pub open spec fn is_initial(self, poolid: nat) -> bool {
        self.i == 0 && self.b == 0 && self.e == 0 && self.d == poolid
    }
}

/// The state of an owner in the pool: address, height marker, balance and
/// accrued energy.
#[derive(Clone, Copy, Debug, PartialEq, Eq)]
pub struct Account {
    pub d: BoundedNum<DIVERSIFIER_SIZE_BITS>,
    pub p_d: Num,
    pub i: BoundedNum<HEIGHT>,
    pub b: BoundedNum<BALANCE_SIZE_BITS>,
    pub e: BoundedNum<ENERGY_SIZE_BITS>,
}

impl View for Account {
    type V = AccountV;

    open spec fn view(&self) -> AccountV {
        AccountV { d: self.d@, p_d: self.p_d@, i: self.i@, b: self.b@, e: self.e@ }
    }
}

impl Account {
    /// Each bounded field fits in its width.
    pub open spec fn in_range(&self) -> bool {
        self@.in_range()
    }

    /// The account whose fields are all zero.
    pub fn zero() -> (r: Self)
        ensures
            r@ == (AccountV { d: 0, p_d: 0, i: 0, b: 0, e: 0 }),
            r.in_range(),
    {
        Account {
            d: BoundedNum::zero(),
            p_d: Num::zero(),
            i: BoundedNum::zero(),
            b: BoundedNum::zero(),
            e: BoundedNum::zero(),
        }
    }

    /// The commitment of the account: Poseidon over its five fields.
    pub fn hash(&self, params: &PoolBN256) -> (r: Num)
        ensures
            r@ == self@.hash(params),
    {
        let inputs = vec![
            self.d.to_num(),
            self.p_d,
            self.i.to_num(),
            self.b.to_num(),
            self.e.to_num(),
        ];
        proof {
            assert(nums_view(inputs@) =~= self@.fields());
        }
        poseidon(inputs.as_slice(), params.account())
    }

    /// Whether two accounts have the same fields.
    pub fn is_eq(&self, other: &Account) -> (r: bool)
        ensures
            r == (self@ == other@),
            r == (*self == *other),
    {
        let r = self.d.is_eq(&other.d) && self.p_d.is_eq(&other.p_d) && self.i.is_eq(&other.i)
            && self.b.is_eq(&other.b) && self.e.is_eq(&other.e);
        r
    }
}

} // verus!

use crate::circuit::bitify::bits_to_uint;
use crate::circuit::bool::{bools_view, CBool};
use crate::circuit::cs::CS;
use crate::circuit::num::{cnums_view, CNum};
use crate::circuit::poseidon::c_poseidon;
use crate::native::ecc::EdwardsPoint;
use crate::native::key::{
    diversified_mul, diversifier_hash, spec_derive_key_eta, spec_derive_key_p_d,
    spec_diversifier_hash,
};
use crate::native::num::Scalar;
use crate::native::params::PoolBN256;
use crate::native::uint::bits_value;
use vstd::prelude::*;

verus! {

/// The signals of a point of the curve.
#[derive(Clone, Copy, Debug)]
pub struct CEdwardsPoint {
    pub x: CNum,
    pub y: CNum,
}

impl View for CEdwardsPoint {
    type V = (nat, nat);

    open spec fn view(&self) -> (nat, nat) {
        (self.x@, self.y@)
    }
}

impl CEdwardsPoint {
    /// The signals of a point given by the witness.
    pub fn allocate(value: &EdwardsPoint) -> (r: Self)
        ensures
            r@ == value@,
    {
        CEdwardsPoint { x: CNum::allocate(value.x()), y: CNum::allocate(value.y()) }
    }
}

/// The view key of the public key `a`.
pub fn c_derive_key_eta(a: &CNum, params: &PoolBN256) -> (r: CNum)
    ensures
        r@ == spec_derive_key_eta(params, a@),
{
    let inputs = vec![*a];
    proof {
        assert(cnums_view(inputs@) =~= seq![a@]);
    }
    c_poseidon(inputs.as_slice(), params.hash())
}

/// The public point of the address with diversifier `d` under the view key
/// whose bits are `eta_bits`. The map to the curve has no value where the
/// diversifier hashes to zero: the constraint system is then not satisfied.
pub fn c_derive_key_p_d(cs: &mut CS, d: &CNum, eta_bits: &[CBool], params: &PoolBN256) -> (r:
    CEdwardsPoint)
    requires
        eta_bits@.len() <= 256,
    ensures
        final(cs).satisfied() == (old(cs).satisfied() && spec_diversifier_hash(params, d@) != 0),
        spec_diversifier_hash(params, d@) != 0 ==> r@ == spec_derive_key_p_d(
            params,
            d@,
            bits_value(bools_view(eta_bits@)),
        ),
        spec_diversifier_hash(params, d@) == 0 ==> r@ == (0nat, 1nat),
{
    let eta_reduced = Scalar::from_uint_reduced(bits_to_uint(eta_bits));
    let d_hash = diversifier_hash(d.get_value(), params);
    if d_hash.is_zero() {
        cs.enforce(false);
        CEdwardsPoint::allocate(&EdwardsPoint::zero())
    } else {
        cs.enforce(true);
        CEdwardsPoint::allocate(&diversified_mul(d.get_value(), &eta_reduced, params))
    }
}

} // verus!

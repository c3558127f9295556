use crate::native::ecc::{point_from_scalar, point_mul, EdwardsPoint};
use crate::native::num::{scalar_modulus, Num, Scalar};
use crate::native::params::PoolBN256;
use crate::native::poseidon::{nums_view, poseidon};
use vstd::prelude::*;

verus! {

/// The public point of a spending key: the multiple `sigma` of the generator.
pub open spec fn spec_derive_key_a(params: &PoolBN256, sigma: nat) -> (nat, nat) {
    point_mul(params.spec_edwards_g()@.0, params.spec_edwards_g()@.1, sigma)
}

/// The view key of the public key `a`.
pub open spec fn spec_derive_key_eta(params: &PoolBN256, a: nat) -> nat {
    params.spec_hash().digest(seq![a])
}

/// The field element that the diversifier `d` is hashed to.
pub open spec fn spec_diversifier_hash(params: &PoolBN256, d: nat) -> nat {
    params.spec_hash().digest(seq![d])
}

/// The base point of the diversifier `d`.
pub open spec fn spec_diversified_base(params: &PoolBN256, d: nat) -> (nat, nat) {
    point_from_scalar(spec_diversifier_hash(params, d))
}

/// The public point of the address with diversifier `d` under the view key
/// `eta`.
pub open spec fn spec_derive_key_p_d(params: &PoolBN256, d: nat, eta: nat) -> (nat, nat) {
    let base = spec_diversified_base(params, d);
    point_mul(base.0, base.1, eta % scalar_modulus())
}

/// The view of a sequence of one field element.
pub proof fn lemma_nums_view_1(a: Num)
    ensures
        nums_view(seq![a]) == seq![a@],
{
    assert(nums_view(seq![a]) =~= seq![a@]);
}

/// The public point of the spending key `sigma`.
pub fn derive_key_a(sigma: Scalar, params: &PoolBN256) -> (r: EdwardsPoint)
    ensures
        r@ == spec_derive_key_a(params, sigma@),
{
    params.edwards_g().mul(&sigma, params.jubjub())
}

/// The view key of the public key `a`.
pub fn derive_key_eta(a: Num, params: &PoolBN256) -> (r: Num)
    ensures
        r@ == spec_derive_key_eta(params, a@),
{
    let inputs = vec![a];
    proof {
        lemma_nums_view_1(a);
        assert(inputs@ =~= seq![a]);
    }
    poseidon(inputs.as_slice(), params.hash())
}

/// The field element that the diversifier `d` is hashed to.
pub fn diversifier_hash(d: Num, params: &PoolBN256) -> (r: Num)
    ensures
        r@ == spec_diversifier_hash(params, d@),
{
    let inputs = vec![d];
    proof {
        lemma_nums_view_1(d);
        assert(inputs@ =~= seq![d]);
    }
    poseidon(inputs.as_slice(), params.hash())
}

/// The multiple `k` of the base point of the diversifier `d`, whose hash is
/// not zero.
pub fn diversified_mul(d: Num, k: &Scalar, params: &PoolBN256) -> (r: EdwardsPoint)
    requires
        spec_diversifier_hash(params, d@) != 0,
    ensures
        r@ == point_mul(
            spec_diversified_base(params, d@).0,
            spec_diversified_base(params, d@).1,
            k@,
        ),
{
    let d_hash = diversifier_hash(d, params);
    EdwardsPoint::from_scalar(&d_hash, params.jubjub()).mul(k, params.jubjub())
}

/// The public point of the address with diversifier `d`, whose hash is not
/// zero, under the view key `eta`.
pub fn derive_key_p_d(d: Num, eta: Num, params: &PoolBN256) -> (r: EdwardsPoint)
    requires
        spec_diversifier_hash(params, d@) != 0,
    ensures
        r@ == spec_derive_key_p_d(params, d@, eta@),
{
    let eta_reduced = eta.to_scalar_reduced();
    diversified_mul(d, &eta_reduced, params)
}

/// `derive_key_p_d`, or nothing where the diversifier hashes to zero.
pub fn try_derive_key_p_d(d: Num, eta: Num, params: &PoolBN256) -> (r: Option<EdwardsPoint>)
    ensures
        r.is_some() == (spec_diversifier_hash(params, d@) != 0),
        r.is_some() ==> r.unwrap()@ == spec_derive_key_p_d(params, d@, eta@),
{
    if diversifier_hash(d, params).is_zero() {
        None
    } else {
        Some(derive_key_p_d(d, eta, params))
    }
}

} // verus!

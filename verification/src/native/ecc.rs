use crate::native::num::{modulus, Num, Scalar};
use crate::native::uint::U256;
use fawkes_crypto::engines::bn256::Fr as RawFr;
use fawkes_crypto::engines::bn256::Fs as RawFs;
use fawkes_crypto::engines::bn256::JubJubBN256;
use fawkes_crypto::engines::U256 as RawU256;
use fawkes_crypto::ff_uint::Num as RawNum;
use fawkes_crypto::ff_uint::NumRepr;
use fawkes_crypto::native::ecc::EdwardsPoint as RawPoint;
use fawkes_crypto::native::ecc::JubJubParams;
use vstd::prelude::*;

verus! {

#[verifier::external_type_specification]
#[verifier::external_body]
pub struct ExJubJubBN256(JubJubBN256);

/// The coefficient `d` of the curve `y^2 - x^2 = 1 + d x^2 y^2`.
pub open spec fn edwards_d() -> nat {
    12181644023421730124874158521699555681764249180949974110617291017600649128846nat
}

/// `d` is the field element -168696 / 168700.
pub proof fn lemma_edwards_d()
    ensures
        edwards_d() < modulus(),
        (edwards_d() * 168700 + 168696) % modulus() == 0,
{
}

/// Whether `(x, y)` lies on the curve.
pub open spec fn in_curve(x: nat, y: nat) -> bool {
    (y * y - x * x) % (modulus() as int) == ((1 + edwards_d() * x * x * y * y) % modulus()) as int
}

/// The point that `EdwardsPoint::from_scalar` maps a field element to.
pub uninterp spec fn point_from_scalar(t: nat) -> (nat, nat);

/// The multiple `k` of the point `(x, y)`.
pub uninterp spec fn point_mul(x: nat, y: nat, k: nat) -> (nat, nat);

/// The point of the prime subgroup with first coordinate `x`, if there is
/// one.
pub uninterp spec fn point_decompress(x: nat) -> Option<(nat, nat)>;

/// A point of the curve, by its two coordinates.
#[derive(Clone, Copy, Debug, PartialEq, Eq, Structural)]
pub struct EdwardsPoint {
    pub(crate) x: Num,
    pub(crate) y: Num,
}

impl View for EdwardsPoint {
    type V = (nat, nat);

    open(crate) spec fn view(&self) -> (nat, nat) {
        (self.x@, self.y@)
    }
}

impl EdwardsPoint {
    #[verifier::type_invariant]
    pub open(crate) spec fn inv(self) -> bool {
        in_curve(self.x@, self.y@)
    }

    /// The neutral point `(0, 1)`.
    pub fn zero() -> (r: Self)
        ensures
            r@ == (0nat, 1nat),
    {
        EdwardsPoint { x: Num::zero(), y: Num::one() }
    }

    pub fn x(&self) -> (r: Num)
        ensures
            r@ == self@.0,
    {
        self.x
    }

    pub fn y(&self) -> (r: Num)
        ensures
            r@ == self@.1,
    {
        self.y
    }

    /// The multiple `k` of this point.
    ///
    /// Calls `EdwardsPoint::mul` of `fawkes_crypto`: double-and-add over the
    /// bits of the scalar, which stays on the curve.
    #[verifier::external_body]
    pub(crate) fn mul(&self, k: &Scalar, jubjub: &JubJubBN256) -> (r: EdwardsPoint)
        ensures
            r@ == point_mul(self@.0, self@.1, k@),
            in_curve(r@.0, r@.1),
    {
        let x = RawNum::<RawFr>::from_uint_unchecked(NumRepr(RawU256::new(self.x.repr.limbs())));
        let y = RawNum::<RawFr>::from_uint_unchecked(NumRepr(RawU256::new(self.y.repr.limbs())));
        let s = RawNum::<RawFs>::from_uint_unchecked(NumRepr(RawU256::new(k.repr.limbs())));
        let q = RawPoint { x, y }.mul(s, jubjub);
        EdwardsPoint {
            x: Num { repr: U256::from_limbs(q.x.to_uint().0.0) },
            y: Num { repr: U256::from_limbs(q.y.to_uint().0.0) },
        }
    }

    /// The point that a field element other than zero is mapped to.
    ///
    /// Calls `EdwardsPoint::from_scalar` of `fawkes_crypto`, which inverts
    /// its argument and so panics on zero, and gives a point of the curve.
    #[verifier::external_body]
    pub(crate) fn from_scalar(t: &Num, jubjub: &JubJubBN256) -> (r: EdwardsPoint)
        requires
            t@ != 0,
        ensures
            r@ == point_from_scalar(t@),
            in_curve(r@.0, r@.1),
    {
        let x = RawNum::<RawFr>::from_uint_unchecked(NumRepr(RawU256::new(t.repr.limbs())));
        let q = RawPoint::from_scalar(x, jubjub);
        EdwardsPoint {
            x: Num { repr: U256::from_limbs(q.x.to_uint().0.0) },
            y: Num { repr: U256::from_limbs(q.y.to_uint().0.0) },
        }
    }

    /// The point of the prime subgroup with first coordinate `x`, if there is
    /// one.
    ///
    /// Calls `EdwardsPoint::subgroup_decompress` of `fawkes_crypto`, which
    /// keeps the coordinate it is given and solves the equation of the curve
    /// for the other.
    #[verifier::external_body]
    pub(crate) fn subgroup_decompress(x: &Num, jubjub: &JubJubBN256) -> (r: Option<EdwardsPoint>)
        ensures
            r.is_some() == point_decompress(x@).is_some(),
            r.is_some() ==> r.unwrap()@ == point_decompress(x@).unwrap() && r.unwrap()@.0 == x@
                && in_curve(r.unwrap()@.0, r.unwrap()@.1),
    {
        let t = RawNum::<RawFr>::from_uint_unchecked(NumRepr(RawU256::new(x.repr.limbs())));
        RawPoint::subgroup_decompress(t, jubjub).map(
            |q| EdwardsPoint {
                x: Num { repr: U256::from_limbs(q.x.to_uint().0.0) },
                y: Num { repr: U256::from_limbs(q.y.to_uint().0.0) },
            },
        )
    }
}

/// The parameters of the embedded curve.
///
/// Calls `JubJubBN256::new` of `fawkes_crypto`.
#[verifier::external_body]
pub(crate) fn jubjub_new() -> (r: JubJubBN256) {
    JubJubBN256::new()
}

/// The generator of the prime subgroup, a point of the curve.
///
/// Calls `edwards_g` of `fawkes_crypto`'s `JubJubParams`.
#[verifier::external_body]
pub(crate) fn jubjub_generator(jubjub: &JubJubBN256) -> (r: EdwardsPoint)
    ensures
        in_curve(r@.0, r@.1),
{
    let q = jubjub.edwards_g();
    EdwardsPoint {
        x: Num { repr: U256::from_limbs(q.x.to_uint().0.0) },
        y: Num { repr: U256::from_limbs(q.y.to_uint().0.0) },
    }
}

} // verus!

use crate::native::uint::U256;
use fawkes_crypto::engines::bn256::Fr as RawFr;
use fawkes_crypto::engines::bn256::Fs as RawFs;
use fawkes_crypto::engines::U256 as RawU256;
use fawkes_crypto::ff_uint::Num as RawNum;
use fawkes_crypto::ff_uint::NumRepr;
use vstd::arithmetic::div_mod::{
    lemma_add_mod_noop, lemma_fundamental_div_mod_converse, lemma_mod_bound, lemma_mul_mod_noop,
    lemma_small_mod, lemma_sub_mod_noop,
};
use vstd::prelude::*;

verus! {

/// Order of the field that commitments, keys and hashes live in.
pub open spec fn modulus() -> nat {
    21888242871839275222246405745257275088548364400416034343698204186575808495617nat
}

/// Order of the prime subgroup of the embedded curve: the field of scalars.
pub open spec fn scalar_modulus() -> nat {
    2736030358979909402780800718157159386076813972158567259200215660948447373041nat
}

/// Number of bits of `modulus()`.
pub const MODULUS_BITS: usize = 254;

/// Number of bits of `scalar_modulus()`.
pub const SCALAR_MODULUS_BITS: usize = 251;

/// Sum in the field.
pub open spec fn field_add(a: nat, b: nat) -> nat {
    (a + b) % modulus()
}

/// Difference in the field.
pub open spec fn field_sub(a: nat, b: nat) -> nat {
    ((a - b) % (modulus() as int)) as nat
}

/// Product in the field.
pub open spec fn field_mul(a: nat, b: nat) -> nat {
    (a * b) % modulus()
}

/// Opposite in the field.
pub open spec fn field_neg(a: nat) -> nat {
    ((-a) % (modulus() as int)) as nat
}

/// The field element that stands for the integer `v`, negative or not.
pub open spec fn field_of_int(v: int) -> nat {
    (v % (modulus() as int)) as nat
}

/// The field element of a number below the modulus is that number.
pub proof fn lemma_field_of_small(n: nat)
    requires
        n < modulus(),
    ensures
        field_of_int(n as int) == n,
{
    lemma_small_mod(n, modulus());
}

/// Adding the field elements of two integers gives that of their sum.
pub proof fn lemma_field_add_int(x: int, y: int)
    ensures
        field_add(field_of_int(x), field_of_int(y)) == field_of_int(x + y),
{
    lemma_mod_bound(x, modulus() as int);
    lemma_mod_bound(y, modulus() as int);
    lemma_add_mod_noop(x, y, modulus() as int);
}

/// Subtracting the field elements of two integers gives that of their
/// difference.
pub proof fn lemma_field_sub_int(x: int, y: int)
    ensures
        field_sub(field_of_int(x), field_of_int(y)) == field_of_int(x - y),
{
    lemma_mod_bound(x, modulus() as int);
    lemma_mod_bound(y, modulus() as int);
    lemma_sub_mod_noop(x, y, modulus() as int);
}

/// Multiplying the field elements of two integers gives that of their
/// product.
pub proof fn lemma_field_mul_int(x: int, y: int)
    ensures
        field_mul(field_of_int(x), field_of_int(y)) == field_of_int(x * y),
{
    lemma_mod_bound(x, modulus() as int);
    lemma_mod_bound(y, modulus() as int);
    lemma_mul_mod_noop(x, y, modulus() as int);
    let a = x % (modulus() as int);
    let b = y % (modulus() as int);
    assert(a * b >= 0) by (nonlinear_arith)
        requires
            a >= 0,
            b >= 0,
    ;
}

/// An integer smaller in size than the modulus is zero exactly where its
/// field element is.
pub proof fn lemma_field_zero(x: int)
    requires
        -(modulus() as int) < x < modulus(),
    ensures
        (field_of_int(x) == 0) == (x == 0),
{
    if x >= 0 {
        lemma_small_mod(x as nat, modulus());
    } else {
        lemma_fundamental_div_mod_converse(x, modulus() as int, -1, x + modulus());
    }
}

/// Half of an even number below the modulus is its product with one half.
pub proof fn lemma_field_half(m: nat)
    requires
        m % 2 == 0,
        m < modulus(),
    ensures
        field_mul(m, (modulus() + 1) / 2) == m / 2,
{
    let k = m / 2;
    let h = (modulus() + 1) / 2;
    assert(m == 2 * k);
    assert(m * h == k * (modulus() as int) + k) by (nonlinear_arith)
        requires
            m == 2 * k,
            2 * h == modulus() + 1,
    ;
    assert(k * (modulus() as int) == (modulus() as int) * k) by (nonlinear_arith);
    lemma_fundamental_div_mod_converse((m * h) as int, modulus() as int, k as int, k as int);
}

/// An element of the field, held by its least non-negative representative.
#[derive(Clone, Copy, Debug, PartialEq, Eq, Structural)]
pub struct Num {
    pub(crate) repr: U256,
}

impl View for Num {
    type V = nat;

    open(crate) spec fn view(&self) -> nat {
        self.repr@
    }
}

/// A scalar of the embedded curve, held by its least non-negative
/// representative.
#[derive(Clone, Copy, Debug, PartialEq, Eq, Structural)]
pub struct Scalar {
    pub(crate) repr: U256,
}

impl View for Scalar {
    type V = nat;

    open(crate) spec fn view(&self) -> nat {
        self.repr@
    }
}

/// The limbs of `modulus()`.
pub fn modulus_uint() -> (r: U256)
    ensures
        r@ == modulus(),
{
    U256 {
        l0: 0x43e1f593f0000001,
        l1: 0x2833e84879b97091,
        l2: 0xb85045b68181585d,
        l3: 0x30644e72e131a029,
    }
}

/// The limbs of `scalar_modulus()`.
pub fn scalar_modulus_uint() -> (r: U256)
    ensures
        r@ == scalar_modulus(),
{
    U256 {
        l0: 0x677297dc392126f1,
        l1: 0xab3eedb83920ee0a,
        l2: 0x370a08b6d0302b0b,
        l3: 0x060c89ce5c263405,
    }
}

impl Num {
    #[verifier::type_invariant]
    pub open(crate) spec fn inv(self) -> bool {
        self.repr@ < modulus()
    }

    /// Two elements with the same view are the same element.
    pub proof fn lemma_view_injective(a: Num, b: Num)
        requires
            a@ == b@,
        ensures
            a == b,
    {
    }

    pub fn zero() -> (r: Self)
        ensures
            r@ == 0,
    {
        Num { repr: U256::zero() }
    }

    pub fn one() -> (r: Self)
        ensures
            r@ == 1,
    {
        Num { repr: U256::one() }
    }

    pub fn from_u64(v: u64) -> (r: Self)
        ensures
            r@ == v,
    {
        Num { repr: U256::from_u64(v) }
    }

    /// The limbs of the least representative, lowest first.
    pub(crate) fn limbs(&self) -> (w: [u64; 4])
        ensures
            U256::from_limbs_spec(w)@ == self@,
    {
        self.repr.limbs()
    }

    /// The element whose least representative has the limbs `w`.
    pub(crate) fn of(w: [u64; 4]) -> (r: Num)
        requires
            U256::from_limbs_spec(w)@ < modulus(),
        ensures
            r@ == U256::from_limbs_spec(w)@,
    {
        Num { repr: U256::from_limbs(w) }
    }

    /// One half: the element whose double is one.
    pub fn half() -> (r: Self)
        ensures
            r@ == (modulus() + 1) / 2,
    {
        Num {
            repr: U256 {
                l0: 0xa1f0fac9f8000001,
                l1: 0x9419f4243cdcb848,
                l2: 0xdc2822db40c0ac2e,
                l3: 0x183227397098d014,
            },
        }
    }

    pub fn from_bool(b: bool) -> (r: Self)
        ensures
            r@ == (if b { 1nat } else { 0nat }),
    {
        if b {
            Num::one()
        } else {
            Num::zero()
        }
    }

    /// The element whose representative is `v`, if `v` is below the modulus.
    pub fn from_uint(v: U256) -> (r: Option<Self>)
        ensures
            r.is_some() == (v@ < modulus()),
            r.is_some() ==> r.unwrap()@ == v@,
    {
        if v.lt(&modulus_uint()) {
            Some(Num { repr: v })
        } else {
            None
        }
    }

    /// The element whose representative is `v`, known to be below the modulus.
    pub fn from_uint_unchecked(v: U256) -> (r: Self)
        requires
            v@ < modulus(),
        ensures
            r@ == v@,
    {
        Num { repr: v }
    }

    /// The least non-negative representative.
    pub fn to_uint(&self) -> (r: U256)
        ensures
            r@ == self@,
            r@ < modulus(),
    {
        proof {
            use_type_invariant(self);
        }
        self.repr
    }

    pub fn is_zero(&self) -> (r: bool)
        ensures
            r == (self@ == 0),
    {
        self.repr.is_zero()
    }

    /// Whether two elements are the same.
    pub fn is_eq(&self, other: &Num) -> (r: bool)
        ensures
            r == (self@ == other@),
            r == (*self == *other),
    {
        let r = self.repr == other.repr;
        proof {
            if self@ == other@ {
                crate::native::uint::lemma_view_injective(self.repr, other.repr);
            }
        }
        r
    }

    pub fn add(&self, other: &Num) -> (r: Num)
        ensures
            r@ == field_add(self@, other@),
    {
        proof {
            use_type_invariant(self);
            use_type_invariant(other);
        }
        let m = modulus_uint();
        let s = self.repr.add(&other.repr);
        if s.ge(&m) {
            let d = s.sub(&m);
            proof {
                lemma_fundamental_div_mod_converse(
                    (self@ + other@) as int,
                    modulus() as int,
                    1,
                    d@ as int,
                );
            }
            Num { repr: d }
        } else {
            proof {
                lemma_small_mod(s@, modulus());
            }
            Num { repr: s }
        }
    }

    pub fn sub(&self, other: &Num) -> (r: Num)
        ensures
            r@ == field_sub(self@, other@),
    {
        proof {
            use_type_invariant(self);
            use_type_invariant(other);
        }
        if self.repr.ge(&other.repr) {
            let d = self.repr.sub(&other.repr);
            proof {
                lemma_small_mod(d@, modulus());
            }
            Num { repr: d }
        } else {
            let m = modulus_uint();
            let t = m.sub(&other.repr);
            let d = t.add(&self.repr);
            proof {
                lemma_fundamental_div_mod_converse(
                    self@ - other@,
                    modulus() as int,
                    -1,
                    d@ as int,
                );
            }
            Num { repr: d }
        }
    }

    pub fn neg(&self) -> (r: Num)
        ensures
            r@ == field_neg(self@),
    {
        proof {
            use_type_invariant(self);
        }
        if self.repr.is_zero() {
            proof {
                lemma_small_mod(0, modulus());
            }
            Num::zero()
        } else {
            let d = modulus_uint().sub(&self.repr);
            proof {
                lemma_fundamental_div_mod_converse(
                    -(self@ as int),
                    modulus() as int,
                    -1,
                    d@ as int,
                );
            }
            Num { repr: d }
        }
    }

    /// Product in the field.
    ///
    /// Calls `*` of `ff_uint::Num`, the multiplication of the prime field.
    #[verifier::external_body]
    pub(crate) fn mul_raw(&self, other: &Num) -> (r: Num)
        ensures
            r@ == field_mul(self@, other@),
    {
        let x = RawNum::<RawFr>::from_uint_unchecked(NumRepr(RawU256::new(self.repr.limbs())));
        let y = RawNum::<RawFr>::from_uint_unchecked(NumRepr(RawU256::new(other.repr.limbs())));
        Num { repr: U256::from_limbs((x * y).to_uint().0.0) }
    }

    pub fn mul(&self, other: &Num) -> (r: Num)
        ensures
            r@ == field_mul(self@, other@),
    {
        self.mul_raw(other)
    }

    /// The scalar that the representative reduces to.
    ///
    /// Calls `to_other_reduced` of `ff_uint::Num`, which takes the
    /// representative modulo the order of the target field.
    #[verifier::external_body]
    pub(crate) fn to_scalar_reduced(&self) -> (r: Scalar)
        ensures
            r@ == self@ % scalar_modulus(),
    {
        let x = RawNum::<RawFr>::from_uint_unchecked(NumRepr(RawU256::new(self.repr.limbs())));
        let y: RawNum<RawFs> = x.to_other_reduced();
        Scalar { repr: U256::from_limbs(y.to_uint().0.0) }
    }
}

impl Scalar {
    #[verifier::type_invariant]
    pub open(crate) spec fn inv(self) -> bool {
        self.repr@ < scalar_modulus()
    }

    /// The scalar whose representative is `v`, if `v` is below the order.
    pub fn from_uint(v: U256) -> (r: Option<Self>)
        ensures
            r.is_some() == (v@ < scalar_modulus()),
            r.is_some() ==> r.unwrap()@ == v@,
    {
        if v.lt(&scalar_modulus_uint()) {
            Some(Scalar { repr: v })
        } else {
            None
        }
    }

    pub fn from_u64(v: u64) -> (r: Self)
        ensures
            r@ == v,
    {
        Scalar { repr: U256::from_u64(v) }
    }

    /// The scalar that `v` reduces to.
    pub fn from_uint_reduced(v: U256) -> (r: Self)
        ensures
            r@ == v@ % scalar_modulus(),
    {
        let q = scalar_modulus_uint();
        let mut rest = v;
        let ghost mut k: nat = 0;
        while rest.ge(&q)
            invariant
                q@ == scalar_modulus(),
                v@ == rest@ + k * scalar_modulus(),
            decreases rest@,
        {
            rest = rest.sub(&q);
            proof {
                assert((k + 1) * scalar_modulus() == k * scalar_modulus() + scalar_modulus())
                    by (nonlinear_arith);
                k = k + 1;
            }
        }
        proof {
            assert(k * scalar_modulus() == scalar_modulus() * k) by (nonlinear_arith);
            lemma_fundamental_div_mod_converse(
                v@ as int,
                scalar_modulus() as int,
                k as int,
                rest@ as int,
            );
        }
        Scalar { repr: rest }
    }

    /// The limbs of the least representative, lowest first.
    pub(crate) fn limbs(&self) -> (w: [u64; 4])
        ensures
            U256::from_limbs_spec(w)@ == self@,
    {
        self.repr.limbs()
    }

    /// The scalar whose least representative has the limbs `w`.
    pub(crate) fn of(w: [u64; 4]) -> (r: Scalar)
        requires
            U256::from_limbs_spec(w)@ < scalar_modulus(),
        ensures
            r@ == U256::from_limbs_spec(w)@,
    {
        Scalar { repr: U256::from_limbs(w) }
    }

    /// The least non-negative representative.
    pub fn to_uint(&self) -> (r: U256)
        ensures
            r@ == self@,
            r@ < scalar_modulus(),
    {
        proof {
            use_type_invariant(self);
        }
        self.repr
    }

    /// The same integer as an element of the larger field.
    pub fn to_num(&self) -> (r: Num)
        ensures
            r@ == self@,
    {
        proof {
            use_type_invariant(self);
        }
        Num { repr: self.repr }
    }
}

} // verus!

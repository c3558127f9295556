use crate::native::num::{Num, Scalar};
use crate::native::poseidon::{params_fit, table_view, PoseidonParams};
use crate::native::uint::U256;
use fawkes_crypto::engines::bn256::Fr as RawFr;
use fawkes_crypto::engines::bn256::Fs as RawFs;
use fawkes_crypto::engines::bn256::JubJubBN256;
use fawkes_crypto::engines::U256 as RawU256;
use fawkes_crypto::ff_uint::Num as RawNum;
use fawkes_crypto::ff_uint::NumRepr;
use fawkes_crypto::native::eddsaposeidon::{eddsaposeidon_sign, eddsaposeidon_verify};
use fawkes_crypto::native::poseidon::PoseidonParams as RawPoseidonParams;
use vstd::prelude::*;

verus! {

/// The signature `(s, r)` that the key `sk` gives the message `m`, with the
/// Poseidon constants `c`, `m`, `t`, `f`, `p`.
pub uninterp spec fn eddsa_signature(
    c: Seq<Seq<nat>>,
    mx: Seq<Seq<nat>>,
    t: nat,
    f: nat,
    p: nat,
    sk: nat,
    m: nat,
) -> (nat, nat);

/// Whether `(s, r)` is a signature of the message `m` under the public key
/// `a`, with the Poseidon constants `c`, `m`, `t`, `f`, `p`.
pub uninterp spec fn eddsa_valid(
    c: Seq<Seq<nat>>,
    mx: Seq<Seq<nat>>,
    t: nat,
    f: nat,
    p: nat,
    s: nat,
    r: nat,
    a: nat,
    m: nat,
) -> bool;

impl PoseidonParams {
    /// The signature that `sk` gives `m` with these constants.
    pub open spec fn signature(&self, sk: nat, m: nat) -> (nat, nat) {
        eddsa_signature(
            table_view(self.c()),
            table_view(self.m()),
            self.t(),
            self.f(),
            self.p(),
            sk,
            m,
        )
    }

    /// Whether `(s, r)` signs `m` under `a` with these constants.
    pub open spec fn signature_valid(&self, s: nat, r: nat, a: nat, m: nat) -> bool {
        eddsa_valid(
            table_view(self.c()),
            table_view(self.m()),
            self.t(),
            self.f(),
            self.p(),
            s,
            r,
            a,
            m,
        )
    }

    /// Signs `m` with `sk`.
    ///
    /// Calls `eddsaposeidon_sign` of `fawkes_crypto`, which hashes three
    /// field elements with these constants.
    #[verifier::external_body]
    pub(crate) fn sign_raw(&self, sk: &Scalar, m: &Num, jubjub: &JubJubBN256) -> (r: (Scalar, Num))
        requires
            self.t() >= 4,
            params_fit(self.c(), self.m(), self.t(), self.f(), self.p()),
        ensures
            (r.0@, r.1@) == eddsa_signature(
                table_view(self.c()),
                table_view(self.m()),
                self.t(),
                self.f(),
                self.p(),
                sk@,
                m@,
            ),
    {
        let cv = |n: &Num| RawNum::from_uint_unchecked(NumRepr(RawU256::new(n.limbs())));
        let tb = |v: &Vec<Vec<Num>>| v.iter().map(|r| r.iter().map(cv).collect()).collect();
        let raw = RawPoseidonParams { c: tb(&self.c), m: tb(&self.m), t: self.t, f: self.f, p: self.p };
        let k = RawNum::from_uint_unchecked(NumRepr(RawU256::new(sk.limbs())));
        let (s, r) = eddsaposeidon_sign(k, cv(m), &raw, jubjub);
        (Scalar::of(s.to_uint().0.0), Num::of(r.to_uint().0.0))
    }

    /// Checks the signature `(s, r)` of `m` under the public key `a`.
    ///
    /// Calls `eddsaposeidon_verify` of `fawkes_crypto`, which hashes three
    /// field elements with these constants.
    #[verifier::external_body]
    pub(crate) fn verify_raw(&self, s: &Scalar, r: &Num, a: &Num, m: &Num, jubjub: &JubJubBN256) -> (ok: bool)
        requires
            self.t() >= 4,
            params_fit(self.c(), self.m(), self.t(), self.f(), self.p()),
        ensures
            ok == eddsa_valid(
                table_view(self.c()),
                table_view(self.m()),
                self.t(),
                self.f(),
                self.p(),
                s@,
                r@,
                a@,
                m@,
            ),
    {
        let cv = |n: &Num| RawNum::from_uint_unchecked(NumRepr(RawU256::new(n.limbs())));
        let tb = |v: &Vec<Vec<Num>>| v.iter().map(|r| r.iter().map(cv).collect()).collect();
        let raw = RawPoseidonParams { c: tb(&self.c), m: tb(&self.m), t: self.t, f: self.f, p: self.p };
        let k = RawNum::from_uint_unchecked(NumRepr(RawU256::new(s.limbs())));
        eddsaposeidon_verify(k, cv(r), cv(a), cv(m), &raw, jubjub)
    }

    /// Signs `m` with `sk`.
    pub fn sign(&self, sk: &Scalar, m: &Num, jubjub: &JubJubBN256) -> (r: (Scalar, Num))
        requires
            self.t() >= 4,
        ensures
            (r.0@, r.1@) == self.signature(sk@, m@),
    {
        proof {
            use_type_invariant(self);
        }
        self.sign_raw(sk, m, jubjub)
    }

    /// Checks the signature `(s, r)` of `m` under the public key `a`.
    pub fn verify(&self, s: &Scalar, r: &Num, a: &Num, m: &Num, jubjub: &JubJubBN256) -> (ok: bool)
        requires
            self.t() >= 4,
        ensures
            ok == self.signature_valid(s@, r@, a@, m@),
    {
        proof {
            use_type_invariant(self);
        }
        self.verify_raw(s, r, a, m, jubjub)
    }
}

} // verus!

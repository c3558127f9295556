use crate::native::ecc::{jubjub_generator, jubjub_new, EdwardsPoint};
use crate::native::poseidon::PoseidonParams;
use fawkes_crypto::engines::bn256::JubJubBN256;
use vstd::prelude::*;

verus! {

/// The parameters of a pool over BN256: the embedded curve and one set of
/// Poseidon constants for each use. No use may take the constants of another.
pub struct PoolBN256 {
    jubjub: JubJubBN256,
    edwards_g: EdwardsPoint,
    hash: PoseidonParams,
    compress: PoseidonParams,
    note: PoseidonParams,
    account: PoseidonParams,
    eddsa: PoseidonParams,
    sponge: PoseidonParams,
    nullifier_intermediate: PoseidonParams,
}

/// Whether each set of constants is wide enough for what it hashes.
pub open spec fn widths_fit(
    hash: PoseidonParams,
    compress: PoseidonParams,
    note: PoseidonParams,
    account: PoseidonParams,
    eddsa: PoseidonParams,
    nullifier_intermediate: PoseidonParams,
) -> bool {
    &&& hash.t() >= 2
    &&& compress.t() >= 3
    &&& note.t() >= 5
    &&& account.t() >= 6
    &&& eddsa.t() >= 4
    &&& nullifier_intermediate.t() >= 4
}

impl PoolBN256 {
    #[verifier::type_invariant]
    closed spec fn inv(self) -> bool {
        widths_fit(
            self.hash,
            self.compress,
            self.note,
            self.account,
            self.eddsa,
            self.nullifier_intermediate,
        )
    }

    /// Parameters of the embedded curve.
    pub closed spec fn spec_jubjub(&self) -> JubJubBN256 {
        self.jubjub
    }

    /// Generator of the prime subgroup of the curve.
    pub closed spec fn spec_edwards_g(&self) -> EdwardsPoint {
        self.edwards_g
    }

    /// Constants for key derivation.
    pub closed spec fn spec_hash(&self) -> PoseidonParams {
        self.hash
    }

    /// Constants for the nodes of Merkle trees and the last step of the
    /// nullifier.
    pub closed spec fn spec_compress(&self) -> PoseidonParams {
        self.compress
    }

    /// Constants for note commitments.
    pub closed spec fn spec_note(&self) -> PoseidonParams {
        self.note
    }

    /// Constants for account commitments.
    pub closed spec fn spec_account(&self) -> PoseidonParams {
        self.account
    }

    /// Constants for signatures.
    pub closed spec fn spec_eddsa(&self) -> PoseidonParams {
        self.eddsa
    }

    /// Constants for the transaction hash.
    pub closed spec fn spec_sponge(&self) -> PoseidonParams {
        self.sponge
    }

    /// Constants for the first step of the nullifier.
    pub closed spec fn spec_nullifier_intermediate(&self) -> PoseidonParams {
        self.nullifier_intermediate
    }

    /// Parameters of the shapes that the pool uses, with constants that the
    /// Poseidon generator derives for each shape: eight full rounds for
    /// every set, 53 partial rounds for the widths two and three, 54 for the
    /// widths four, five and six. Only the shapes are fixed here: which
    /// constants the generator derives is not stated, and they need not be
    /// those that a deployed pool ships. Shipped constants come in through
    /// `from_parts`.
    pub fn new() -> (r: Self)
        ensures
            r.spec_hash().t() == 2 && r.spec_hash().f() == 8 && r.spec_hash().p() == 53,
            r.spec_compress().t() == 3 && r.spec_compress().f() == 8 && r.spec_compress().p() == 53,
            r.spec_note().t() == 5 && r.spec_note().f() == 8 && r.spec_note().p() == 54,
            r.spec_account().t() == 6 && r.spec_account().f() == 8 && r.spec_account().p() == 54,
            r.spec_eddsa().t() == 4 && r.spec_eddsa().f() == 8 && r.spec_eddsa().p() == 54,
            r.spec_sponge().t() == 6 && r.spec_sponge().f() == 8 && r.spec_sponge().p() == 54,
            r.spec_nullifier_intermediate().t() == 4 && r.spec_nullifier_intermediate().f() == 8
                && r.spec_nullifier_intermediate().p() == 54,
    {
        let jubjub = jubjub_new();
        let edwards_g = jubjub_generator(&jubjub);
        PoolBN256 {
            jubjub,
            edwards_g,
            hash: PoseidonParams::new(2, 8, 53),
            compress: PoseidonParams::new(3, 8, 53),
            note: PoseidonParams::new(5, 8, 54),
            account: PoseidonParams::new(6, 8, 54),
            eddsa: PoseidonParams::new(4, 8, 54),
            sponge: PoseidonParams::new(6, 8, 54),
            nullifier_intermediate: PoseidonParams::new(4, 8, 54),
        }
    }

    /// A pool with constants of the caller's, if each set is wide enough.
    pub fn from_parts(
        hash: PoseidonParams,
        compress: PoseidonParams,
        note: PoseidonParams,
        account: PoseidonParams,
        eddsa: PoseidonParams,
        sponge: PoseidonParams,
        nullifier_intermediate: PoseidonParams,
    ) -> (r: Option<Self>)
        ensures
            r.is_some() == widths_fit(hash, compress, note, account, eddsa, nullifier_intermediate),
            r.is_some() ==> {
                let q = r.unwrap();
                &&& q.spec_hash() == hash
                &&& q.spec_compress() == compress
                &&& q.spec_note() == note
                &&& q.spec_account() == account
                &&& q.spec_eddsa() == eddsa
                &&& q.spec_sponge() == sponge
                &&& q.spec_nullifier_intermediate() == nullifier_intermediate
            },
    {
        if hash.width() >= 2 && compress.width() >= 3 && note.width() >= 5 && account.width() >= 6
            && eddsa.width() >= 4 && nullifier_intermediate.width() >= 4 {
            let jubjub = jubjub_new();
            let edwards_g = jubjub_generator(&jubjub);
            Some(
                PoolBN256 {
                    jubjub,
                    edwards_g,
                    hash,
                    compress,
                    note,
                    account,
                    eddsa,
                    sponge,
                    nullifier_intermediate,
                },
            )
        } else {
            None
        }
    }

    pub fn jubjub(&self) -> (r: &JubJubBN256)
        ensures
            *r == self.spec_jubjub(),
    {
        &self.jubjub
    }

    pub fn edwards_g(&self) -> (r: &EdwardsPoint)
        ensures
            *r == self.spec_edwards_g(),
    {
        &self.edwards_g
    }

    pub fn hash(&self) -> (r: &PoseidonParams)
        ensures
            *r == self.spec_hash(),
            r.t() >= 2,
    {
        proof {
            use_type_invariant(self);
        }
        &self.hash
    }

    pub fn compress(&self) -> (r: &PoseidonParams)
        ensures
            *r == self.spec_compress(),
            r.t() >= 3,
    {
        proof {
            use_type_invariant(self);
        }
        &self.compress
    }

    pub fn note(&self) -> (r: &PoseidonParams)
        ensures
            *r == self.spec_note(),
            r.t() >= 5,
    {
        proof {
            use_type_invariant(self);
        }
        &self.note
    }

    pub fn account(&self) -> (r: &PoseidonParams)
        ensures
            *r == self.spec_account(),
            r.t() >= 6,
    {
        proof {
            use_type_invariant(self);
        }
        &self.account
    }

    pub fn eddsa(&self) -> (r: &PoseidonParams)
        ensures
            *r == self.spec_eddsa(),
            r.t() >= 4,
    {
        proof {
            use_type_invariant(self);
        }
        &self.eddsa
    }

    pub fn sponge(&self) -> (r: &PoseidonParams)
        ensures
            *r == self.spec_sponge(),
    {
        &self.sponge
    }

    pub fn nullifier_intermediate(&self) -> (r: &PoseidonParams)
        ensures
            *r == self.spec_nullifier_intermediate(),
            r.t() >= 4,
    {
        proof {
            use_type_invariant(self);
        }
        &self.nullifier_intermediate
    }
}

} // verus!

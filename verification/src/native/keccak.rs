use crate::native::bytes::be_value;
use crate::native::num::{
    field_of_int, lemma_field_add_int, lemma_field_mul_int, lemma_field_of_small, modulus, Num,
};
use vstd::arithmetic::div_mod::lemma_small_mod;
use vstd::prelude::*;

verus! {

/// The Keccak-256 digest of a sequence of bytes.
pub uninterp spec fn keccak256_digest(data: Seq<u8>) -> Seq<u8>;

/// Keccak-256 of a sequence of bytes.
///
/// Calls `keccak256` of `fawkes_crypto_keccak256`, which gives 32 bytes.
#[verifier::external_body]
pub(crate) fn keccak256(data: &[u8]) -> (r: Vec<u8>)
    ensures
        r@ == keccak256_digest(data@),
        r@.len() == 32,
{
    fawkes_crypto_keccak256::native::hash::keccak256(data).to_vec()
}

/// The field element of the number that a sequence of bytes stands for,
/// highest byte first.
pub fn num_from_bytes_be_reduced(bytes: &[u8]) -> (r: Num)
    ensures
        r@ == be_value(bytes@) % modulus(),
{
    let mut res = Num::zero();
    let base = Num::from_u64(256);
    let mut i: usize = 0;
    proof {
        lemma_small_mod(0, modulus());
        assert(bytes@.take(0).reverse() =~= Seq::<u8>::empty());
    }
    while i < bytes.len()
        invariant
            i <= bytes@.len(),
            base@ == 256,
            res@ == field_of_int(be_value(bytes@.take(i as int)) as int),
        decreases bytes@.len() - i,
    {
        let limb = Num::from_u64(bytes[i] as u64);
        proof {
            let prev = be_value(bytes@.take(i as int));
            let next = bytes@.take(i + 1);
            assert(next.reverse().drop_first() =~= bytes@.take(i as int).reverse());
            assert(next.reverse()[0] == bytes@[i as int]);
            assert(be_value(next) == bytes@[i as int] as nat + 256 * prev);
            lemma_field_of_small(256);
            lemma_field_of_small(limb@);
            lemma_field_mul_int(prev as int, 256);
            lemma_field_add_int((prev * 256) as int, limb@ as int);
        }
        res = res.mul(&base).add(&limb);
        i += 1;
    }
    proof {
        assert(bytes@.take(bytes@.len() as int) =~= bytes@);
    }
    res
}

} // verus!

use fawkes_crypto::circuit::bitify::{
    c_comp as raw_c_comp, c_from_bits_le as raw_from_bits, c_into_bits_le as raw_into_bits,
    c_into_bits_le_strict as raw_into_bits_strict,
};
use fawkes_crypto::circuit::bool::CBool as RawCBool;
use fawkes_crypto::circuit::cs::{DebugCS, RCS};
use fawkes_crypto::circuit::ecc::CEdwardsPoint as RawCPoint;
use fawkes_crypto::circuit::eddsaposeidon::c_eddsaposeidon_verify;
use fawkes_crypto::circuit::num::CNum as RawCNum;
use fawkes_crypto::circuit::poseidon::{
    c_poseidon as raw_c_poseidon, c_poseidon_merkle_proof_root as raw_c_proof_root,
    c_poseidon_merkle_tree_root as raw_c_tree_root, c_poseidon_sponge as raw_c_sponge,
    CMerkleProof as RawCProof,
};
use fawkes_crypto::engines::bn256::{Fr, JubJubBN256};
use fawkes_crypto::ff_uint::{Num as RawNum, NumRepr};
use fawkes_crypto::native::poseidon::PoseidonParams as RawParams;
use fawkes_crypto_keccak256::circuit::hash::c_keccak256;
use libzeropool::circuit::bitify::{c_comp, c_from_bits_le, c_into_bits_le, c_into_bits_le_strict};
use libzeropool::circuit::cs::CS;
use libzeropool::circuit::delegated_deposit::num_to_iter_bits_be;
use libzeropool::circuit::key::{c_derive_key_eta, c_derive_key_p_d};
use libzeropool::circuit::num::CNum;
use libzeropool::circuit::poseidon::{
    c_poseidon, c_poseidon_merkle_proof_root, c_poseidon_merkle_tree_root, c_poseidon_sponge,
    CMerkleProof,
};
use libzeropool::circuit::tx::{c_nullfifier, c_parse_delta, c_tx_hash, c_tx_verify};
use libzeropool::helpers::sample_data::sample_delegated_deposit;
use libzeropool::native::boundednum::BoundedNum;
use libzeropool::native::delegated_deposit::DelegatedDeposit;
use libzeropool::native::key::derive_key_a;
use libzeropool::native::num::{Num, Scalar};
use libzeropool::native::params::PoolBN256;
use libzeropool::native::tx::{make_delta, tx_sign};
use libzeropool::native::uint::U256;

fn raw(n: &Num) -> RawNum<Fr> {
    let u = n.to_uint();
    RawNum::from_uint(NumRepr(fawkes_crypto::engines::U256::new([u.l0, u.l1, u.l2, u.l3]))).unwrap()
}

fn lib(n: &RawNum<Fr>) -> Num {
    let w = n.to_uint().0 .0;
    Num::from_uint(U256 { l0: w[0], l1: w[1], l2: w[2], l3: w[3] }).unwrap()
}

fn signal(cs: &RCS<DebugCS<Fr>>, n: &Num) -> RawCNum<DebugCS<Fr>> {
    fawkes_crypto::core::signal::Signal::alloc(cs, Some(&raw(n)))
}

fn bit_signal(cs: &RCS<DebugCS<Fr>>, b: bool) -> RawCBool<DebugCS<Fr>> {
    fawkes_crypto::core::signal::Signal::alloc(cs, Some(&b))
}

fn bit_value(b: &RawCBool<DebugCS<Fr>>) -> bool {
    fawkes_crypto::core::signal::Signal::get_value(b).unwrap()
}

fn value(s: &RawCNum<DebugCS<Fr>>) -> Num {
    lib(&fawkes_crypto::core::signal::Signal::get_value(s).unwrap())
}

fn wide(seed: u64) -> Num {
    Num::from_u64(seed).mul(&Num::from_u64(0x9e37_79b9_7f4a_7c15)).mul(&Num::from_u64(seed | 1)).mul(
        &Num::from_u64(0xdead_beef_cafe_f00d),
    )
}

#[test]
fn hash_gadgets_carry_the_native_hashes() {
    let params = PoolBN256::new();
    let cs = DebugCS::<Fr>::rc_new();
    let inputs: Vec<Num> = (1..6).map(wide).collect();

    let raw_inputs: Vec<_> = inputs.iter().map(|n| signal(&cs, n)).collect();
    let expected = value(&raw_c_poseidon(&raw_inputs, &RawParams::<Fr>::new(6, 8, 54)));
    let own: Vec<CNum> = inputs.iter().map(|n| CNum::allocate(*n)).collect();
    assert!(c_poseidon(&own, params.account()).get_value() == expected);

    let expected = value(&raw_c_sponge(&raw_inputs, &RawParams::<Fr>::new(6, 8, 54)));
    assert!(c_poseidon_sponge(&own, params.sponge()).get_value() == expected);
    let expected = value(&raw_c_sponge(&raw_inputs, &RawParams::<Fr>::new(6, 8, 54)));
    assert!(c_tx_hash(&own[0..4], &own[4], &params).get_value() == expected);

    let leaves: Vec<Num> = (0..128).map(|i| wide(100 + i)).collect();
    let raw_leaves: Vec<_> = leaves.iter().map(|n| signal(&cs, n)).collect();
    let expected = value(&raw_c_tree_root(&raw_leaves, &RawParams::<Fr>::new(3, 8, 53)));
    let own_leaves: Vec<CNum> = leaves.iter().map(|n| CNum::allocate(*n)).collect();
    assert!(c_poseidon_merkle_tree_root(&own_leaves, params.compress()).get_value() == expected);

    let intermediate = raw_c_poseidon(&raw_inputs[0..3], &RawParams::<Fr>::new(4, 8, 54));
    let expected = value(&raw_c_poseidon(
        &[raw_inputs[0].clone(), intermediate],
        &RawParams::<Fr>::new(3, 8, 53),
    ));
    assert!(c_nullfifier(&own[0], &own[1], &own[2], &params).get_value() == expected);
}

#[test]
fn merkle_proof_gadget_carries_the_native_root() {
    let params = PoolBN256::new();
    let cs = DebugCS::<Fr>::rc_new();
    let sibling: Vec<Num> = (0..48).map(|i| wide(7 + i)).collect();
    let path: Vec<bool> = (0..48).map(|i| i % 5 == 2 || i % 7 == 0).collect();
    let leaf = wide(3);
    let raw_proof = RawCProof::<DebugCS<Fr>, 48> {
        sibling: sibling.iter().map(|n| signal(&cs, n)).collect(),
        path: path.iter().map(|b| bit_signal(&cs, *b)).collect(),
    };
    let expected = value(&raw_c_proof_root(&signal(&cs, &leaf), &raw_proof, &RawParams::<Fr>::new(3, 8, 53)));
    let own = CMerkleProof::<48> {
        sibling: sibling.iter().map(|n| CNum::allocate(*n)).collect(),
        path: path.iter().map(|b| libzeropool::circuit::bool::CBool::allocate(*b)).collect(),
    };
    assert!(c_poseidon_merkle_proof_root(&CNum::allocate(leaf), &own, params.compress()).get_value() == expected);
}

#[test]
fn bit_gadgets_carry_the_same_bits() {
    let cs = DebugCS::<Fr>::rc_new();
    let n = wide(11);
    let mut own_cs = CS::new();
    let bits = c_into_bits_le_strict(&mut own_cs, &CNum::allocate(n));
    let raw_bits = raw_into_bits_strict(&signal(&cs, &n));
    assert_eq!(bits.len(), raw_bits.len());
    for (a, b) in bits.iter().zip(raw_bits.iter()) {
        assert_eq!(a.get_value(), bit_value(b));
    }
    assert!(c_from_bits_le(&bits[3..200]).get_value() == value(&raw_from_bits(&raw_bits[3..200])));
    assert!(c_from_bits_le(&bits).get_value() == n);

    let small = Num::from_u64(0xabcd_ef01);
    let bits = c_into_bits_le(&mut own_cs, &CNum::allocate(small), 32);
    let raw_bits = raw_into_bits(&signal(&cs, &small), 32);
    for (a, b) in bits.iter().zip(raw_bits.iter()) {
        assert_eq!(a.get_value(), bit_value(b));
    }
    assert!(own_cs.is_satisfied());
    let _ = c_into_bits_le(&mut own_cs, &CNum::allocate(small), 31);
    assert!(!own_cs.is_satisfied());

    let mut own_cs = CS::new();
    for (a, b) in [(5u64, 9u64), (9, 5), (7, 7), (0, (1 << 48) - 1), ((1 << 48) - 1, 0)] {
        let (x, y) = (Num::from_u64(a), Num::from_u64(b));
        let expected = bit_value(&raw_c_comp(&signal(&cs, &x), &signal(&cs, &y), 48));
        let got = c_comp(&mut own_cs, &CNum::allocate(x), &CNum::allocate(y), 48).get_value();
        assert_eq!(got, expected);
        assert_eq!(got, a > b);
    }
    assert!(own_cs.is_satisfied());
}

#[test]
fn delta_gadget_unpacks_what_was_packed() {
    let mut cs = CS::new();
    let v = Num::from_u64(600).neg();
    let e = Num::from_u64(12345);
    let index = Num::from_u64(2000);
    let poolid = Num::from_u64(0xabcdef);
    let delta = make_delta(v, e, index, poolid);
    let (cv, ce, ci, cp) = c_parse_delta(&mut cs, &CNum::allocate(delta));
    assert!(cs.is_satisfied());
    assert!(cv.get_value() == v && ce.get_value() == e && ci.get_value() == index && cp.get_value() == poolid);
    // a bit above the four fields
    let stray = Num::from_uint(U256 { l0: 0, l1: 0, l2: 0, l3: 1 << 56 }).unwrap();
    let _ = c_parse_delta(&mut cs, &CNum::allocate(delta.add(&stray)));
    assert!(!cs.is_satisfied());
}

#[test]
fn key_gadgets_carry_the_native_keys() {
    let params = PoolBN256::new();
    let jubjub = JubJubBN256::new();
    let cs = DebugCS::<Fr>::rc_new();
    let a = derive_key_a(Scalar::from_u64(424242), &params).x();
    let eta = c_derive_key_eta(&CNum::allocate(a), &params);
    let expected = value(&raw_c_poseidon(&[signal(&cs, &a)], &RawParams::<Fr>::new(2, 8, 53)));
    assert!(eta.get_value() == expected);

    let d = Num::from_u64(777);
    let mut own_cs = CS::new();
    let eta_bits = c_into_bits_le_strict(&mut own_cs, &eta);
    let p_d = c_derive_key_p_d(&mut own_cs, &CNum::allocate(d), &eta_bits, &params);
    assert!(own_cs.is_satisfied());

    let raw_eta_bits = raw_into_bits_strict(&signal(&cs, &eta.get_value()));
    let d_hash = raw_c_poseidon(&[signal(&cs, &d)], &RawParams::<Fr>::new(2, 8, 53));
    let expected = RawCPoint::from_scalar(&d_hash, &jubjub).mul(&raw_eta_bits, &jubjub);
    assert!(p_d.x.get_value() == value(&expected.x));
    assert!(p_d.y.get_value() == value(&expected.y));
}

#[test]
fn signature_gadget_carries_the_native_check() {
    let params = PoolBN256::new();
    let jubjub = JubJubBN256::new();
    let eddsa = RawParams::<Fr>::new(4, 8, 54);
    let sigma = Scalar::from_u64(31415926);
    let a = derive_key_a(sigma, &params).x();
    let m = wide(5);
    let (s, r) = tx_sign(sigma, m, &params);
    for message in [m, wide(6)] {
        let cs = DebugCS::<Fr>::rc_new();
        let expected = bit_value(&c_eddsaposeidon_verify(
            &signal(&cs, &s.to_num()),
            &signal(&cs, &r),
            &signal(&cs, &a),
            &signal(&cs, &message),
            &eddsa,
            &jubjub,
        ));
        let mut own_cs = CS::new();
        let got = c_tx_verify(
            &mut own_cs,
            &CNum::allocate(s.to_num()),
            &CNum::allocate(r),
            &CNum::allocate(a),
            &CNum::allocate(message),
            &params,
        );
        assert!(own_cs.is_satisfied());
        assert_eq!(got.get_value(), expected);
        assert_eq!(expected, message == m);
    }
    // a scalar beyond the order of the subgroup is held out
    let mut own_cs = CS::new();
    let _ = c_tx_verify(
        &mut own_cs,
        &CNum::allocate(Num::zero().sub(&Num::one())),
        &CNum::allocate(r),
        &CNum::allocate(a),
        &CNum::allocate(m),
        &params,
    );
    assert!(!own_cs.is_satisfied());
}

#[test]
fn keccak_gadget_carries_the_digest_of_a_batch() {
    let params = PoolBN256::new();
    let deposits: Vec<DelegatedDeposit> = (0..2)
        .map(|i| DelegatedDeposit {
            d: BoundedNum::new(Num::from_u64(1000 + i)),
            p_d: wide(40 + i),
            b: BoundedNum::new(Num::from_u64(5 + i)),
        })
        .collect();
    let (p, s) = sample_delegated_deposit(deposits.clone(), &params);

    // the bits that the batch is digested from, as signals of the outside constraint system
    let mut own_cs = CS::new();
    let mut own_bits = num_to_iter_bits_be(&mut own_cs, &CNum::allocate(s.out_commitment_hash));
    for d in deposits.iter() {
        let c = libzeropool::circuit::delegated_deposit::CDelegatedDeposit::allocate(&mut own_cs, d);
        own_bits.extend(c.to_iter_bits_be(&mut own_cs));
    }
    let cs = DebugCS::<Fr>::rc_new();
    let raw_bits: Vec<_> = own_bits.iter().map(|b| bit_signal(&cs, b.get_value())).collect();
    let digest = c_keccak256(&cs, &raw_bits);
    let digest_le: Vec<_> = digest.as_slice().chunks(8).rev().flatten().cloned().collect();
    assert!(value(&raw_from_bits(&digest_le)) == p.keccak_sum);
}

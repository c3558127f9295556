use fawkes_crypto::engines::bn256::Fr;
use fawkes_crypto::ff_uint::{Num as RawNum, NumRepr};
use fawkes_crypto::native::poseidon::{
    poseidon as raw_poseidon, poseidon_merkle_tree_root as raw_tree_root, PoseidonParams as RawParams,
};
use libzeropool::circuit::account::CAccount;
use libzeropool::circuit::cs::CS;
use libzeropool::circuit::note::CNote;
use libzeropool::circuit::num::CNum;
use libzeropool::constants::{account_size_bits, note_size_bits, num_size_bits, HEIGHT, OUT};
use libzeropool::native::poseidon::{poseidon_merkle_proof_root, MerkleProof};
use libzeropool::native::tx::{accout_hash, note_hash, nullifier, tx_hash};
use libzeropool::native::account::Account;
use libzeropool::native::boundednum::BoundedNum;
use libzeropool::native::key::{derive_key_a, derive_key_eta, derive_key_p_d, try_derive_key_p_d};
use libzeropool::native::note::Note;
use libzeropool::native::num::{Num, Scalar};
use libzeropool::native::params::PoolBN256;
use libzeropool::native::tx::{out_commitment_hash, tx_sign, tx_verify};
use libzeropool::native::uint::U256;

fn raw(n: &Num) -> RawNum<Fr> {
    let u = n.to_uint();
    RawNum::from_uint(NumRepr(fawkes_crypto::engines::U256::new([u.l0, u.l1, u.l2, u.l3]))).unwrap()
}

fn same(n: &Num, r: &RawNum<Fr>) -> bool {
    raw(n) == *r
}

#[test]
fn field_arithmetic_agrees_with_the_field() {
    let a = Num::from_uint(U256 { l0: 5, l1: 6, l2: 7, l3: 0x2000_0000_0000_0000 }).unwrap();
    let b = Num::from_uint(U256 { l0: 9, l1: 1, l2: 2, l3: 0x2fff_0000_0000_0000 }).unwrap();
    assert!(same(&a.add(&b), &(raw(&a) + raw(&b))));
    assert!(same(&a.sub(&b), &(raw(&a) - raw(&b))));
    assert!(same(&b.sub(&a), &(raw(&b) - raw(&a))));
    assert!(same(&a.mul(&b), &(raw(&a) * raw(&b))));
    assert!(same(&a.neg(), &(-raw(&a))));
    assert!(Num::zero().neg() == Num::zero());
    assert!(Num::half().add(&Num::half()) == Num::one());
    assert!(Num::from_u64(6).mul(&Num::from_u64(7)) == Num::from_u64(42));
    // the modulus itself is no element
    let m = U256 { l0: 0x43e1f593f0000001, l1: 0x2833e84879b97091, l2: 0xb85045b68181585d, l3: 0x30644e72e131a029 };
    assert!(Num::from_uint(m).is_none());
    assert!(Num::from_uint(U256 { l0: m.l0 - 1, ..m }).is_some());
}

#[test]
fn account_hash_is_poseidon_of_its_fields() {
    let params = PoolBN256::new();
    let account = Account {
        d: BoundedNum::new(Num::from_u64(1)),
        p_d: Num::from_u64(2),
        i: BoundedNum::new(Num::from_u64(3)),
        b: BoundedNum::new(Num::from_u64(4)),
        e: BoundedNum::new(Num::from_u64(5)),
    };
    let expected = raw_poseidon(
        &[1u64, 2, 3, 4, 5].map(RawNum::<Fr>::from),
        &RawParams::<Fr>::new(6, 8, 54),
    );
    assert!(same(&account.hash(&params), &expected));

    let note = Note {
        d: BoundedNum::new(Num::from_u64(1)),
        p_d: Num::from_u64(2),
        b: BoundedNum::new(Num::from_u64(3)),
        t: BoundedNum::new(Num::from_u64(4)),
    };
    let expected = raw_poseidon(&[1u64, 2, 3, 4].map(RawNum::<Fr>::from), &RawParams::<Fr>::new(5, 8, 54));
    assert!(same(&note.hash(&params), &expected));
    assert!(note.hash(&params) != Note::zero().hash(&params));
}

#[test]
fn circuit_hash_equals_native_hash() {
    let params = PoolBN256::new();
    let account = Account {
        d: BoundedNum::new(Num::from_u64(11)),
        p_d: Num::from_u64(22),
        i: BoundedNum::new(Num::from_u64(33)),
        b: BoundedNum::new(Num::from_u64(44)),
        e: BoundedNum::new(Num::from_u64(55)),
    };
    let note = Note {
        d: BoundedNum::new(Num::from_u64(11)),
        p_d: Num::from_u64(22),
        b: BoundedNum::new(Num::from_u64(33)),
        t: BoundedNum::new(Num::from_u64(44)),
    };
    let mut cs = CS::new();
    let c_account = CAccount::allocate(&mut cs, &account);
    let c_note = CNote::allocate(&mut cs, &note);
    assert!(cs.is_satisfied());
    assert!(c_account.hash(&params).get_value() == account.hash(&params));
    assert!(c_note.hash(&params).get_value() == note.hash(&params));
    assert!(!c_account.is_initial(&CNum::allocate(Num::from_u64(11))).get_value());
    let initial = Account { d: BoundedNum::new(Num::from_u64(9)), ..Account::zero() };
    let c_initial = CAccount::allocate(&mut cs, &initial);
    assert!(c_initial.is_initial(&CNum::allocate(Num::from_u64(9))).get_value());
    assert!(!c_initial.is_initial(&CNum::allocate(Num::from_u64(8))).get_value());
    assert!(c_note.is_dummy_raw().get_value() == Num::from_u64(33));
    assert!(!c_note.is_zero().get_value());
    assert!(CNote::allocate(&mut cs, &Note::zero()).is_zero().get_value());
}

#[test]
fn out_commitment_is_the_tree_root() {
    let params = PoolBN256::new();
    let items: Vec<Num> = (0..OUT as u64 + 1).map(|i| Num::from_u64(i * i + 1)).collect();
    let expected = raw_tree_root(
        &items.iter().map(raw).collect::<Vec<_>>(),
        &RawParams::<Fr>::new(3, 8, 53),
    );
    assert!(same(&out_commitment_hash(&items, &params), &expected));
}

#[test]
fn keys_and_signatures() {
    let params = PoolBN256::new();
    let sigma = Scalar::from_u64(987654321);
    let a = derive_key_a(sigma, &params);
    let eta = derive_key_eta(a.x(), &params);
    assert!(eta != a.x());
    let expected = raw_poseidon(&[raw(&a.x())], &RawParams::<Fr>::new(2, 8, 53));
    assert!(same(&eta, &expected));

    let d = Num::from_u64(5);
    let p_d = derive_key_p_d(d, eta, &params);
    assert!(try_derive_key_p_d(d, eta, &params) == Some(p_d));
    assert!(p_d != derive_key_p_d(Num::from_u64(6), eta, &params));
    assert!(p_d != derive_key_p_d(d, Num::from_u64(6), &params));

    let m = Num::from_u64(31337);
    let (s, r) = tx_sign(sigma, m, &params);
    assert!(tx_verify(s, r, a.x(), m, &params));
    assert!(!tx_verify(s, r, a.x(), Num::from_u64(31338), &params));
    assert!(!tx_verify(s, r, d, m, &params));
}

#[test]
fn merkle_proof_root_agrees_with_the_outside_one() {
    let params = PoolBN256::new();
    let proof = MerkleProof::<HEIGHT> {
        sibling: (0..HEIGHT as u64).map(|i| Num::from_u64(3 * i + 1)).collect(),
        path: (0..HEIGHT).map(|i| i % 3 == 1).collect(),
    };
    let leaf = Num::from_u64(99);
    let raw_proof = fawkes_crypto::native::poseidon::MerkleProof::<Fr, HEIGHT> {
        sibling: proof.sibling.iter().map(raw).collect(),
        path: proof.path.iter().cloned().collect(),
    };
    let expected = fawkes_crypto::native::poseidon::poseidon_merkle_proof_root(
        raw(&leaf),
        &raw_proof,
        &RawParams::<Fr>::new(3, 8, 53),
    );
    assert!(same(&poseidon_merkle_proof_root(leaf, &proof, params.compress()), &expected));
}

#[test]
fn nullifier_and_tx_hash_use_their_own_constants() {
    let params = PoolBN256::new();
    let (h, eta, path) = (Num::from_u64(1), Num::from_u64(2), Num::from_u64(3));
    let intermediate = raw_poseidon(
        &[raw(&h), raw(&eta), raw(&path)],
        &RawParams::<Fr>::new(4, 8, 54),
    );
    let expected = raw_poseidon(&[raw(&h), intermediate], &RawParams::<Fr>::new(3, 8, 53));
    assert!(same(&nullifier(h, eta, path, &params), &expected));
    assert!(nullifier(h, eta, path, &params) != nullifier(h, eta, Num::from_u64(4), &params));

    let expected = fawkes_crypto::native::poseidon::poseidon_sponge(
        &[raw(&h), raw(&eta), raw(&path)],
        &RawParams::<Fr>::new(6, 8, 54),
    );
    assert!(same(&tx_hash(&[h, eta], path, &params), &expected));
}

#[test]
fn sizes_and_free_hash_functions() {
    assert_eq!(num_size_bits(), 256);
    assert_eq!(note_size_bits(), 80 + 64 + 80 + 256);
    assert_eq!(account_size_bits(), 64 + 80 + 112 + 48 + 256);
    let params = PoolBN256::new();
    let note = Note { b: BoundedNum::new(Num::from_u64(3)), ..Note::zero() };
    let account = Account { b: BoundedNum::new(Num::from_u64(3)), ..Account::zero() };
    assert!(note_hash(note, &params) == note.hash(&params));
    assert!(accout_hash(account, &params) == account.hash(&params));
    assert!(note_hash(note, &params) != accout_hash(account, &params));
}

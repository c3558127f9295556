use libzeropool::circuit::cs::CS;
use libzeropool::circuit::tx::{c_transfer, CTransferPub, CTransferSec};
use libzeropool::constants::{HEIGHT, IN, OUT};
use libzeropool::native::account::Account;
use libzeropool::native::note::Note;
use libzeropool::native::num::Num;
use libzeropool::native::params::PoolBN256;
use libzeropool::native::poseidon::MerkleProof;
use libzeropool::native::tx::{TransferPub, TransferSec, Tx};

#[test]
fn circuit_test_circuit_tx() {
    let params = PoolBN256::new();
    let proof = || MerkleProof::<HEIGHT> { sibling: vec![Num::zero(); HEIGHT], path: vec![false; HEIGHT] };
    let p = TransferPub {
        root: Num::zero(),
        nullifier: Num::zero(),
        out_commit: Num::zero(),
        delta: Num::zero(),
        memo: Num::zero(),
    };
    let s = TransferSec {
        tx: Tx {
            input: (Account::zero(), vec![Note::zero(); IN]),
            output: (Account::zero(), vec![Note::zero(); OUT]),
        },
        in_proof: (proof(), (0..IN).map(|_| proof()).collect()),
        eddsa_s: Num::zero(),
        eddsa_r: Num::zero(),
        eddsa_a: Num::zero(),
    };
    assert!(s.is_wf());
    let mut cs = CS::new();
    let p = CTransferPub::allocate(&p);
    let s = CTransferSec::allocate(&mut cs, &s);
    c_transfer(&mut cs, &p, &s, &params);
    println!("tx satisfied = {}", cs.is_satisfied());
}

use libzeropool::circuit::cs::CS;
use libzeropool::circuit::tree::{tree_update, tree_update_satisfied, CTreePub, CTreeSec};
use libzeropool::constants::{OUTPLUSONELOG, TREE_UPDATE_HEIGHT};
use libzeropool::helpers::sample_data::HashTreeState;
use libzeropool::native::num::Num;
use libzeropool::native::params::PoolBN256;
use libzeropool::native::poseidon::{poseidon_merkle_proof_root, poseidon_pair};
use libzeropool::native::tree::{default_hash, TreePub, TreeSec};

struct Rng(u64);

impl Rng {
    fn next(&mut self) -> u64 {
        self.0 = self.0.wrapping_mul(6364136223846793005).wrapping_add(1442695040888963407);
        self.0 >> 11
    }
}

#[test]
fn test_circuit_tx_fullfill_not_empty() {
    let params = PoolBN256::new();
    let mut rng = Rng(11);
    let mut state = HashTreeState::new(&params);
    let num_elements: usize = 1 + (rng.next() % 40) as usize;

    for _ in 0..num_elements {
        state.push(Num::from_u64(rng.next() | 1), &params);
    }

    let root_before = state.root(&params);
    let proof_filled = state.merkle_proof(num_elements - 1, &params);
    let proof_free = state.merkle_proof(num_elements, &params);
    let prev_leaf = state.hashes[0].last().unwrap().clone();
    state.push(Num::from_u64(rng.next()), &params);
    let root_after = state.root(&params);
    let leaf = state.hashes[0].last().unwrap().clone();

    let p = TreePub { root_before, root_after, leaf };
    let s = TreeSec { proof_filled, proof_free, prev_leaf };

    let mut cs = CS::new();
    let cp = CTreePub::allocate(&p);
    let csec = CTreeSec::allocate(&s);
    tree_update(&mut cs, &cp, &csec, &params);
    assert!(cs.is_satisfied());
}

#[test]
fn test_circuit_tx_fullfill_empty() {
    let params = PoolBN256::new();
    let mut rng = Rng(12);
    let mut state = HashTreeState::new(&params);

    let root_before = state.root(&params);
    let proof_filled = state.merkle_proof(0, &params);
    let proof_free = state.merkle_proof(0, &params);
    let prev_leaf = Num::zero();
    state.push(Num::from_u64(rng.next()), &params);
    let root_after = state.root(&params);
    let leaf = state.hashes[0].last().unwrap().clone();

    let p = TreePub { root_before, root_after, leaf };
    let s = TreeSec { proof_filled, proof_free, prev_leaf };

    let mut cs = CS::new();
    let cp = CTreePub::allocate(&p);
    let csec = CTreeSec::allocate(&s);
    tree_update(&mut cs, &cp, &csec, &params);
    assert!(cs.is_satisfied());
}

#[test]
fn append_to_the_empty_tree_is_a_chain_of_hashes() {
    let params = PoolBN256::new();
    let mut state = HashTreeState::new(&params);
    let root_before = state.root(&params);
    assert!(root_before == default_hash(OUTPLUSONELOG + TREE_UPDATE_HEIGHT, &params));
    let proof = state.merkle_proof(0, &params);
    let leaf = Num::from_u64(123456789);
    state.push(leaf, &params);

    // the leaf at index 0 with the roots of the empty trees for siblings
    let mut root = leaf;
    for k in 0..TREE_UPDATE_HEIGHT {
        assert!(proof.sibling[k] == default_hash(OUTPLUSONELOG + k, &params));
        assert!(!proof.path[k]);
        root = poseidon_pair(root, proof.sibling[k], params.compress());
    }
    assert!(root == state.root(&params));
    assert!(root == poseidon_merkle_proof_root(leaf, &proof, params.compress()));

    let p = TreePub { root_before, root_after: root, leaf };
    let s = TreeSec { proof_filled: state.merkle_proof(0, &params), proof_free: proof, prev_leaf: Num::zero() };
    assert!(tree_update_satisfied(&p, &s, &params));

    // one sibling swapped
    let mut bad = TreeSec {
        proof_filled: state.merkle_proof(0, &params),
        proof_free: HashTreeState::new(&params).merkle_proof(0, &params),
        prev_leaf: Num::zero(),
    };
    bad.proof_free.sibling[7] = Num::from_u64(1);
    assert!(!tree_update_satisfied(&p, &bad, &params));
}

#[test]
fn non_adjacent_filled_leaf_is_rejected() {
    let params = PoolBN256::new();
    let mut state = HashTreeState::new(&params);
    for k in 0..5u64 {
        state.push(Num::from_u64(100 + k), &params);
    }
    let root_before = state.root(&params);
    let proof_filled = state.merkle_proof(3, &params);
    let adjacent = state.merkle_proof(4, &params);
    let proof_free = state.merkle_proof(5, &params);
    state.push(Num::from_u64(999), &params);
    let p = TreePub { root_before, root_after: state.root(&params), leaf: Num::from_u64(999) };
    let ok = TreeSec { proof_filled: adjacent, proof_free, prev_leaf: Num::from_u64(104) };
    assert!(tree_update_satisfied(&p, &ok, &params));
    let bad = TreeSec {
        proof_filled,
        proof_free: ok.proof_free.clone(),
        prev_leaf: Num::from_u64(103),
    };
    assert!(!tree_update_satisfied(&p, &bad, &params));
    // the free slot must be free
    let taken = TreeSec {
        proof_filled: ok.proof_filled.clone(),
        proof_free: ok.proof_filled.clone(),
        prev_leaf: Num::from_u64(104),
    };
    assert!(!tree_update_satisfied(&p, &taken, &params));
}

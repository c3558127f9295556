use libzeropool::circuit::cs::CS;
use libzeropool::circuit::tx::{c_transfer, transfer_satisfied, CTransferPub, CTransferSec};
use libzeropool::constants::{HEIGHT, IN, OUT};
use libzeropool::native::account::Account;
use libzeropool::native::boundednum::BoundedNum;
use libzeropool::native::key::{derive_key_a, derive_key_eta, derive_key_p_d};
use libzeropool::native::note::Note;
use libzeropool::native::num::{Num, Scalar};
use libzeropool::native::params::PoolBN256;
use libzeropool::native::poseidon::{poseidon_pair, MerkleProof};
use libzeropool::native::tx::{
    make_delta, nullifier, out_commitment_hash, tx_hash, tx_sign, TransferPub, TransferSec, Tx,
};

const N_ITEMS: usize = 10;

struct Rng(u64);

impl Rng {
    fn next(&mut self) -> u64 {
        self.0 = self.0.wrapping_mul(6364136223846793005).wrapping_add(1442695040888963407);
        self.0 >> 11
    }
}

struct State {
    hashes: Vec<Vec<Num>>,
    items: Vec<(Account, Note)>,
    default_hashes: Vec<Num>,
    sigma: Scalar,
    account_id: usize,
    note_id: Vec<usize>,
}

fn sample_note(rng: &mut Rng, eta: Num, params: &PoolBN256) -> Note {
    let d = BoundedNum::new(Num::from_u64(rng.next()));
    Note {
        d,
        p_d: derive_key_p_d(d.to_num(), eta, params).x(),
        b: BoundedNum::new(Num::from_u64(rng.next() >> 32)),
        t: BoundedNum::new(Num::from_u64(rng.next())),
    }
}

fn sample_account(rng: &mut Rng, eta: Num, params: &PoolBN256) -> Account {
    let d = BoundedNum::new(Num::from_u64(rng.next()));
    Account {
        d,
        p_d: derive_key_p_d(d.to_num(), eta, params).x(),
        i: BoundedNum::new(Num::from_u64(rng.next() >> 40)),
        b: BoundedNum::new(Num::from_u64(rng.next() >> 32)),
        e: BoundedNum::new(Num::from_u64(rng.next() >> 8)),
    }
}

impl State {
    fn sample(seed: u64, params: &PoolBN256) -> Self {
        let mut rng = Rng(seed);
        let sigma = Scalar::from_u64(rng.next());
        let a = derive_key_a(sigma, params);
        let eta = derive_key_eta(a.x(), params);
        let other = Num::from_u64(rng.next());
        let account_id = 5;
        let note_id = vec![1, 4, 6];
        let mut items: Vec<(Account, Note)> = (0..N_ITEMS)
            .map(|_| (sample_account(&mut rng, other, params), sample_note(&mut rng, other, params)))
            .collect();
        for &i in note_id.iter() {
            items[i].1.p_d = derive_key_p_d(items[i].1.d.to_num(), eta, params).x();
        }
        items[account_id].0.p_d = derive_key_p_d(items[account_id].0.d.to_num(), eta, params).x();
        items[account_id].0.i = BoundedNum::zero();

        let mut default_hashes = vec![Num::zero(); HEIGHT + 1];
        for i in 0..HEIGHT {
            let t = default_hashes[i];
            default_hashes[i + 1] = poseidon_pair(t, t, params.compress());
        }
        let mut hashes = vec![];
        let mut t = vec![];
        for j in 0..N_ITEMS {
            t.push(items[j].0.hash(params));
            t.push(items[j].1.hash(params));
        }
        hashes.push(t);
        for i in 0..HEIGHT {
            let mut t = vec![];
            for j in 0..hashes[i].len() >> 1 {
                t.push(poseidon_pair(hashes[i][2 * j], hashes[i][2 * j + 1], params.compress()));
            }
            if t.len() & 1 == 1 {
                t.push(default_hashes[i + 1]);
            }
            hashes.push(t);
        }
        State { hashes, items, default_hashes, sigma, account_id, note_id }
    }

    fn cell(&self, i: usize, j: usize) -> Num {
        if self.hashes[i].len() <= j {
            self.default_hashes[i]
        } else {
            self.hashes[i][j]
        }
    }

    fn merkle_proof(&self, id: usize) -> MerkleProof<HEIGHT> {
        MerkleProof {
            sibling: (0..HEIGHT).map(|i| self.cell(i, (id >> i) ^ 1)).collect(),
            path: (0..HEIGHT).map(|i| (id >> i) & 1 == 1).collect(),
        }
    }

    fn root(&self) -> Num {
        self.cell(HEIGHT, 0)
    }

    /// A transfer that spends the account and the three notes into one account,
    /// with `delta_value` taken out and `out_note_value` paid to one note.
    fn transfer(
        &self,
        delta_value: i64,
        out_note_value: u64,
        params: &PoolBN256,
    ) -> (TransferPub, TransferSec) {
        let mut rng = Rng(4242);
        let root = self.root();
        let index = (N_ITEMS * 2) as u64;
        let a = derive_key_a(self.sigma, params);
        let eta = derive_key_eta(a.x(), params);
        let account = self.items[self.account_id].0;
        let null = nullifier(
            self.hashes[0][self.account_id * 2],
            eta,
            Num::from_u64((self.account_id * 2) as u64),
            params,
        );
        let value = |n: &Num| n.to_uint().l0 as u128;
        let mut input_value = value(&account.b.to_num());
        let mut input_energy = value(&account.e.to_num())
            + value(&account.b.to_num()) * (index as u128 - (self.account_id * 2) as u128);
        for &i in self.note_id.iter() {
            let b = value(&self.items[i].1.b.to_num());
            input_value += b;
            input_energy += b * (index as u128 - (2 * i + 1) as u128);
        }
        let out_value = (input_value as i128 + delta_value as i128) as u128 - out_note_value as u128;
        let mut out_account = sample_account(&mut rng, eta, params);
        out_account.b = BoundedNum::new(Num::from_u64(out_value as u64));
        out_account.e = BoundedNum::new(
            Num::from_uint(libzeropool::native::uint::U256 {
                l0: input_energy as u64,
                l1: (input_energy >> 64) as u64,
                l2: 0,
                l3: 0,
            })
            .unwrap(),
        );
        out_account.i = BoundedNum::new(Num::from_u64(index));
        let mut out_note = sample_note(&mut rng, eta, params);
        out_note.b = BoundedNum::new(Num::from_u64(out_note_value));

        let mut input_hashes = vec![account.hash(params)];
        for &i in self.note_id.iter() {
            input_hashes.push(self.items[i].1.hash(params));
        }
        let mut out_notes = vec![out_note];
        out_notes.extend(std::iter::repeat(Note::zero()).take(OUT - 1));
        let mut out_hashes = vec![out_account.hash(params)];
        out_hashes.extend(out_notes.iter().map(|n| n.hash(params)));
        let out_commit = out_commitment_hash(&out_hashes, params);
        let h = tx_hash(&input_hashes, out_commit, params);
        let (eddsa_s, eddsa_r) = tx_sign(self.sigma, h, params);
        let dv = if delta_value >= 0 {
            Num::from_u64(delta_value as u64)
        } else {
            Num::from_u64(delta_value.unsigned_abs()).neg()
        };
        let delta = make_delta(dv, Num::zero(), Num::from_u64(index), Num::zero());
        let p = TransferPub { root, nullifier: null, out_commit, delta, memo: Num::from_u64(77) };
        let s = TransferSec {
            tx: Tx {
                input: (account, self.note_id.iter().map(|&i| self.items[i].1).collect()),
                output: (out_account, out_notes),
            },
            in_proof: (
                self.merkle_proof(self.account_id * 2),
                self.note_id.iter().map(|&i| self.merkle_proof(i * 2 + 1)).collect(),
            ),
            eddsa_s: eddsa_s.to_num(),
            eddsa_r,
            eddsa_a: a.x(),
        };
        (p, s)
    }
}

/// Signs the transaction again after its outputs have been changed.
fn resign(state: &State, p: &mut TransferPub, s: &mut TransferSec, params: &PoolBN256) {
    let mut input_hashes = vec![s.tx.input.0.hash(params)];
    input_hashes.extend(s.tx.input.1.iter().map(|n| n.hash(params)));
    let mut out_hashes = vec![s.tx.output.0.hash(params)];
    out_hashes.extend(s.tx.output.1.iter().map(|n| n.hash(params)));
    p.out_commit = out_commitment_hash(&out_hashes, params);
    let h = tx_hash(&input_hashes, p.out_commit, params);
    let (eddsa_s, eddsa_r) = tx_sign(state.sigma, h, params);
    s.eddsa_s = eddsa_s.to_num();
    s.eddsa_r = eddsa_r;
}

fn zero_witness() -> (TransferPub, TransferSec) {
    let proof = || MerkleProof::<HEIGHT> { sibling: vec![Num::zero(); HEIGHT], path: vec![false; HEIGHT] };
    let p = TransferPub {
        root: Num::zero(),
        nullifier: Num::zero(),
        out_commit: Num::zero(),
        delta: Num::zero(),
        memo: Num::zero(),
    };
    let s = TransferSec {
        tx: Tx {
            input: (Account::zero(), vec![Note::zero(); IN]),
            output: (Account::zero(), vec![Note::zero(); OUT]),
        },
        in_proof: (proof(), (0..IN).map(|_| proof()).collect()),
        eddsa_s: Num::zero(),
        eddsa_r: Num::zero(),
        eddsa_a: Num::zero(),
    };
    (p, s)
}

#[test]
fn transaction_test_circuit_tx() {
    let params = PoolBN256::new();
    let (p, s) = zero_witness();
    assert!(s.is_wf());
    let mut cs = CS::new();
    let p = CTransferPub::allocate(&p);
    let s = CTransferSec::allocate(&mut cs, &s);
    c_transfer(&mut cs, &p, &s, &params);
    println!("tx satisfied = {}", cs.is_satisfied());
}

#[test]
fn test_circuit_tx_fullfill() {
    let params = PoolBN256::new();
    let state = State::sample(1, &params);
    let (p, s) = state.transfer(0, 0, &params);
    assert!(s.is_wf());
    let mut cs = CS::new();
    let p = CTransferPub::allocate(&p);
    let s = CTransferSec::allocate(&mut cs, &s);
    c_transfer(&mut cs, &p, &s, &params);
    assert!(cs.is_satisfied());
}

#[test]
fn simple_transfer_with_one_output_note() {
    let params = PoolBN256::new();
    let mut state = State::sample(2, &params);
    // one input note of 100, two that carry no value
    let ids = state.note_id.clone();
    state.items[ids[0]].1.b = BoundedNum::new(Num::from_u64(100));
    state.items[ids[1]].1.b = BoundedNum::zero();
    state.items[ids[2]].1.b = BoundedNum::zero();
    let state = rebuild(state, &params);
    let before = state.items[state.account_id].0.b.to_num();
    let (p, s) = state.transfer(0, 40, &params);
    assert!(s.tx.output.0.b.to_num() == before.add(&Num::from_u64(100)).sub(&Num::from_u64(40)));
    assert!(s.tx.output.1[0].b.to_num() == Num::from_u64(40));
    assert!(transfer_satisfied(&p, &s, &params));
}

#[test]
fn deposit_into_initial_account() {
    let params = PoolBN256::new();
    let mut state = State::sample(3, &params);
    // the input account is the one nobody has used yet in the pool 0, and it
    // is not in the tree; the input notes carry no value
    let a = derive_key_a(state.sigma, &params);
    let eta = derive_key_eta(a.x(), &params);
    let mut account = Account::zero();
    account.p_d = derive_key_p_d(account.d.to_num(), eta, &params).x();
    state.items[state.account_id].0 = account;
    state.hashes[0][state.account_id * 2] = account.hash(&params);
    for i in state.note_id.clone() {
        state.items[i].1.b = BoundedNum::zero();
        state.hashes[0][2 * i + 1] = state.items[i].1.hash(&params);
    }
    let (p, s) = state.transfer(500, 0, &params);
    assert!(s.tx.output.0.b.to_num() == Num::from_u64(500));
    assert!(transfer_satisfied(&p, &s, &params));
}

#[test]
fn withdrawal_and_wrong_delta() {
    let params = PoolBN256::new();
    let mut state = State::sample(4, &params);
    for i in state.note_id.clone() {
        state.items[i].1.b = BoundedNum::zero();
    }
    state.items[state.account_id].0.b = BoundedNum::new(Num::from_u64(1000));
    let state = rebuild(state, &params);
    let (mut p, s) = state.transfer(-600, 0, &params);
    assert!(s.tx.output.0.b.to_num() == Num::from_u64(400));
    assert!(transfer_satisfied(&p, &s, &params));
    p.delta = make_delta(
        Num::from_u64(601).neg(),
        Num::zero(),
        Num::from_u64((N_ITEMS * 2) as u64),
        Num::zero(),
    );
    assert!(!transfer_satisfied(&p, &s, &params));
}

fn rebuild(mut state: State, params: &PoolBN256) -> State {
    let mut hashes = vec![];
    let mut t = vec![];
    for j in 0..N_ITEMS {
        t.push(state.items[j].0.hash(params));
        t.push(state.items[j].1.hash(params));
    }
    hashes.push(t);
    for i in 0..HEIGHT {
        let mut t = vec![];
        for j in 0..hashes[i].len() >> 1 {
            t.push(poseidon_pair(hashes[i][2 * j], hashes[i][2 * j + 1], params.compress()));
        }
        if t.len() & 1 == 1 {
            t.push(state.default_hashes[i + 1]);
        }
        hashes.push(t);
    }
    state.hashes = hashes;
    state
}

#[test]
fn energy_is_accounted_for() {
    let params = PoolBN256::new();
    let mut state = State::sample(5, &params);
    // an account of 100 at the position 10, without energy; notes that carry no value
    assert_eq!(state.account_id * 2, 10);
    state.items[state.account_id].0.b = BoundedNum::new(Num::from_u64(100));
    state.items[state.account_id].0.i = BoundedNum::new(Num::from_u64(10));
    state.items[state.account_id].0.e = BoundedNum::zero();
    for i in state.note_id.clone() {
        state.items[i].1.b = BoundedNum::zero();
    }
    let state = rebuild(state, &params);
    let (mut p, mut s) = state.transfer(0, 0, &params);
    // the current index and the new height marker are 20: 100 (20 - 10) is accrued
    assert!(s.tx.output.0.i.to_num() == Num::from_u64(20));
    assert!(s.tx.output.0.e.to_num() == Num::from_u64(1000));
    assert!(transfer_satisfied(&p, &s, &params));
    s.tx.output.0.e = BoundedNum::new(Num::from_u64(999));
    resign(&state, &mut p, &mut s, &params);
    assert!(!transfer_satisfied(&p, &s, &params));
}

#[test]
fn tampered_witness_is_rejected() {
    let params = PoolBN256::new();
    let state = State::sample(6, &params);
    let (p, s) = state.transfer(0, 0, &params);
    assert!(transfer_satisfied(&p, &s, &params));

    // a note's balance
    let (mut p_second, mut s_second) = state.transfer(0, 0, &params);
    let b = s_second.tx.input.1[0].b.to_num();
    s_second.tx.input.1[0].b = BoundedNum::new(b.add(&Num::one()));
    assert!(!transfer_satisfied(&p_second, &s_second, &params));

    // an account's height marker
    let (p_third, mut s_third) = state.transfer(0, 0, &params);
    s_third.tx.input.0.i = BoundedNum::new(Num::from_u64(1));
    assert!(!transfer_satisfied(&p_third, &s_third, &params));

    // the signature
    let (p_fourth, mut s_fourth) = state.transfer(0, 0, &params);
    s_fourth.eddsa_s = s_fourth.eddsa_s.add(&Num::one());
    assert!(!transfer_satisfied(&p_fourth, &s_fourth, &params));

    // a Merkle sibling
    let (p_fifth, mut s_fifth) = state.transfer(0, 0, &params);
    s_fifth.in_proof.0.sibling[3] = s_fifth.in_proof.0.sibling[3].add(&Num::one());
    assert!(!transfer_satisfied(&p_fifth, &s_fifth, &params));

    // the memo whose successor is zero
    p_second = state.transfer(0, 0, &params).0;
    s_second = state.transfer(0, 0, &params).1;
    p_second.memo = Num::zero().sub(&Num::one());
    assert!(!transfer_satisfied(&p_second, &s_second, &params));
}

#[test]
fn nullifier_follows_the_account_slot() {
    let params = PoolBN256::new();
    let state = State::sample(7, &params);
    let (p_first, _) = state.transfer(0, 0, &params);
    let (p_second, _) = state.transfer(0, 40, &params);
    assert!(p_first.nullifier == p_second.nullifier);
    let a = derive_key_a(state.sigma, &params);
    let eta = derive_key_eta(a.x(), &params);
    let h = state.hashes[0][state.account_id * 2];
    let other = nullifier(h, eta, Num::from_u64(6), &params);
    assert!(other != p_first.nullifier);
    assert!(nullifier(h, eta, Num::from_u64(10), &params) == p_first.nullifier);
}

#[test]
fn field_out_of_its_width_is_rejected() {
    let params = PoolBN256::new();
    let state = State::sample(8, &params);
    let (p, mut s) = state.transfer(0, 0, &params);
    assert!(transfer_satisfied(&p, &s, &params));

    // two to the power 80 in a salt of 80 bits
    let wide = Num::from_u64(1 << 40).mul(&Num::from_u64(1 << 40));
    s.tx.output.1[1].t = BoundedNum::new_unchecked(wide);
    assert!(!transfer_satisfied(&p, &s, &params));

    // the signals carry what the witness holds
    let mut cs = CS::new();
    let cp = CTransferPub::allocate(&p);
    let csec = CTransferSec::allocate(&mut cs, &s);
    assert!(!cs.is_satisfied());
    assert!(csec.tx.output.1[1].t.as_num().get_value() == wide);
    c_transfer(&mut cs, &cp, &csec, &params);
    assert!(!cs.is_satisfied());
}

#[test]
fn another_root_is_rejected() {
    let params = PoolBN256::new();
    let state = State::sample(9, &params);
    let (mut p, s) = state.transfer(0, 0, &params);
    assert!(transfer_satisfied(&p, &s, &params));
    p.root = p.root.add(&Num::one());
    assert!(!transfer_satisfied(&p, &s, &params));
}

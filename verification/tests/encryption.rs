use libzeropool::native::account::Account;
use libzeropool::native::boundednum::BoundedNum;
use libzeropool::native::cipher;
use libzeropool::native::key::derive_key_p_d;
use libzeropool::native::note::Note;
use libzeropool::native::num::Num;
use libzeropool::native::delegated_deposit::DelegatedDeposit;
use libzeropool::native::params::PoolBN256;
use libzeropool::native::poseidon::PoseidonParams;
use sha3::{Digest, Keccak256};

struct Rng(u64);

impl Rng {
    fn next(&mut self) -> u64 {
        self.0 = self.0.wrapping_mul(6364136223846793005).wrapping_add(1442695040888963407);
        self.0 >> 11
    }
}

fn sample_note(rng: &mut Rng, eta: Num, params: &PoolBN256) -> Note {
    let d = BoundedNum::new(Num::from_u64(rng.next()));
    Note {
        d,
        p_d: derive_key_p_d(d.to_num(), eta, params).x(),
        b: BoundedNum::new(Num::from_u64(rng.next() >> 32)),
        t: BoundedNum::new(Num::from_u64(rng.next())),
    }
}

fn sample_account(rng: &mut Rng, eta: Num, params: &PoolBN256) -> Account {
    let d = BoundedNum::new(Num::from_u64(rng.next()));
    Account {
        d,
        p_d: derive_key_p_d(d.to_num(), eta, params).x(),
        i: BoundedNum::new(Num::from_u64(rng.next() >> 40)),
        b: BoundedNum::new(Num::from_u64(rng.next() >> 32)),
        e: BoundedNum::new(Num::from_u64(rng.next() >> 8)),
    }
}

#[test]
fn test_encryption() {
    let params = PoolBN256::new();
    let mut rng = Rng(2024);
    let sender_eta = Num::from_u64(rng.next()).mul(&Num::from_u64(rng.next()));
    let receiver_eta = Num::from_u64(rng.next()).mul(&Num::from_u64(rng.next()));
    let other_eta = Num::from_u64(rng.next());

    let mut account = sample_account(&mut rng, other_eta, &params);
    let mut note: Vec<Note> = (0..2).map(|_| sample_note(&mut rng, other_eta, &params)).collect();

    account.p_d = derive_key_p_d(account.d.as_num().clone(), sender_eta, &params).x();
    note[0].p_d = derive_key_p_d(note[0].d.as_num().clone(), receiver_eta, &params).x();

    let entropy: Vec<u8> = (0..32).map(|_| rng.next() as u8).collect();
    let ciphertext = cipher::encrypt(&entropy, sender_eta, account, &note, &params);

    let result_out = cipher::decrypt_out(sender_eta, &ciphertext, &params);

    assert!(result_out.is_some(), "Could not decrypt outgoing data.");
    let (account_out, note_out) = result_out.unwrap();
    assert!(
        note.len() == note_out.len()
            && note.iter().zip(note_out.iter()).all(|(l, r)| l == r)
            && account == account_out,
        "Wrong outgoing data decrypted"
    );

    let result_out = cipher::decrypt_in(receiver_eta, &ciphertext, &params);

    assert!(
        result_out.len() == 2
            && result_out[0].is_some()
            && result_out[0].unwrap() == note[0]
            && result_out[1].is_none(),
        "Wrong incoming data decrypted"
    );
}

#[test]
fn memo_has_the_documented_layout() {
    let params = PoolBN256::new();
    let mut rng = Rng(7);
    let eta = Num::from_u64(rng.next());
    let account = sample_account(&mut rng, eta, &params);
    let note: Vec<Note> = (0..3).map(|_| sample_note(&mut rng, eta, &params)).collect();
    let memo = cipher::encrypt(&[1, 2, 3], eta, account, &note, &params);
    // 4 + 32 + 32 n + 32 + (32 (n + 1) + 16) + (70 + 16) + n (32 + 60 + 16)
    assert_eq!(memo.len(), 202 + 172 * 3);
    assert_eq!(&memo[0..4], &[4u8, 0, 0, 0]);
    assert_eq!(&memo[4..36], account.hash(&params).try_to_vec().as_slice());
    assert_eq!(&memo[36..68], note[0].hash(&params).try_to_vec().as_slice());
    // the same entropy gives the same memo, another one another memo
    assert_eq!(memo, cipher::encrypt(&[1, 2, 3], eta, account, &note, &params));
    assert_ne!(memo, cipher::encrypt(&[1, 2, 4], eta, account, &note, &params));
}

#[test]
fn malformed_memo_is_not_for_me() {
    let params = PoolBN256::new();
    let mut rng = Rng(8);
    let eta = Num::from_u64(rng.next());
    let account = sample_account(&mut rng, eta, &params);
    let note: Vec<Note> = (0..2).map(|_| sample_note(&mut rng, eta, &params)).collect();
    let memo = cipher::encrypt(&[9], eta, account, &note, &params);

    assert!(cipher::decrypt_out(eta, &[], &params).is_none());
    assert!(cipher::decrypt_in(eta, &[], &params).is_empty());
    assert!(cipher::decrypt_out(eta, &[0, 0, 0, 0], &params).is_none());
    assert!(cipher::decrypt_out(eta, &memo[0..memo.len() - 1], &params).is_none());

    // a flipped bit in the sealed account breaks its tag
    let mut broken = memo.clone();
    broken[116 + 64 * 2 + 5] ^= 1;
    assert!(cipher::decrypt_out(eta, &broken, &params).is_none());

    // a flipped bit in an announced commitment discards the note
    let mut broken = memo.clone();
    broken[36] ^= 1;
    let notes = cipher::decrypt_in(eta, &broken, &params);
    assert!(notes.len() == 2 && notes[0].is_none() && notes[1] == Some(note[1]));

    // the wrong key reads nothing
    let notes = cipher::decrypt_in(Num::from_u64(5), &memo, &params);
    assert!(notes.len() == 2 && notes[0].is_none() && notes[1].is_none());
    assert!(cipher::decrypt_out(Num::from_u64(5), &memo, &params).is_none());
}

#[test]
fn note_that_cannot_be_sealed_is_refused() {
    let params = PoolBN256::new();
    let mut rng = Rng(9);
    let eta = Num::from_u64(rng.next());
    let account = sample_account(&mut rng, eta, &params);
    let mut note = sample_note(&mut rng, eta, &params);
    assert!(cipher::try_encrypt(&[1], eta, account, &[note], &params).is_some());
    // look for a number that is no first coordinate of a point of the subgroup
    let mut x = 2u64;
    loop {
        note.p_d = Num::from_u64(x);
        if !cipher::can_encrypt(&[note], &params) {
            break;
        }
        x += 1;
    }
    assert!(cipher::try_encrypt(&[1], eta, account, &[note], &params).is_none());
}

#[test]
fn account_and_note_round_trip_on_the_wire() {
    let params = PoolBN256::new();
    let mut rng = Rng(10);
    let eta = Num::from_u64(rng.next());
    let account = sample_account(&mut rng, eta, &params);
    let note = sample_note(&mut rng, eta, &params);
    let a = account.try_to_vec();
    let n = note.try_to_vec();
    assert_eq!(a.len(), 70);
    assert_eq!(n.len(), 60);
    assert!(Account::try_from_slice(&a) == Some(account));
    assert!(Note::try_from_slice(&n) == Some(note));
    assert!(Account::try_from_slice(&a[0..69]).is_none());
    assert!(Note::try_from_slice(&a).is_none());
    // a point that stands for the modulus or more is not read
    let mut bad = n.clone();
    for b in bad[10..42].iter_mut() {
        *b = 0xff;
    }
    assert!(Note::try_from_slice(&bad).is_none());
    // the diversifier goes first, lowest byte first
    let one = Note { d: BoundedNum::new(Num::from_u64(0x0102)), ..Note::zero() };
    let bytes = one.try_to_vec();
    assert_eq!(&bytes[0..3], &[0x02, 0x01, 0x00]);
}

#[test]
fn nonce_is_the_start_of_a_digest() {
    let mut hasher = Keccak256::new();
    hasher.update(b"ZeroPool");
    let digest = hasher.finalize();
    assert_eq!(&digest[0..12], cipher::encryption_nonce_bytes().as_slice());
    assert_eq!(
        cipher::encryption_nonce_bytes(),
        vec![0x5b, 0xbd, 0xff, 0xc6, 0xfe, 0x73, 0xc4, 0x60, 0xf1, 0xb2, 0xb8, 0x5d]
    );
}

#[test]
fn delegated_deposit_round_trips_on_the_wire() {
    let deposit = DelegatedDeposit {
        d: BoundedNum::new(Num::from_u64(0x0102)),
        p_d: Num::from_u64(0x0304),
        b: BoundedNum::new(Num::from_u64(0x0506)),
    };
    let mut bytes = vec![];
    deposit.serialize(&mut bytes);
    assert_eq!(bytes.len(), 50);
    assert_eq!(&bytes[0..2], &[0x02, 0x01]);
    assert_eq!(&bytes[10..12], &[0x04, 0x03]);
    assert_eq!(&bytes[42..44], &[0x06, 0x05]);
    bytes.push(0xaa);
    let mut buf = bytes.as_slice();
    assert!(DelegatedDeposit::deserialize(&mut buf) == Some(deposit));
    assert_eq!(buf, &[0xaa]);
    let mut short = &bytes[0..49];
    assert!(DelegatedDeposit::deserialize(&mut short).is_none());
    assert_eq!(short.len(), 49);
}

#[test]
fn parameters_are_held_to_their_shapes() {
    let params = PoolBN256::new();
    assert_eq!(params.hash().width(), 2);
    assert_eq!(params.compress().width(), 3);
    assert_eq!(params.note().width(), 5);
    assert_eq!(params.account().width(), 6);
    assert_eq!(params.eddsa().width(), 4);
    assert_eq!(params.sponge().width(), 6);
    assert_eq!(params.nullifier_intermediate().width(), 4);
    assert_eq!(params.note().full_rounds(), 8);
    assert_eq!(params.note().partial_rounds(), 54);
    assert_eq!(params.note().round_constants().len(), 62);
    assert_eq!(params.note().mixing_matrix().len(), 5);

    let copy = |p: &PoseidonParams| {
        PoseidonParams::from_parts(
            p.round_constants().clone(),
            p.mixing_matrix().clone(),
            p.width(),
            p.full_rounds(),
            p.partial_rounds(),
        )
    };
    let same = PoolBN256::from_parts(
        copy(params.hash()).unwrap(),
        copy(params.compress()).unwrap(),
        copy(params.note()).unwrap(),
        copy(params.account()).unwrap(),
        copy(params.eddsa()).unwrap(),
        copy(params.sponge()).unwrap(),
        copy(params.nullifier_intermediate()).unwrap(),
    )
    .unwrap();
    let note = Note { b: BoundedNum::new(Num::from_u64(9)), ..Note::zero() };
    assert!(same.note().width() == 5 && note.hash(&same) == note.hash(&params));

    // a table that is too small for its shape, and a set too narrow for its use
    let p = params.note();
    assert!(PoseidonParams::from_parts(
        p.round_constants()[0..61].to_vec(),
        p.mixing_matrix().clone(),
        5,
        8,
        54
    )
    .is_none());
    assert!(PoseidonParams::from_parts(
        p.round_constants().clone(),
        p.mixing_matrix()[0..4].to_vec(),
        5,
        8,
        54
    )
    .is_none());
    assert!(PoolBN256::from_parts(
        copy(params.hash()).unwrap(),
        copy(params.compress()).unwrap(),
        copy(params.eddsa()).unwrap(),
        copy(params.account()).unwrap(),
        copy(params.eddsa()).unwrap(),
        copy(params.sponge()).unwrap(),
        copy(params.nullifier_intermediate()).unwrap(),
    )
    .is_none());
}

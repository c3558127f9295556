use libzeropool::circuit::cs::CS;
use libzeropool::circuit::delegated_deposit::{
    check_delegated_deposit_batch, delegated_deposit_batch_satisfied, num_to_iter_bits_be,
    CDelegatedDeposit, CDelegatedDepositBatchPub, CDelegatedDepositBatchSec,
};
use libzeropool::circuit::num::CNum;
use libzeropool::constants::DELEGATED_DEPOSITS_NUM;
use libzeropool::helpers::sample_data::{
    sample_delegated_deposit, serialize_scalars_and_delegated_deposits_be,
};
use libzeropool::native::boundednum::BoundedNum;
use libzeropool::native::delegated_deposit::{
    DelegatedDeposit, DelegatedDepositBatchPub, DelegatedDepositBatchSec,
};
use libzeropool::native::num::Num;
use libzeropool::native::params::PoolBN256;
use sha3::{Digest, Keccak256};

struct Rng(u64);

impl Rng {
    fn next(&mut self) -> u64 {
        self.0 = self.0.wrapping_mul(6364136223846793005).wrapping_add(1442695040888963407);
        self.0 >> 11
    }
}

fn sample_deposit(rng: &mut Rng) -> DelegatedDeposit {
    DelegatedDeposit {
        d: BoundedNum::new(Num::from_u64(rng.next())),
        p_d: Num::from_u64(rng.next()).mul(&Num::from_u64(rng.next())).mul(&Num::from_u64(rng.next())),
        b: BoundedNum::new(Num::from_u64(rng.next() >> 32)),
    }
}

#[test]
fn test_check_delegated_deposit_batch() {
    let params = PoolBN256::new();
    let p = DelegatedDepositBatchPub { keccak_sum: Num::zero() };
    let s = DelegatedDepositBatchSec {
        out_commitment_hash: Num::zero(),
        deposits: vec![
            DelegatedDeposit { d: BoundedNum::zero(), p_d: Num::zero(), b: BoundedNum::zero() };
            DELEGATED_DEPOSITS_NUM
        ],
    };
    let mut cs = CS::new();
    let cp = CDelegatedDepositBatchPub::allocate(&p);
    let csec = CDelegatedDepositBatchSec::allocate(&mut cs, &s);
    check_delegated_deposit_batch(&mut cs, &cp, &csec, &params);
    println!("batch satisfied = {}", cs.is_satisfied());
}

#[test]
fn test_bitify_delegated_deposits_be() {
    const N_ITEMS: usize = 10;
    let mut rng = Rng(13);

    let deposits: Vec<DelegatedDeposit> = (0..N_ITEMS).map(|_| sample_deposit(&mut rng)).collect();
    let roots: Vec<Num> = (0..1).map(|_| Num::from_u64(rng.next()).mul(&Num::from_u64(rng.next()))).collect();

    let data = serialize_scalars_and_delegated_deposits_be(roots.as_slice(), deposits.as_slice());

    let bitlen = data.len() * 8;

    let bits = (0..bitlen)
        .map(|i| {
            let byte = data[i / 8];
            let bit = byte & (1 << (i % 8));
            bit != 0
        })
        .collect::<Vec<_>>();

    let mut cs = CS::new();

    let c_deposits: Vec<CDelegatedDeposit> =
        deposits.iter().map(|d| CDelegatedDeposit::allocate(&mut cs, d)).collect();
    let c_roots: Vec<CNum> = roots.iter().map(|r| CNum::allocate(*r)).collect();

    let mut c_bits = vec![];
    for r in c_roots.iter() {
        c_bits.extend(num_to_iter_bits_be(&mut cs, r));
    }
    for d in c_deposits.iter() {
        c_bits.extend(d.to_iter_bits_be(&mut cs));
    }

    assert_eq!(bits.len(), c_bits.len());

    for (i, (b, c_b)) in bits.iter().zip(c_bits.iter()).enumerate() {
        assert_eq!(*b, c_b.get_value(), "bit {} is not equal", i);
    }
    assert!(cs.is_satisfied());
}

#[test]
fn native_batch_satisfies_the_circuit() {
    let params = PoolBN256::new();
    let mut rng = Rng(14);
    let deposits: Vec<DelegatedDeposit> =
        (0..DELEGATED_DEPOSITS_NUM).map(|_| sample_deposit(&mut rng)).collect();
    let (p, s) = sample_delegated_deposit(deposits, &params);
    assert!(delegated_deposit_batch_satisfied(&p, &s, &params));

    let wrong_sum = DelegatedDepositBatchPub { keccak_sum: p.keccak_sum.add(&Num::one()) };
    assert!(!delegated_deposit_batch_satisfied(&wrong_sum, &s, &params));

    let mut wrong_value = s.clone();
    wrong_value.deposits[3].b = BoundedNum::new(Num::from_u64(1));
    assert!(!delegated_deposit_batch_satisfied(&p, &wrong_value, &params));

    let mut wrong_commitment = s.clone();
    wrong_commitment.out_commitment_hash = Num::from_u64(5);
    assert!(!delegated_deposit_batch_satisfied(&p, &wrong_commitment, &params));
}

#[test]
fn batch_bytes_are_big_endian() {
    let scalar = Num::from_u64(0x0102);
    let deposit = DelegatedDeposit {
        d: BoundedNum::new(Num::from_u64(0x0a0b)),
        p_d: Num::from_u64(0x0c),
        b: BoundedNum::new(Num::from_u64(0x0d0e0f)),
    };
    let data = serialize_scalars_and_delegated_deposits_be(&[scalar], &[deposit]);
    assert_eq!(data.len(), 32 + 10 + 32 + 8);
    assert_eq!(&data[30..32], &[0x01, 0x02]);
    assert_eq!(&data[32..42], &[0, 0, 0, 0, 0, 0, 0, 0, 0x0a, 0x0b]);
    assert_eq!(data[73], 0x0c);
    assert_eq!(&data[74..82], &[0, 0, 0, 0, 0, 0x0d, 0x0e, 0x0f]);
}

#[test]
fn keccak_sum_is_the_reduced_digest_of_the_batch_bytes() {
    let params = PoolBN256::new();
    let mut rng = Rng(15);
    let deposits: Vec<DelegatedDeposit> = (0..3).map(|_| sample_deposit(&mut rng)).collect();
    let (p, s) = sample_delegated_deposit(deposits.clone(), &params);
    let data = serialize_scalars_and_delegated_deposits_be(&[s.out_commitment_hash], &deposits);
    let mut hasher = Keccak256::new();
    hasher.update(&data);
    let digest = hasher.finalize();
    let mut expected = Num::zero();
    for b in digest.iter() {
        expected = expected.mul(&Num::from_u64(256)).add(&Num::from_u64(*b as u64));
    }
    assert!(p.keccak_sum == expected);
}

use libzeropool::circuit::account::CAccount;
use libzeropool::circuit::cs::CS;
use libzeropool::circuit::delegated_deposit::{
    delegated_deposit_batch_satisfied, CDelegatedDeposit,
};
use libzeropool::circuit::note::CNote;
use libzeropool::circuit::num::CNum;
use libzeropool::helpers::sample_data::sample_delegated_deposit;
use libzeropool::native::account::Account;
use libzeropool::native::boundednum::BoundedNum;
use libzeropool::native::delegated_deposit::DelegatedDeposit;
use libzeropool::native::note::Note;
use libzeropool::native::num::Num;
use libzeropool::native::params::PoolBN256;
use libzeropool::native::uint::U256;

#[test]
fn zero_note_has_every_field_zero() {
    let mut cs = CS::new();
    let zero = CNote::allocate(&mut cs, &Note::zero());
    assert!(zero.is_zero().get_value());

    // fields that add up to zero in the field, and are not zero
    let minus_one = Num::zero().sub(&Num::one());
    let note = Note {
        d: BoundedNum::new(Num::one()),
        p_d: minus_one,
        b: BoundedNum::zero(),
        t: BoundedNum::zero(),
    };
    assert!(note.d.to_num().add(&note.p_d).add(&note.b.to_num()).add(&note.t.to_num()) == Num::zero());
    let c = CNote::allocate(&mut cs, &note);
    assert!(!c.is_zero().get_value());
    assert!(c.is_dummy_raw().get_value() == Num::zero());

    let salted = Note { d: BoundedNum::zero(), p_d: Num::zero(), b: BoundedNum::zero(), t: BoundedNum::new(Num::one()) };
    assert!(!CNote::allocate(&mut cs, &salted).is_zero().get_value());
    assert!(cs.is_satisfied());
}

#[test]
fn initial_account_has_every_counter_zero() {
    let mut cs = CS::new();
    let pool = CNum::allocate(Num::from_u64(7));
    let mut account = Account::zero();
    account.d = BoundedNum::new(Num::from_u64(7));
    account.p_d = Num::from_u64(99);
    assert!(CAccount::allocate(&mut cs, &account).is_initial(&pool).get_value());
    assert!(!CAccount::allocate(&mut cs, &account).is_initial(&CNum::allocate(Num::from_u64(8))).get_value());
    account.e = BoundedNum::new(Num::one());
    assert!(!CAccount::allocate(&mut cs, &account).is_initial(&pool).get_value());
    assert!(cs.is_satisfied());

    // counters that add up to zero in the field do not fit in their widths
    let minus_one = Num::zero().sub(&Num::one());
    account.e = BoundedNum::new_unchecked(minus_one);
    let c = CAccount::allocate(&mut cs, &account);
    assert!(!cs.is_satisfied());
    assert!(c.e.as_num().get_value() == minus_one);
    assert!(!c.is_initial(&pool).get_value());
}

#[test]
fn deposit_out_of_its_width_is_kept_and_rejected() {
    let params = PoolBN256::new();
    let wide = Num::from_uint(U256 { l0: 0, l1: 1, l2: 0, l3: 0 }).unwrap();
    let deposit = DelegatedDeposit {
        d: BoundedNum::new(Num::from_u64(5)),
        p_d: Num::from_u64(6),
        b: BoundedNum::new_unchecked(wide),
    };
    let mut cs = CS::new();
    let c = CDelegatedDeposit::allocate(&mut cs, &deposit);
    assert!(!cs.is_satisfied());
    assert!(c.b.as_num().get_value() == wide);
    assert!(c.d.as_num().get_value() == Num::from_u64(5));

    let fits = DelegatedDeposit {
        d: BoundedNum::new(Num::from_u64(5)),
        p_d: Num::from_u64(6),
        b: BoundedNum::new(Num::from_u64(u64::MAX)),
    };
    let (p, s) = sample_delegated_deposit(vec![fits], &params);
    assert!(delegated_deposit_batch_satisfied(&p, &s, &params));
    let (p, s) = sample_delegated_deposit(vec![deposit], &params);
    assert!(!delegated_deposit_batch_satisfied(&p, &s, &params));
}

use libzeropool::circuit::boundednum::CBoundedNum;
use libzeropool::circuit::cs::CS;
use libzeropool::circuit::num::CNum;
use libzeropool::native::boundednum::BoundedNum;
use libzeropool::native::num::Num;
use libzeropool::native::uint::U256;

#[test]
fn new_accepts_what_fits() {
    let edge = Num::from_uint(U256 { l0: 0, l1: 1, l2: 0, l3: 0 }).unwrap();
    let below = Num::from_u64(u64::MAX);
    assert!(BoundedNum::<64>::try_new(below).is_some());
    assert!(BoundedNum::<64>::try_new(below).unwrap().to_num() == below);
    assert!(BoundedNum::<64>::try_new(edge).is_none());
    assert!(BoundedNum::<65>::try_new(edge).is_some());
    assert!(BoundedNum::<1>::try_new(Num::one()).is_some());
    assert!(BoundedNum::<1>::try_new(Num::from_u64(2)).is_none());
    assert!(BoundedNum::<80>::new(Num::from_u64(7)).to_num() == Num::from_u64(7));
    assert!(*BoundedNum::<80>::new_unchecked(Num::from_u64(7)).as_num() == Num::from_u64(7));
}

#[test]
fn new_trimmed_keeps_the_low_bits() {
    let n = Num::from_uint(U256 { l0: 0x1234_5678_9abc_def0, l1: 0xffff, l2: 3, l3: 0 }).unwrap();
    assert!(BoundedNum::<64>::new_trimmed(n).to_num() == Num::from_u64(0x1234_5678_9abc_def0));
    assert!(BoundedNum::<8>::new_trimmed(n).to_num() == Num::from_u64(0xf0));
    assert!(BoundedNum::<4>::new_trimmed(n).to_num() == Num::from_u64(0));
    let wide = BoundedNum::<72>::new_trimmed(n).to_num();
    assert!(wide == Num::from_uint(U256 { l0: 0x1234_5678_9abc_def0, l1: 0xff, l2: 0, l3: 0 }).unwrap());
    // minus one is the modulus less one: its low 64 bits are those of the modulus, less one
    let minus_one = Num::zero().sub(&Num::one());
    assert!(BoundedNum::<64>::new_trimmed(minus_one).to_num() == Num::from_u64(0x43e1f593f0000000));
}

#[test]
fn signal_is_constrained_to_its_width() {
    let mut cs = CS::new();
    let fits = CBoundedNum::<8>::new(&mut cs, &CNum::allocate(Num::from_u64(255)));
    assert!(cs.is_satisfied());
    assert!(fits.as_num().get_value() == Num::from_u64(255));
    // what does not fit is carried as it is, and the system is not satisfied
    let wide = CBoundedNum::<8>::new(&mut cs, &CNum::allocate(Num::from_u64(256)));
    assert!(!cs.is_satisfied());
    assert!(wide.as_num().get_value() == Num::from_u64(256));
    assert!(wide.as_num().as_const().is_none());
    let minus_one = Num::zero().sub(&Num::one());
    let wide = CBoundedNum::<64>::new(&mut cs, &CNum::allocate(minus_one));
    assert!(wide.as_num().get_value() == minus_one);

    // a witness is cut to its low bits, a constant is held to have no other
    let mut cs = CS::new();
    let t = CBoundedNum::<8>::new_trimmed(&mut cs, CNum::allocate(Num::from_u64(0x1ff)));
    assert!(cs.is_satisfied());
    assert!(t.as_num().get_value() == Num::from_u64(0xff));
    let t = CBoundedNum::<8>::new_trimmed(&mut cs, CNum::from_const(Num::from_u64(0x7f)));
    assert!(cs.is_satisfied());
    assert!(t.as_num().get_value() == Num::from_u64(0x7f));
    let _ = CBoundedNum::<8>::new_trimmed(&mut cs, CNum::from_const(Num::from_u64(0x1ff)));
    assert!(!cs.is_satisfied());
}

use libzeropool::circuit::boundednum::CBoundedNum;
use libzeropool::circuit::cs::CS;
use libzeropool::circuit::interval::{
    c_element_in_interval_set, c_interval_set_from_num, c_interval_set_in, c_interval_set_to_num,
    CInterval,
};
use libzeropool::circuit::num::CNum;
use libzeropool::native::boundednum::BoundedNum;
use libzeropool::native::interval::{
    element_in_interval_set, interval_set_from_num, interval_set_in, interval_set_to_num, Interval,
};
use libzeropool::native::num::Num;

fn iv(a: u64, b: u64) -> Interval<16> {
    (BoundedNum::new(Num::from_u64(a)), BoundedNum::new(Num::from_u64(b)))
}

fn civ(cs: &mut CS, a: u64, b: u64) -> CInterval<16> {
    (
        CBoundedNum::new(cs, &CNum::allocate(Num::from_u64(a))),
        CBoundedNum::new(cs, &CNum::allocate(Num::from_u64(b))),
    )
}

#[test]
fn element_and_interval_sets() {
    let set = [iv(0, 10), iv(20, 30)];
    let x = |v: u64| BoundedNum::<16>::new(Num::from_u64(v));
    assert!(element_in_interval_set(&x(0), &set));
    assert!(element_in_interval_set(&x(9), &set));
    assert!(!element_in_interval_set(&x(10), &set));
    assert!(element_in_interval_set(&x(20), &set));
    assert!(!element_in_interval_set(&x(30), &set));
    assert!(!element_in_interval_set(&x(5), &[]));

    // an interval that holds nothing stands to every interval that holds something
    assert!(interval_set_in(&[iv(5, 5)], &[iv(1, 2)]));
    assert!(!interval_set_in(&[iv(5, 5)], &[iv(2, 2)]));
    // the first starts no later and ends no earlier than the second
    assert!(interval_set_in(&[iv(0, 10)], &[iv(2, 8)]));
    assert!(!interval_set_in(&[iv(3, 10)], &[iv(2, 8)]));
    assert!(interval_set_in::<16>(&[], &[]));
    assert!(!interval_set_in(&[iv(0, 10)], &[]));
    assert!(interval_set_in(&[iv(0, 10), iv(20, 30)], &[iv(21, 22), iv(1, 2)]));
}

#[test]
fn interval_set_packs_and_unpacks() {
    let set = vec![iv(0, 0x1111), iv(0x2222, 0x3333)];
    let n: BoundedNum<48> = interval_set_to_num::<16, 2, 48>(set.clone());
    assert!(n.to_num() == Num::from_u64(0x3333_2222_1111));
    let back = interval_set_from_num::<16, 2, 48>(n);
    assert!(back == set);
}

#[test]
fn circuit_interval_sets_agree_with_native_ones() {
    let mut cs = CS::new();
    let set = [civ(&mut cs, 0, 10), civ(&mut cs, 20, 30)];
    let x = CBoundedNum::<16>::new(&mut cs, &CNum::allocate(Num::from_u64(25)));
    let y = CBoundedNum::<16>::new(&mut cs, &CNum::allocate(Num::from_u64(15)));
    assert!(c_element_in_interval_set(&mut cs, &x, &set).get_value());
    assert!(!c_element_in_interval_set(&mut cs, &y, &set).get_value());
    let inner = [civ(&mut cs, 2, 8)];
    let outer = [civ(&mut cs, 0, 10)];
    assert!(c_interval_set_in(&mut cs, &outer, &inner).get_value());
    assert!(!c_interval_set_in(&mut cs, &inner, &outer).get_value());

    let n = CBoundedNum::<48>::new(&mut cs, &CNum::allocate(Num::from_u64(0x3333_2222_1111)));
    let unpacked = c_interval_set_from_num::<16, 2, 48>(&mut cs, &n);
    assert!(unpacked[0].0.as_num().get_value() == Num::zero());
    assert!(unpacked[0].1.as_num().get_value() == Num::from_u64(0x1111));
    assert!(unpacked[1].0.as_num().get_value() == Num::from_u64(0x2222));
    assert!(unpacked[1].1.as_num().get_value() == Num::from_u64(0x3333));
    let zero = CBoundedNum::<16>::new(&mut cs, &CNum::from_const(Num::zero()));
    let packed = c_interval_set_to_num::<16, 2, 48>(vec![
        (zero, unpacked[0].1),
        (unpacked[1].0, unpacked[1].1),
    ]);
    assert!(packed.as_num().get_value() == Num::from_u64(0x3333_2222_1111));
    assert!(cs.is_satisfied());
}

#[test]
fn unpacked_interval_set_packs_again() {
    let mut cs = CS::new();
    let n = CBoundedNum::<48>::new(&mut cs, &CNum::allocate(Num::from_u64(0x0102_0304_0506)));
    let unpacked = c_interval_set_from_num::<16, 2, 48>(&mut cs, &n);
    assert!(unpacked[0].0.as_num().as_const() == Some(Num::zero()));
    let packed = c_interval_set_to_num::<16, 2, 48>(unpacked);
    assert!(packed.as_num().get_value() == Num::from_u64(0x0102_0304_0506));
    assert!(cs.is_satisfied());

    // a number with a bit above the three fields does not unpack
    let n = CBoundedNum::<64>::new(&mut cs, &CNum::allocate(Num::from_u64(1 << 48)));
    assert!(cs.is_satisfied());
    let _ = c_interval_set_from_num::<16, 2, 64>(&mut cs, &n);
    assert!(!cs.is_satisfied());
}

#[test]
fn bounds_out_of_their_width_pack_in_the_field() {
    let mut cs = CS::new();
    let zero = CBoundedNum::<16>::new(&mut cs, &CNum::from_const(Num::zero()));
    let low = CBoundedNum::<16>::new(&mut cs, &CNum::allocate(Num::from_u64(3)));
    let wide = CBoundedNum::<16>::new(&mut cs, &CNum::allocate(Num::from_u64(0x1_0000)));
    assert!(!cs.is_satisfied());
    let packed = c_interval_set_to_num::<16, 2, 48>(vec![(zero, low), (wide, low)]);
    // 3 + 0x10000 * 2^16 + 3 * 2^32
    assert!(packed.as_num().get_value() == Num::from_u64(3 + (0x1_0000 << 16) + (3 << 32)));
}

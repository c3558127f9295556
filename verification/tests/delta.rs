use libzeropool::native::num::Num;
use libzeropool::native::tx::{make_delta, parse_delta, try_make_delta};

#[test]
fn delta_round_trip_positive() {
    let v = Num::from_u64(500);
    let e = Num::from_u64(7);
    let index = Num::from_u64(2000);
    let poolid = Num::from_u64(3);
    let delta = make_delta(v, e, index, poolid);
    let (v2, e2, i2, pid2) = parse_delta(delta);
    assert!(v2 == v);
    assert!(e2 == e);
    assert!(i2 == index);
    assert!(pid2 == poolid);
}

#[test]
fn delta_round_trip_negative() {
    let v = Num::from_u64(600).neg();
    let e = Num::from_u64(1).neg();
    let index = Num::from_u64(0);
    let poolid = Num::from_u64(0);
    let delta = make_delta(v, e, index, poolid);
    let (v2, e2, i2, pid2) = parse_delta(delta);
    assert!(v2 == v);
    assert!(e2 == e);
    assert!(i2 == index);
    assert!(pid2 == poolid);
}

#[test]
fn delta_out_of_range_is_refused() {
    let big = Num::from_u64(1u64 << 63);
    assert!(try_make_delta(big, Num::zero(), Num::zero(), Num::zero()).is_none());
    let neg_edge = Num::from_u64(1u64 << 63).neg();
    assert!(try_make_delta(neg_edge, Num::zero(), Num::zero(), Num::zero()).is_some());
    assert!(try_make_delta(Num::zero(), Num::zero(), Num::from_u64(1u64 << 48), Num::zero()).is_none());
    assert!(try_make_delta(Num::zero(), Num::zero(), Num::zero(), Num::from_u64(1u64 << 24)).is_none());
}

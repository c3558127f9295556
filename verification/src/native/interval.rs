use crate::native::boundednum::{lemma_width_below_modulus, BoundedNum};
use crate::native::num::{Num, MODULUS_BITS};
use crate::native::uint::{base4, lemma_bases, U256};
use vstd::arithmetic::div_mod::{lemma_div_denominator, lemma_mod_bound, lemma_small_mod};
use vstd::arithmetic::power2::{
    lemma2_to64, lemma_pow2_adds, lemma_pow2_pos, lemma_pow2_strictly_increases, pow2,
};
use vstd::prelude::*;

verus! {

/// An interval of numbers of `L` bits, from its first bound up to, but not
/// at, its second.
pub type Interval<const L: usize> = (BoundedNum<L>, BoundedNum<L>);

/// The bounds of an interval, as numbers.
pub open spec fn interval_view<const L: usize>(a: Interval<L>) -> (nat, nat) {
    (a.0@, a.1@)
}

/// The bounds of a sequence of intervals.
pub open spec fn intervals_view<const L: usize>(s: Seq<Interval<L>>) -> Seq<(nat, nat)> {
    s.map_values(|a: Interval<L>| interval_view(a))
}

/// An interval whose first bound is not below its second holds nothing.
pub open spec fn spec_interval_is_zero(a: (nat, nat)) -> bool {
    a.0 >= a.1
}

/// What `interval_in` tells of two intervals: the second holds something,
/// and the first holds nothing or starts no later and ends no earlier than
/// the second.
pub open spec fn spec_interval_in(a: (nat, nat), b: (nat, nat)) -> bool {
    !spec_interval_is_zero(b) && (spec_interval_is_zero(a) || (b.0 >= a.0 && a.1 >= b.1))
}

/// Whether `x` lies in the interval.
pub open spec fn spec_element_in_interval(x: nat, it: (nat, nat)) -> bool {
    x >= it.0 && x < it.1
}

/// Whether `a` stands in `interval_in` to some interval of `b`.
pub open spec fn spec_interval_in_some(a: (nat, nat), b: Seq<(nat, nat)>) -> bool {
    exists|j: int| 0 <= j < b.len() && #[trigger] spec_interval_in(a, b[j])
}

/// What `interval_set_in` tells of two sets: every interval of the first
/// stands in `interval_in` to some interval of the second.
pub open spec fn spec_interval_set_in(a: Seq<(nat, nat)>, b: Seq<(nat, nat)>) -> bool {
    forall|i: int| 0 <= i < a.len() ==> #[trigger] spec_interval_in_some(a[i], b)
}

/// Whether `x` lies in one of the intervals.
pub open spec fn spec_element_in_interval_set(x: nat, it: Seq<(nat, nat)>) -> bool {
    exists|i: int| 0 <= i < it.len() && #[trigger] spec_element_in_interval(x, it[i])
}

/// The field `k` of `l` bits of a packed number.
pub open spec fn packed_field(n: nat, l: nat, k: nat) -> nat {
    (n / pow2(l * k)) % pow2(l)
}

/// The number that packs the first `n` intervals of a set: the second bound
/// of the first interval, then both bounds of each further interval, `l`
/// bits each, lowest first.
pub open spec fn intervals_packed(it: Seq<(nat, nat)>, l: nat, n: nat) -> nat
    decreases n,
{
    if n == 0 {
        0
    } else if n == 1 {
        it[0].1
    } else {
        let i = (n - 1) as nat;
        intervals_packed(it, l, i) + it[i as int].0 * pow2(l * ((2 * i - 1) as nat)) + it[i as int].1
            * pow2(l * (2 * i))
    }
}

fn interval_is_zero<const L: usize>(a: &Interval<L>) -> (r: bool)
    ensures
        r == spec_interval_is_zero(interval_view(*a)),
{
    a.0.as_num().to_uint().ge(&a.1.as_num().to_uint())
}

// a \subset b
fn interval_in<const L: usize>(a: &Interval<L>, b: &Interval<L>) -> (r: bool)
    ensures
        r == spec_interval_in(interval_view(*a), interval_view(*b)),
{
    !interval_is_zero(b) && (interval_is_zero(a) || (b.0.as_num().to_uint().ge(
        &a.0.as_num().to_uint(),
    ) && a.1.as_num().to_uint().ge(&b.1.as_num().to_uint())))
}

// x \in it
fn element_in_interval<const L: usize>(x: &BoundedNum<L>, it: &Interval<L>) -> (r: bool)
    ensures
        r == spec_element_in_interval(x@, interval_view(*it)),
{
    x.as_num().to_uint().ge(&it.0.as_num().to_uint()) && x.as_num().to_uint().lt(
        &it.1.as_num().to_uint(),
    )
}

/// Whether every interval of `a` stands in `interval_in` to some interval of
/// `b`.
pub fn interval_set_in<const L: usize>(a: &[Interval<L>], b: &[Interval<L>]) -> (r: bool)
    ensures
        r == spec_interval_set_in(intervals_view(a@), intervals_view(b@)),
{
    let ghost av = intervals_view(a@);
    let ghost bv = intervals_view(b@);
    let mut res = true;
    let mut i: usize = 0;
    while i < a.len()
        invariant
            i <= a@.len(),
            av == intervals_view(a@),
            bv == intervals_view(b@),
            res == (forall|k: int| 0 <= k < i ==> #[trigger] spec_interval_in_some(av[k], bv)),
        decreases a@.len() - i,
    {
        let alpha = &a[i];
        let mut t = false;
        let mut j: usize = 0;
        while j < b.len()
            invariant
                j <= b@.len(),
                bv == intervals_view(b@),
                av == intervals_view(a@),
                i < a@.len(),
                *alpha == a@[i as int],
                t == (exists|k: int| 0 <= k < j && #[trigger] spec_interval_in(av[i as int], bv[k])),
            decreases b@.len() - j,
        {
            let found = interval_in(alpha, &b[j]);
            proof {
                assert(bv[j as int] == interval_view(b@[j as int]));
                assert(av[i as int] == interval_view(*alpha));
            }
            t = t || found;
            j += 1;
        }
        proof {
            assert(t == spec_interval_in_some(av[i as int], bv));
        }
        res = res && t;
        i += 1;
    }
    res
}

/// Whether `x` lies in one of the intervals.
pub fn element_in_interval_set<const L: usize>(x: &BoundedNum<L>, it: &[Interval<L>]) -> (r: bool)
    ensures
        r == spec_element_in_interval_set(x@, intervals_view(it@)),
{
    let ghost iv = intervals_view(it@);
    let mut res = false;
    let mut i: usize = 0;
    while i < it.len()
        invariant
            i <= it@.len(),
            iv == intervals_view(it@),
            res == (exists|k: int| 0 <= k < i && #[trigger] spec_element_in_interval(x@, iv[k])),
        decreases it@.len() - i,
    {
        let found = element_in_interval(x, &it[i]);
        proof {
            assert(iv[i as int] == interval_view(it@[i as int]));
        }
        res = res || found;
        i += 1;
    }
    res
}

/// Splits off the `l` lowest bits of `n` as a bounded number.
fn take_field<const L: usize>(n: &mut U256, Ghost(all): Ghost<nat>, Ghost(k): Ghost<nat>) -> (r:
    BoundedNum<L>)
    requires
        0 < L < MODULUS_BITS,
        old(n)@ == all / pow2(L as nat * k),
    ensures
        r@ == packed_field(all, L as nat, k),
        r.in_range(),
        final(n)@ == all / pow2(L as nat * (k + 1)),
{
    let x = n.low_bits(L as u32);
    proof {
        lemma_pow2_pos(L as nat);
        lemma_pow2_pos(L as nat * k);
        lemma_mod_bound(n@ as int, pow2(L as nat) as int);
        lemma_width_below_modulus(L as nat);
        assert(L as nat * (k + 1) == L as nat * k + L as nat) by (nonlinear_arith);
        lemma_pow2_adds(L as nat * k, L as nat);
        lemma_div_denominator(all as int, pow2(L as nat * k) as int, pow2(L as nat) as int);
    }
    *n = n.shr(L as u32);
    BoundedNum::new_unchecked(Num::from_uint_unchecked(x))
}

/// Unpacks a set of `N` intervals of `L` bits from a number: the first
/// interval starts at zero and ends at the lowest field; each further
/// interval takes the next two fields.
pub fn interval_set_from_num<const L: usize, const N: usize, const O: usize>(
    n: BoundedNum<O>,
) -> (r: Vec<Interval<L>>)
    requires
        0 < L,
        0 < N < 0x1000_0000,
        O == L * (N + 1),
        L * N < MODULUS_BITS,
    ensures
        r@.len() == N,
        r@[0].0@ == 0,
        r@[0].1@ == packed_field(n@, L as nat, 0),
        forall|i: int|
            1 <= i < N ==> (#[trigger] r@[i]).0@ == packed_field(
                n@,
                L as nat,
                (2 * i - 1) as nat,
            ) && r@[i].1@ == packed_field(n@, L as nat, (2 * i) as nat),
        forall|i: int| 0 <= i < N ==> (#[trigger] r@[i]).0.in_range() && r@[i].1.in_range(),
{
    let mut n_repr = n.as_num().to_uint();
    proof {
        lemma2_to64();
        assert(L as nat * 0 == 0);
        assert(n@ / 1 == n@);
        assert(L <= L * N) by (nonlinear_arith)
            requires
                N >= 1,
                L >= 0,
        ;
    }
    let x = BoundedNum::<L>::zero();
    let y = take_field::<L>(&mut n_repr, Ghost(n@), Ghost(0));
    let mut res: Vec<Interval<L>> = Vec::new();
    res.push((x, y));
    let mut i: usize = 1;
    while i < N
        invariant
            1 <= i <= N,
            0 < L < MODULUS_BITS,
            N < 0x1000_0000,
            res@.len() == i,
            n_repr@ == n@ / pow2(L as nat * ((2 * i - 1) as nat)),
            res@[0].0@ == 0,
            res@[0].1@ == packed_field(n@, L as nat, 0),
            forall|k: int|
                1 <= k < i ==> (#[trigger] res@[k]).0@ == packed_field(
                    n@,
                    L as nat,
                    (2 * k - 1) as nat,
                ) && res@[k].1@ == packed_field(n@, L as nat, (2 * k) as nat),
            forall|k: int| 0 <= k < i ==> (#[trigger] res@[k]).0.in_range() && res@[k].1.in_range(),
        decreases N - i,
    {
        let x = take_field::<L>(&mut n_repr, Ghost(n@), Ghost((2 * i - 1) as nat));
        let y = take_field::<L>(&mut n_repr, Ghost(n@), Ghost((2 * i) as nat));
        res.push((x, y));
        i += 1;
    }
    res
}

/// Packs a set of `N` intervals of `L` bits, the first of which starts at
/// zero, into a number.
pub fn interval_set_to_num<const L: usize, const N: usize, const O: usize>(
    it: Vec<Interval<L>>,
) -> (r: BoundedNum<O>)
    requires
        0 < L,
        0 < N < 0x1000_0000,
        L * (2 * N - 1) < MODULUS_BITS,
        O == L * (N + 1),
        it@.len() == N,
        it@[0].0@ == 0,
        forall|i: int| 0 <= i < N ==> (#[trigger] it@[i]).0.in_range() && it@[i].1.in_range(),
    ensures
        r@ == intervals_packed(intervals_view(it@), L as nat, N as nat),
        r@ < pow2((L * (2 * N - 1)) as nat),
{
    let ghost iv = intervals_view(it@);
    let ghost l = L as nat;
    let mut n_repr = it[0].1.as_num().to_uint();
    let mut i: usize = 1;
    proof {
        assert(iv[0] == interval_view(it@[0]));
        assert(l * 1 == l) by (nonlinear_arith);
    }
    while i < N
        invariant
            1 <= i <= N,
            l == L as nat,
            0 < L,
            N < 0x1000_0000,
            L * (2 * N - 1) < MODULUS_BITS,
            it@.len() == N,
            iv == intervals_view(it@),
            forall|k: int| 0 <= k < N ==> (#[trigger] it@[k]).0.in_range() && it@[k].1.in_range(),
            n_repr@ == intervals_packed(iv, l, i as nat),
            n_repr@ < pow2(l * ((2 * i - 1) as nat)),
        decreases N - i,
    {
        let ghost w1 = l * ((2 * i - 1) as nat);
        let ghost w2 = l * ((2 * i) as nat);
        let ghost w3 = l * ((2 * i + 1) as nat);
        proof {
            assert(w2 == w1 + l && w3 == w2 + l) by (nonlinear_arith)
                requires
                    w1 == l * ((2 * i - 1) as nat),
                    w2 == l * ((2 * i) as nat),
                    w3 == l * ((2 * i + 1) as nat),
                    i >= 1,
            ;
            assert(w3 <= L * (2 * N - 1)) by (nonlinear_arith)
                requires
                    w3 == l * ((2 * i + 1) as nat),
                    l == L as nat,
                    i < N,
            ;
            assert(w1 < 256 && w2 < 256 && w3 < 256);
            lemma_pow2_adds(w1, l);
            lemma_pow2_adds(w2, l);
            lemma_pow2_pos(w1);
            lemma_pow2_pos(w2);
            lemma_bases();
            lemma_pow2_strictly_increases(w3, 256);
            assert(it@[i as int].0.in_range() && it@[i as int].1.in_range());
            assert(iv[i as int] == interval_view(it@[i as int]));
            let x = it@[i as int].0@;
            let y = it@[i as int].1@;
            assert(x * pow2(w1) <= (pow2(l) - 1) * pow2(w1)) by (nonlinear_arith)
                requires
                    x <= pow2(l) - 1,
                    pow2(w1) > 0,
            ;
            assert(y * pow2(w2) <= (pow2(l) - 1) * pow2(w2)) by (nonlinear_arith)
                requires
                    y <= pow2(l) - 1,
                    pow2(w2) > 0,
            ;
            assert((pow2(l) - 1) * pow2(w1) == pow2(w2) - pow2(w1)) by (nonlinear_arith)
                requires
                    pow2(w2) == pow2(w1) * pow2(l),
            ;
            assert((pow2(l) - 1) * pow2(w2) == pow2(w3) - pow2(w2)) by (nonlinear_arith)
                requires
                    pow2(w3) == pow2(w2) * pow2(l),
            ;
            lemma_small_mod(x * pow2(w1), base4());
            lemma_small_mod(y * pow2(w2), base4());
        }
        let x = it[i].0.as_num().to_uint().shl((L * (2 * i - 1)) as u32);
        let y = it[i].1.as_num().to_uint().shl((L * (2 * i)) as u32);
        n_repr = n_repr.add(&x).add(&y);
        i += 1;
    }
    proof {
        let w = l * ((2 * N - 1) as nat);
        assert(w == L * (2 * N - 1)) by (nonlinear_arith)
            requires
                w == l * ((2 * N - 1) as nat),
                l == L as nat,
                N >= 1,
        ;
        lemma_width_below_modulus(w);
    }
    BoundedNum::new_unchecked(Num::from_uint_unchecked(n_repr))
}

} // verus!

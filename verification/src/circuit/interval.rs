use crate::circuit::bitify::{c_comp, c_from_bits_le, c_into_bits_le, lemma_modulus_bits};
use crate::circuit::bool::{bools_view, CBool};
use crate::circuit::boundednum::CBoundedNum;
use crate::circuit::cs::CS;
use crate::circuit::num::CNum;
use crate::native::boundednum::lemma_width_below_modulus;
use crate::native::interval::{
    intervals_packed, packed_field, spec_element_in_interval, spec_element_in_interval_set,
    spec_interval_in, spec_interval_in_some, spec_interval_is_zero, spec_interval_set_in,
};
use crate::native::num::{
    field_of_int, lemma_field_add_int, lemma_field_mul_int, lemma_field_of_small, modulus, Num,
    MODULUS_BITS,
};
use crate::native::uint::{
    bit_of, bits_of, bits_value, lemma_bits_of_subrange, lemma_bits_of_value,
    lemma_bits_value_bound, U256,
};
use vstd::arithmetic::div_mod::{lemma_fundamental_div_mod_converse, lemma_small_mod};
use vstd::arithmetic::power2::{
    lemma2_to64, lemma_pow2_adds, lemma_pow2_pos, lemma_pow2_strictly_increases, pow2,
};
use vstd::prelude::*;
use vstd::slice::slice_subrange;

verus! {

/// The signals of an interval of numbers of `L` bits.
pub type CInterval<const L: usize> = (CBoundedNum<L>, CBoundedNum<L>);

/// The bounds that the signals of an interval carry.
pub open spec fn cinterval_view<const L: usize>(a: CInterval<L>) -> (nat, nat) {
    (a.0@, a.1@)
}

/// The bounds that the signals of a sequence of intervals carry.
pub open spec fn cintervals_view<const L: usize>(s: Seq<CInterval<L>>) -> Seq<(nat, nat)> {
    s.map_values(|a: CInterval<L>| cinterval_view(a))
}

/// Whether each bound of each interval fits in `l` bits.
pub open spec fn intervals_fit(s: Seq<(nat, nat)>, l: nat) -> bool {
    forall|i: int| 0 <= i < s.len() ==> (#[trigger] s[i]).0 < pow2(l) && s[i].1 < pow2(l)
}

// a < b
fn lt<const L: usize>(cs: &mut CS, a: &CBoundedNum<L>, b: &CBoundedNum<L>) -> (r: CBool)
    requires
        0 < L < MODULUS_BITS - 1,
        old(cs).satisfied() ==> a.in_range() && b.in_range(),
    ensures
        final(cs).satisfied() == old(cs).satisfied(),
        a.in_range() && b.in_range() ==> r@ == (a@ < b@),
{
    c_comp(cs, b.as_num(), a.as_num(), L)
}

// a >= b
fn gte<const L: usize>(cs: &mut CS, a: &CBoundedNum<L>, b: &CBoundedNum<L>) -> (r: CBool)
    requires
        0 < L < MODULUS_BITS - 1,
        old(cs).satisfied() ==> a.in_range() && b.in_range(),
    ensures
        final(cs).satisfied() == old(cs).satisfied(),
        a.in_range() && b.in_range() ==> r@ == (a@ >= b@),
{
    let av = a.as_num();
    let bv = b.as_num();
    proof {
        lemma_modulus_bits();
        lemma_pow2_pos(L as nat);
        lemma_pow2_adds(L as nat, 1);
        lemma2_to64();
        if L + 1 < 253 {
            lemma_pow2_strictly_increases((L + 1) as nat, 253);
        }
        lemma_width_below_modulus(L as nat);
    }
    let acc_init = Num::from_uint_unchecked(U256::pow2(L as u32));
    let s = CNum::from_const(acc_init).sub(bv).add(av);
    proof {
        if a.in_range() && b.in_range() {
            let h = pow2(L as nat);
            lemma_small_mod((h - bv@) as nat, modulus());
            lemma_small_mod((h - bv@ + av@) as nat, modulus());
            assert(s@ == h - bv@ + av@);
            if av@ >= bv@ {
                lemma_fundamental_div_mod_converse(s@ as int, h as int, 1, (av@ - bv@) as int);
            } else {
                lemma_fundamental_div_mod_converse(s@ as int, h as int, 0, s@ as int);
            }
        }
    }
    let bits = c_into_bits_le(cs, &s, L + 1);
    proof {
        assert(bools_view(bits@)[L as int] == bit_of(s@, L as nat));
    }
    bits[L]
}

fn c_interval_is_zero<const L: usize>(cs: &mut CS, a: &CInterval<L>) -> (r: CBool)
    requires
        0 < L < MODULUS_BITS - 1,
        old(cs).satisfied() ==> a.0.in_range() && a.1.in_range(),
    ensures
        final(cs).satisfied() == old(cs).satisfied(),
        a.0.in_range() && a.1.in_range() ==> r@ == spec_interval_is_zero(cinterval_view(*a)),
{
    gte(cs, &a.0, &a.1)
}

// a \subset b
fn c_interval_in<const L: usize>(cs: &mut CS, a: &CInterval<L>, b: &CInterval<L>) -> (r: CBool)
    requires
        0 < L < MODULUS_BITS - 1,
        old(cs).satisfied() ==> a.0.in_range() && a.1.in_range() && b.0.in_range()
            && b.1.in_range(),
    ensures
        final(cs).satisfied() == old(cs).satisfied(),
        a.0.in_range() && a.1.in_range() && b.0.in_range() && b.1.in_range() ==> r@
            == spec_interval_in(cinterval_view(*a), cinterval_view(*b)),
{
    let b_zero = c_interval_is_zero(cs, b);
    let a_zero = c_interval_is_zero(cs, a);
    let starts = gte(cs, &b.0, &a.0);
    let ends = gte(cs, &a.1, &b.1);
    b_zero.not().and(&a_zero.or(&starts.and(&ends)))
}

// x \in it
fn c_element_in_interval<const L: usize>(cs: &mut CS, x: &CBoundedNum<L>, it: &CInterval<L>) -> (r:
    CBool)
    requires
        0 < L < MODULUS_BITS - 1,
        old(cs).satisfied() ==> x.in_range() && it.0.in_range() && it.1.in_range(),
    ensures
        final(cs).satisfied() == old(cs).satisfied(),
        x.in_range() && it.0.in_range() && it.1.in_range() ==> r@ == spec_element_in_interval(
            x@,
            cinterval_view(*it),
        ),
{
    let above = gte(cs, x, &it.0);
    let below = lt(cs, x, &it.1);
    above.and(&below)
}

/// A bit that tells whether every interval of `a` stands in `interval_in` to
/// some interval of `b`, for bounds that fit in their width; they have to,
/// wherever the system is satisfied so far.
pub fn c_interval_set_in<const L: usize>(cs: &mut CS, a: &[CInterval<L>], b: &[CInterval<L>]) -> (r:
    CBool)
    requires
        0 < L < MODULUS_BITS - 1,
        old(cs).satisfied() ==> intervals_fit(cintervals_view(a@), L as nat) && intervals_fit(
            cintervals_view(b@),
            L as nat,
        ),
    ensures
        final(cs).satisfied() == old(cs).satisfied(),
        intervals_fit(cintervals_view(a@), L as nat) && intervals_fit(cintervals_view(b@), L as nat)
            ==> r@ == spec_interval_set_in(cintervals_view(a@), cintervals_view(b@)),
{
    let ghost av = cintervals_view(a@);
    let ghost bv = cintervals_view(b@);
    let ghost fits = intervals_fit(av, L as nat) && intervals_fit(bv, L as nat);
    let mut res = CBool::from_const(true);
    let mut i: usize = 0;
    while i < a.len()
        invariant
            i <= a@.len(),
            0 < L < MODULUS_BITS - 1,
            av == cintervals_view(a@),
            bv == cintervals_view(b@),
            fits == (intervals_fit(av, L as nat) && intervals_fit(bv, L as nat)),
            cs.satisfied() == old(cs).satisfied(),
            cs.satisfied() ==> fits,
            fits ==> res@ == (forall|k: int|
                0 <= k < i ==> #[trigger] spec_interval_in_some(av[k], bv)),
        decreases a@.len() - i,
    {
        let alpha = &a[i];
        let mut t = CBool::from_const(false);
        let mut j: usize = 0;
        while j < b.len()
            invariant
                j <= b@.len(),
                0 < L < MODULUS_BITS - 1,
                bv == cintervals_view(b@),
                av == cintervals_view(a@),
                fits == (intervals_fit(av, L as nat) && intervals_fit(bv, L as nat)),
                i < a@.len(),
                *alpha == a@[i as int],
                cs.satisfied() == old(cs).satisfied(),
                cs.satisfied() ==> fits,
                fits ==> t@ == (exists|k: int|
                    0 <= k < j && #[trigger] spec_interval_in(av[i as int], bv[k])),
            decreases b@.len() - j,
        {
            proof {
                assert(bv[j as int] == cinterval_view(b@[j as int]));
                assert(av[i as int] == cinterval_view(*alpha));
            }
            let found = c_interval_in(cs, alpha, &b[j]);
            t = t.or(&found);
            j += 1;
        }
        proof {
            if fits {
                assert(t@ == spec_interval_in_some(av[i as int], bv));
            }
        }
        res = res.and(&t);
        i += 1;
    }
    res
}

/// A bit that tells whether `x` lies in one of the intervals, for `x` and
/// bounds that fit in their width; they have to, wherever the system is
/// satisfied so far.
pub fn c_element_in_interval_set<const L: usize>(
    cs: &mut CS,
    x: &CBoundedNum<L>,
    it: &[CInterval<L>],
) -> (r: CBool)
    requires
        0 < L < MODULUS_BITS - 1,
        old(cs).satisfied() ==> x.in_range() && intervals_fit(cintervals_view(it@), L as nat),
    ensures
        final(cs).satisfied() == old(cs).satisfied(),
        x.in_range() && intervals_fit(cintervals_view(it@), L as nat) ==> r@
            == spec_element_in_interval_set(x@, cintervals_view(it@)),
{
    let ghost iv = cintervals_view(it@);
    let ghost fits = x.in_range() && intervals_fit(iv, L as nat);
    let mut res = CBool::from_const(false);
    let mut i: usize = 0;
    while i < it.len()
        invariant
            i <= it@.len(),
            0 < L < MODULUS_BITS - 1,
            iv == cintervals_view(it@),
            fits == (x.in_range() && intervals_fit(iv, L as nat)),
            cs.satisfied() == old(cs).satisfied(),
            cs.satisfied() ==> fits,
            fits ==> res@ == (exists|k: int|
                0 <= k < i && #[trigger] spec_element_in_interval(x@, iv[k])),
        decreases it@.len() - i,
    {
        proof {
            assert(iv[i as int] == cinterval_view(it@[i as int]));
        }
        let found = c_element_in_interval(cs, x, &it[i]);
        res = res.or(&found);
        i += 1;
    }
    res
}

/// The bounded signal that the field `k` of `L` bits of a run of bits stands
/// for.
fn c_field<const L: usize>(bits: &[CBool], k: usize, Ghost(n): Ghost<nat>) -> (r: CBoundedNum<L>)
    requires
        0 < L < MODULUS_BITS,
        L * (k + 1) <= bits@.len(),
        bools_view(bits@) == bits_of(n, bits@.len() as nat),
    ensures
        r@ == packed_field(n, L as nat, k as nat),
        r.in_range(),
{
    let total = bits.len();
    proof {
        assert(L * (k + 1) == L * k + L) by (nonlinear_arith);
        assert(L * k >= 0) by (nonlinear_arith)
            requires
                L >= 0,
                k >= 0,
        ;
        assert(L as nat * k as nat == L * k) by (nonlinear_arith);
    }
    let part = slice_subrange(bits, L * k, L * k + L);
    proof {
        let sub = bools_view(bits@).subrange((L * k) as int, (L * k + L) as int);
        assert(bools_view(part@) =~= sub);
        lemma_bits_of_subrange(n, bits@.len() as nat, (L * k) as nat, L as nat);
        lemma_bits_of_value(n / pow2((L * k) as nat), L as nat);
        lemma_bits_value_bound(sub);
        lemma_width_below_modulus(L as nat);
        lemma_small_mod(bits_value(sub), modulus());
        lemma_pow2_pos(L as nat);
        vstd::arithmetic::div_mod::lemma_mod_bound(
            (n / pow2((L * k) as nat)) as int,
            pow2(L as nat) as int,
        );
    }
    CBoundedNum::new_unchecked(&c_from_bits_le(part))
}

/// Unpacks a set of `N` intervals of `L` bits from a signal, which is
/// constrained to have no bit above them: the first interval starts at the
/// constant zero and ends at the lowest field; each further interval takes
/// the next two fields. Each bound fits in `L` bits.
pub fn c_interval_set_from_num<const L: usize, const N: usize, const O: usize>(
    cs: &mut CS,
    n: &CBoundedNum<O>,
) -> (r: Vec<CInterval<L>>)
    requires
        0 < L,
        0 < N < 0x1000_0000,
        L * (2 * N - 1) <= MODULUS_BITS,
    ensures
        final(cs).satisfied() == (old(cs).satisfied() && n@ < pow2((L * (2 * N - 1)) as nat)),
        r@.len() == N,
        r@[0].0.is_const(),
        r@[0].0@ == 0,
        r@[0].1@ == packed_field(n@, L as nat, 0),
        forall|i: int|
            1 <= i < N ==> (#[trigger] r@[i]).0@ == packed_field(
                n@,
                L as nat,
                (2 * i - 1) as nat,
            ) && r@[i].1@ == packed_field(n@, L as nat, (2 * i) as nat),
        forall|i: int| 0 <= i < N ==> (#[trigger] r@[i]).0.in_range() && r@[i].1.in_range(),
        intervals_fit(cintervals_view(r@), L as nat),
{
    proof {
        assert(L * (2 * N - 1) >= L) by (nonlinear_arith)
            requires
                N >= 1,
                L >= 0,
        ;
        assert(L < MODULUS_BITS || L == MODULUS_BITS);
        lemma_pow2_pos(L as nat);
    }
    let bits = c_into_bits_le(cs, n.as_num(), L * (2 * N - 1));
    if L == MODULUS_BITS {
        // one interval as wide as the field: the first bound is zero, the second is cut
        let x = CBoundedNum::<L>::new_unchecked(&CNum::from_const(Num::zero()));
        proof {
            assert(N == 1) by (nonlinear_arith)
                requires
                    L * (2 * N - 1) <= L,
                    L > 0,
                    N >= 1,
            ;
            lemma2_to64();
            assert(L as nat * 0 == 0);
            lemma_modulus_bits();
            use_type_invariant(n);
            lemma_small_mod(n@, pow2(254));
        }
        let y = CBoundedNum::<L>::new_unchecked(n.as_num());
        let mut res: Vec<CInterval<L>> = Vec::new();
        res.push((x, y));
        proof {
            assert(cintervals_view(res@)[0] == cinterval_view(res@[0]));
        }
        return res;
    }
    let x = CBoundedNum::<L>::new_unchecked(&CNum::from_const(Num::zero()));
    proof {
        assert(L * (0 + 1) <= bits@.len()) by (nonlinear_arith)
            requires
                bits@.len() == L * (2 * N - 1),
                N >= 1,
                L >= 0,
        ;
    }
    let y = c_field::<L>(bits.as_slice(), 0, Ghost(n@));
    let mut res: Vec<CInterval<L>> = Vec::new();
    res.push((x, y));
    let mut i: usize = 1;
    while i < N
        invariant
            1 <= i <= N,
            0 < L < MODULUS_BITS,
            N < 0x1000_0000,
            L * (2 * N - 1) <= MODULUS_BITS,
            bits@.len() == L * (2 * N - 1),
            bools_view(bits@) == bits_of(n@, bits@.len() as nat),
            res@.len() == i,
            res@[0].0.is_const(),
            res@[0].0@ == 0,
            res@[0].1@ == packed_field(n@, L as nat, 0),
            forall|k: int| 0 <= k < i ==> (#[trigger] res@[k]).0.in_range() && res@[k].1.in_range(),
            forall|k: int|
                1 <= k < i ==> (#[trigger] res@[k]).0@ == packed_field(
                    n@,
                    L as nat,
                    (2 * k - 1) as nat,
                ) && res@[k].1@ == packed_field(n@, L as nat, (2 * k) as nat),
        decreases N - i,
    {
        proof {
            assert(L * (2 * i + 1) <= L * (2 * N - 1) && L * (2 * i - 1 + 1) <= L * (2 * N - 1))
                by (nonlinear_arith)
                requires
                    i < N,
                    i >= 1,
                    L >= 0,
            ;
        }
        let x = c_field::<L>(bits.as_slice(), 2 * i - 1, Ghost(n@));
        let y = c_field::<L>(bits.as_slice(), 2 * i, Ghost(n@));
        res.push((x, y));
        i += 1;
    }
    proof {
        assert forall|k: int| 0 <= k < N implies (#[trigger] cintervals_view(res@)[k]).0 < pow2(
            L as nat,
        ) && cintervals_view(res@)[k].1 < pow2(L as nat) by {
            assert(res@[k].0.in_range() && res@[k].1.in_range());
        }
    }
    res
}

/// Packs the signals of a set of `N` intervals of `L` bits, the first of
/// which starts at the constant zero, into one signal: the sum in the field
/// of the bounds, each shifted to its place. Where each bound fits in `L`
/// bits, that is the packed number itself.
pub fn c_interval_set_to_num<const L: usize, const N: usize, const O: usize>(
    it: Vec<CInterval<L>>,
) -> (r: CBoundedNum<O>)
    requires
        0 < L,
        0 < N < 0x1000_0000,
        L * (2 * N - 1) < MODULUS_BITS,
        it@.len() == N,
        it@[0].0.is_const(),
        it@[0].0@ == 0,
    ensures
        r@ == field_of_int(intervals_packed(cintervals_view(it@), L as nat, N as nat) as int),
        intervals_fit(cintervals_view(it@), L as nat) ==> r@ == intervals_packed(
            cintervals_view(it@),
            L as nat,
            N as nat,
        ) && r@ < pow2((L * (2 * N - 1)) as nat),
        intervals_fit(cintervals_view(it@), L as nat) && L * (2 * N - 1) <= O ==> r.in_range(),
{
    let ghost iv = cintervals_view(it@);
    let ghost l = L as nat;
    let ghost fits = intervals_fit(iv, l);
    let mut res = *it[0].1.as_num();
    let mut i: usize = 1;
    proof {
        assert(iv[0] == cinterval_view(it@[0]));
        assert(l * 1 == l) by (nonlinear_arith);
        use_type_invariant(&res);
        lemma_field_of_small(res@);
    }
    while i < N
        invariant
            1 <= i <= N,
            l == L as nat,
            0 < L,
            N < 0x1000_0000,
            L * (2 * N - 1) < MODULUS_BITS,
            it@.len() == N,
            iv == cintervals_view(it@),
            fits == intervals_fit(iv, l),
            res@ == field_of_int(intervals_packed(iv, l, i as nat) as int),
            fits ==> intervals_packed(iv, l, i as nat) < pow2(l * ((2 * i - 1) as nat)),
        decreases N - i,
    {
        let ghost w1 = l * ((2 * i - 1) as nat);
        let ghost w2 = l * ((2 * i) as nat);
        let ghost w3 = l * ((2 * i + 1) as nat);
        let ghost acc = intervals_packed(iv, l, i as nat);
        let x = it[i].0.as_num();
        let y = it[i].1.as_num();
        proof {
            assert(w2 == w1 + l && w3 == w2 + l) by (nonlinear_arith)
                requires
                    w1 == l * ((2 * i - 1) as nat),
                    w2 == l * ((2 * i) as nat),
                    w3 == l * ((2 * i + 1) as nat),
                    i >= 1,
            ;
            assert(w3 <= L * (2 * N - 1)) by (nonlinear_arith)
                requires
                    w3 == l * ((2 * i + 1) as nat),
                    l == L as nat,
                    i < N,
            ;
            lemma_pow2_adds(w1, l);
            lemma_pow2_adds(w2, l);
            lemma_pow2_pos(w1);
            lemma_pow2_pos(w2);
            lemma_width_below_modulus(w1);
            lemma_width_below_modulus(w2);
            lemma_width_below_modulus(w3);
            assert(iv[i as int] == cinterval_view(it@[i as int]));
            use_type_invariant(x);
            use_type_invariant(y);
            lemma_field_of_small(x@);
            lemma_field_of_small(y@);
            lemma_field_of_small(pow2(w1));
            lemma_field_of_small(pow2(w2));
            lemma_field_mul_int(x@ as int, pow2(w1) as int);
            lemma_field_mul_int(y@ as int, pow2(w2) as int);
            lemma_field_add_int(acc as int, (x@ * pow2(w1)) as int);
            lemma_field_add_int((acc + x@ * pow2(w1)) as int, (y@ * pow2(w2)) as int);
            if fits {
                assert(x@ * pow2(w1) <= (pow2(l) - 1) * pow2(w1)) by (nonlinear_arith)
                    requires
                        x@ <= pow2(l) - 1,
                        pow2(w1) > 0,
                ;
                assert(y@ * pow2(w2) <= (pow2(l) - 1) * pow2(w2)) by (nonlinear_arith)
                    requires
                        y@ <= pow2(l) - 1,
                        pow2(w2) > 0,
                ;
                assert((pow2(l) - 1) * pow2(w1) == pow2(w2) - pow2(w1)) by (nonlinear_arith)
                    requires
                        pow2(w2) == pow2(w1) * pow2(l),
                ;
                assert((pow2(l) - 1) * pow2(w2) == pow2(w3) - pow2(w2)) by (nonlinear_arith)
                    requires
                        pow2(w3) == pow2(w2) * pow2(l),
                ;
            }
        }
        let kx = Num::from_uint_unchecked(U256::pow2((L * (2 * i - 1)) as u32));
        let ky = Num::from_uint_unchecked(U256::pow2((L * (2 * i)) as u32));
        res = res.add(&x.mul_const(&kx)).add(&y.mul_const(&ky));
        i += 1;
    }
    proof {
        let w = l * ((2 * N - 1) as nat);
        assert(w == L * (2 * N - 1)) by (nonlinear_arith)
            requires
                w == l * ((2 * N - 1) as nat),
                l == L as nat,
                N >= 1,
        ;
        if fits {
            lemma_width_below_modulus(w);
            lemma_field_of_small(intervals_packed(iv, l, N as nat));
            if w < O {
                lemma_pow2_strictly_increases(w, O as nat);
            }
        }
    }
    CBoundedNum::new_unchecked(&res)
}

} // verus!

use crate::circuit::bitify::{c_into_bits_le, c_into_bits_le_strict, lemma_modulus_bits};
use crate::circuit::bool::{bools_view, CBool};
use crate::circuit::boundednum::CBoundedNum;
use crate::circuit::cs::CS;
use crate::circuit::note::CNote;
use crate::circuit::num::{cnums_view, CNum};
use crate::circuit::tx::c_out_commitment_hash;
use crate::constants::{BALANCE_SIZE_BITS, DIVERSIFIER_SIZE_BITS, OUT};
use crate::native::account::Account;
use crate::native::bytes::{be_bytes, be_value, le_bytes};
use crate::native::delegated_deposit::{
    batch_bytes, batch_keccak_sum, batch_out_commitment, batch_out_hashes, deposits_view,
    DelegatedDeposit, DelegatedDepositBatchPub, DelegatedDepositBatchSec, DepositV,
};
use crate::native::keccak::{keccak256, keccak256_digest, num_from_bytes_be_reduced};
use crate::native::note::{Note, NoteV};
use crate::native::num::{modulus, Num, MODULUS_BITS};
use crate::native::params::PoolBN256;
use crate::native::uint::{bit_of, bits_of, bits_value, lemma_bits_of_subrange, lemma_bits_of_value};
use vstd::arithmetic::div_mod::lemma_basic_div;
use vstd::arithmetic::power2::{lemma2_to64, lemma_pow2_pos, lemma_pow2_strictly_increases, pow2};
use vstd::prelude::*;

verus! {

/// The bits of the `nbytes` lowest bytes of `n`, highest byte first, and in
/// each byte lowest bit first.
pub open spec fn bits_be(n: nat, nbytes: nat) -> Seq<bool> {
    Seq::new(8 * nbytes, |k: int| bit_of(n, (8 * (nbytes - 1 - k / 8) + k % 8) as nat))
}

/// The bytes that a sequence of bits stands for, eight bits to a byte,
/// lowest bit first.
pub open spec fn bytes_of_bits(bits: Seq<bool>) -> Seq<u8> {
    Seq::new(bits.len() / 8, |j: int| bits_value(bits.subrange(8 * j, 8 * j + 8)) as u8)
}

/// The bits of a deposit, as a batch is digested from them.
pub open spec fn deposit_bits(d: DepositV) -> Seq<bool> {
    bits_be(d.d, 10) + bits_be(d.p_d, 32) + bits_be(d.b, 8)
}

/// The bits of a number, byte by byte, stand for its bytes.
pub proof fn lemma_bytes_of_bits_be(n: nat, nbytes: nat)
    ensures
        bytes_of_bits(bits_be(n, nbytes)) == be_bytes(n, nbytes),
        bits_be(n, nbytes).len() == 8 * nbytes,
{
    let bits = bits_be(n, nbytes);
    lemma2_to64();
    assert forall|j: int| 0 <= j < nbytes implies bytes_of_bits(bits)[j] == be_bytes(
        n,
        nbytes,
    )[j] by {
        let m = nbytes - 1 - j;
        let sub = bits.subrange(8 * j, 8 * j + 8);
        assert(sub =~= bits_of(n, 8 * nbytes).subrange(8 * m, 8 * m + 8)) by {
            assert forall|i: int| 0 <= i < 8 implies sub[i] == bits_of(n, 8 * nbytes).subrange(
                8 * m,
                8 * m + 8,
            )[i] by {
                assert((8 * j + i) / 8 == j);
                assert((8 * j + i) % 8 == i);
            }
        }
        lemma_bits_of_subrange(n, 8 * nbytes, (8 * m) as nat, 8);
        lemma_bits_of_value(n / pow2((8 * m) as nat), 8);
        assert(be_bytes(n, nbytes)[j] == le_bytes(n, nbytes)[nbytes - 1 - j]);
    }
    assert(bytes_of_bits(bits) =~= be_bytes(n, nbytes));
}

/// The bytes of two runs of whole bytes are the bytes of the one followed by
/// the bytes of the other.
pub proof fn lemma_bytes_of_bits_concat(a: Seq<bool>, b: Seq<bool>)
    requires
        a.len() % 8 == 0,
        b.len() % 8 == 0,
    ensures
        bytes_of_bits(a + b) == bytes_of_bits(a) + bytes_of_bits(b),
        (a + b).len() % 8 == 0,
{
    let na = a.len() / 8;
    assert forall|j: int| 0 <= j < (a + b).len() / 8 implies bytes_of_bits(a + b)[j] == (
    bytes_of_bits(a) + bytes_of_bits(b))[j] by {
        if j < na {
            assert((a + b).subrange(8 * j, 8 * j + 8) =~= a.subrange(8 * j, 8 * j + 8));
        } else {
            assert((a + b).subrange(8 * j, 8 * j + 8) =~= b.subrange(
                8 * (j - na),
                8 * (j - na) + 8,
            ));
        }
    }
    assert(bytes_of_bits(a + b) =~= bytes_of_bits(a) + bytes_of_bits(b));
}

/// The bits of a deposit stand for its bytes.
pub proof fn lemma_deposit_bits(d: DepositV)
    ensures
        bytes_of_bits(deposit_bits(d)) == d.bytes_be(),
        deposit_bits(d).len() == 400,
{
    lemma_bytes_of_bits_be(d.d, 10);
    lemma_bytes_of_bits_be(d.p_d, 32);
    lemma_bytes_of_bits_be(d.b, 8);
    lemma_bytes_of_bits_concat(bits_be(d.d, 10), bits_be(d.p_d, 32));
    lemma_bytes_of_bits_concat(bits_be(d.d, 10) + bits_be(d.p_d, 32), bits_be(d.b, 8));
}

/// A number below two to `k` has no bit at `k` or above.
pub proof fn lemma_high_bits_zero(n: nat, k: nat, i: nat)
    requires
        n < pow2(k),
        k <= i,
    ensures
        !bit_of(n, i),
{
    if k < i {
        lemma_pow2_strictly_increases(k, i);
    }
    lemma_basic_div(n as int, pow2(i) as int);
}

/// The signals of a delegated deposit.
#[derive(Clone, Copy, Debug)]
pub struct CDelegatedDeposit {
    pub d: CBoundedNum<DIVERSIFIER_SIZE_BITS>,
    pub p_d: CNum,
    pub b: CBoundedNum<BALANCE_SIZE_BITS>,
}

impl View for CDelegatedDeposit {
    type V = DepositV;

    open spec fn view(&self) -> DepositV {
        DepositV { d: self.d@, p_d: self.p_d@, b: self.b@ }
    }
}

/// The deposits that a sequence of signals carries.
pub open spec fn cdeposits_view(s: Seq<CDelegatedDeposit>) -> Seq<DepositV> {
    s.map_values(|d: CDelegatedDeposit| d@)
}

/// Reorders whole bytes of bits from lowest byte first to highest byte
/// first, the bits of each byte staying lowest first.
fn bytes_reversed(bits_le: &Vec<CBool>) -> (r: Vec<CBool>)
    requires
        bits_le@.len() % 8 == 0,
    ensures
        r@.len() == bits_le@.len(),
        forall|k: int|
            0 <= k < r@.len() ==> #[trigger] r@[k] == bits_le@[8 * (bits_le@.len() / 8 - 1 - k / 8)
                + k % 8],
{
    let n = bits_le.len();
    let nbytes = n / 8;
    let mut bits_be: Vec<CBool> = Vec::new();
    let mut k: usize = 0;
    while k < n
        invariant
            k <= n,
            n == bits_le@.len(),
            n % 8 == 0,
            nbytes == n / 8,
            bits_be@.len() == k,
            forall|j: int|
                0 <= j < k ==> #[trigger] bits_be@[j] == bits_le@[8 * (nbytes - 1 - j / 8) + j % 8],
        decreases n - k,
    {
        bits_be.push(bits_le[8 * (nbytes - 1 - k / 8) + k % 8]);
        k += 1;
    }
    bits_be
}

/// The 256 bits of a signal, highest byte first, and in each byte lowest bit
/// first.
pub fn num_to_iter_bits_be(cs: &mut CS, n: &CNum) -> (r: Vec<CBool>)
    ensures
        final(cs).satisfied() == old(cs).satisfied(),
        bools_view(r@) == bits_be(n@, 32),
        r@.len() == 256,
{
    let mut bits_le = c_into_bits_le_strict(cs, n);
    let zero = CBool::from_const(false);
    proof {
        use_type_invariant(n);
        lemma_modulus_bits();
        assert forall|i: int| 0 <= i < 254 implies (#[trigger] bits_le@[i])@ == bit_of(
            n@,
            i as nat,
        ) by {
            assert(bools_view(bits_le@)[i] == bits_of(n@, 254)[i]);
        }
    }
    while bits_le.len() < 256
        invariant
            254 <= bits_le@.len() <= 256,
            n@ < pow2(254),
            !zero@,
            forall|i: int| 0 <= i < bits_le@.len() ==> (#[trigger] bits_le@[i])@ == bit_of(
                n@,
                i as nat,
            ),
        decreases 256 - bits_le@.len(),
    {
        proof {
            lemma_high_bits_zero(n@, 254, bits_le@.len());
        }
        bits_le.push(zero);
    }
    let reordered = bytes_reversed(&bits_le);
    proof {
        assert(bools_view(reordered@) =~= bits_be(n@, 32));
    }
    reordered
}

/// The bits of a bounded signal of whole bytes, highest byte first, and in
/// each byte lowest bit first. The signal is constrained to have no bit
/// above them.
pub fn boundednum_to_iter_bits_be<const L: usize>(cs: &mut CS, n: &CBoundedNum<L>) -> (r: Vec<
    CBool,
>)
    requires
        0 < L < MODULUS_BITS,
        L % 8 == 0,
    ensures
        final(cs).satisfied() == (old(cs).satisfied() && n.in_range()),
        bools_view(r@) == bits_be(n@, (L / 8) as nat),
        r@.len() == L,
{
    let bits_le = c_into_bits_le(cs, n.as_num(), L);
    let reordered = bytes_reversed(&bits_le);
    proof {
        assert forall|k: int| 0 <= k < L implies bools_view(reordered@)[k] == bits_be(
            n@,
            (L / 8) as nat,
        )[k] by {
            assert(reordered@[k] == bits_le@[8 * (L / 8 - 1 - k / 8) + k % 8]);
            assert(bools_view(bits_le@)[8 * (L / 8 - 1 - k / 8) + k % 8] == bits_of(
                n@,
                L as nat,
            )[8 * (L / 8 - 1 - k / 8) + k % 8]);
        }
        assert(bools_view(reordered@) =~= bits_be(n@, (L / 8) as nat));
    }
    reordered
}

/// Appends a sequence of signals to another.
fn extend_bits(all: &mut Vec<CBool>, more: &Vec<CBool>)
    ensures
        bools_view(final(all)@) == bools_view(old(all)@) + bools_view(more@),
        final(all)@.len() == old(all)@.len() + more@.len(),
{
    let mut i: usize = 0;
    while i < more.len()
        invariant
            i <= more@.len(),
            all@.len() == old(all)@.len() + i,
            bools_view(all@) == bools_view(old(all)@) + bools_view(more@).take(i as int),
        decreases more@.len() - i,
    {
        let ghost prev = all@;
        all.push(more[i]);
        proof {
            assert(bools_view(all@) =~= bools_view(prev).push(more@[i as int]@));
            assert(bools_view(more@).take(i + 1) =~= bools_view(more@).take(i as int).push(
                more@[i as int]@,
            ));
            assert(bools_view(all@) =~= bools_view(old(all)@) + bools_view(more@).take(i + 1));
        }
        i += 1;
    }
    proof {
        assert(bools_view(more@).take(more@.len() as int) =~= bools_view(more@));
    }
}

impl CDelegatedDeposit {
    /// The signals of a deposit given by the witness, each bounded field
    /// constrained to its width.
    pub fn allocate(cs: &mut CS, value: &DelegatedDeposit) -> (r: Self)
        ensures
            final(cs).satisfied() == (old(cs).satisfied() && value.in_range()),
            r@ == value@,
    {
        let d = CBoundedNum::allocate(cs, &value.d);
        let p_d = CNum::allocate(value.p_d);
        let b = CBoundedNum::allocate(cs, &value.b);
        CDelegatedDeposit { d, p_d, b }
    }

    /// The note of the deposit: the same address and value, with no salt.
    pub fn to_note(&self, cs: &mut CS) -> (r: CNote)
        ensures
            final(cs).satisfied() == old(cs).satisfied(),
            r@ == self@.to_note(),
    {
        proof {
            lemma_pow2_pos(80);
        }
        CNote {
            d: self.d,
            p_d: self.p_d,
            b: self.b,
            t: CBoundedNum::new(cs, &CNum::from_const(Num::zero())),
        }
    }

    /// The bits of the deposit, as a batch is digested from them. Each
    /// bounded field is constrained to its width.
    pub fn to_iter_bits_be(&self, cs: &mut CS) -> (r: Vec<CBool>)
        ensures
            final(cs).satisfied() == (old(cs).satisfied() && self@.in_range()),
            bools_view(r@) == deposit_bits(self@),
            r@.len() == 400,
    {
        let mut bits = boundednum_to_iter_bits_be(cs, &self.d);
        let p_d_bits = num_to_iter_bits_be(cs, &self.p_d);
        let b_bits = boundednum_to_iter_bits_be(cs, &self.b);
        extend_bits(&mut bits, &p_d_bits);
        extend_bits(&mut bits, &b_bits);
        bits
    }
}

/// The byte that eight bits stand for, lowest bit first.
fn byte_of_bits(bits: &[CBool], start: usize) -> (r: u8)
    requires
        start + 8 <= bits@.len(),
    ensures
        r == bits_value(bools_view(bits@).subrange(start as int, start + 8)) as u8,
        bits_value(bools_view(bits@).subrange(start as int, start + 8)) < 256,
{
    let ghost sub = bools_view(bits@).subrange(start as int, start + 8);
    let total = bits.len();
    let mut acc: u16 = 0;
    let mut w: u16 = 1;
    let mut i: usize = 0;
    proof {
        lemma2_to64();
        assert(sub.take(0) =~= Seq::<bool>::empty());
    }
    while i < 8
        invariant
            i <= 8,
            start + 8 <= bits@.len(),
            bits@.len() == total,
            sub == bools_view(bits@).subrange(start as int, start + 8),
            acc == bits_value(sub.take(i as int)),
            w == pow2(i as nat),
            acc < w,
            w <= 256,
        decreases 8 - i,
    {
        proof {
            assert(sub.take(i + 1).drop_last() =~= sub.take(i as int));
            assert(sub.take(i + 1).last() == bits@[start + i]@);
            lemma2_to64();
        }
        if bits[start + i].get_value() {
            acc = acc + w;
        }
        w = w * 2;
        i += 1;
    }
    proof {
        assert(sub.take(8) =~= sub);
    }
    acc as u8
}

/// The field element of the Keccak-256 digest of whole bytes of bits: the
/// digest is read highest byte first and reduced.
fn c_keccak256_be_reduced(bits: &[CBool]) -> (r: CNum)
    requires
        bits@.len() % 8 == 0,
    ensures
        r@ == be_value(keccak256_digest(bytes_of_bits(bools_view(bits@)))) % modulus(),
{
    let n = bits.len() / 8;
    let mut data: Vec<u8> = Vec::new();
    let mut j: usize = 0;
    while j < n
        invariant
            j <= n,
            n == bits@.len() / 8,
            bits@.len() % 8 == 0,
            bits@.len() <= usize::MAX,
            data@.len() == j,
            forall|k: int|
                0 <= k < j ==> #[trigger] data@[k] == bytes_of_bits(bools_view(bits@))[k],
        decreases n - j,
    {
        data.push(byte_of_bits(bits, 8 * j));
        j += 1;
    }
    proof {
        assert(data@ =~= bytes_of_bits(bools_view(bits@)));
    }
    let digest = keccak256(data.as_slice());
    CNum::allocate(num_from_bytes_be_reduced(digest.as_slice()))
}

/// The signals of the public input of a batch of delegated deposits.
#[derive(Clone, Copy, Debug)]
pub struct CDelegatedDepositBatchPub {
    pub keccak_sum: CNum,
}

/// The signals of the secret input of a batch of delegated deposits.
#[derive(Clone, Debug)]
pub struct CDelegatedDepositBatchSec {
    pub out_commitment_hash: CNum,
    pub deposits: Vec<CDelegatedDeposit>,
}

/// Whether each deposit fits in its widths.
pub open spec fn deposits_fit(s: Seq<DepositV>) -> bool {
    forall|i: int| 0 <= i < s.len() ==> (#[trigger] s[i]).in_range()
}

/// What a batch of delegated deposits proves: its public digest is that of
/// the commitment of its outputs followed by its deposits, and that
/// commitment is the one of the notes of its deposits.
pub open spec fn delegated_deposit_relation(
    params: &PoolBN256,
    keccak_sum: nat,
    out_commitment_hash: nat,
    deposits: Seq<DepositV>,
) -> bool {
    &&& keccak_sum == batch_keccak_sum(out_commitment_hash, deposits)
    &&& out_commitment_hash == batch_out_commitment(params, deposits)
}

/// The commitments that a batch writes.
fn c_batch_out_hashes(cs: &mut CS, deposits: &[CDelegatedDeposit], params: &PoolBN256) -> (r: Vec<
    CNum,
>)
    requires
        deposits@.len() <= OUT,
    ensures
        final(cs).satisfied() == old(cs).satisfied(),
        cnums_view(r@) == batch_out_hashes(params, cdeposits_view(deposits@)),
        r@.len() == OUT + 1,
{
    let c_zero_account_hash = CNum::from_const(Account::zero().hash(params));
    let c_zero_note_hash = CNum::from_const(Note::zero().hash(params));
    let ghost dv = cdeposits_view(deposits@);
    let ghost want = batch_out_hashes(params, dv);
    let mut out_hash: Vec<CNum> = Vec::new();
    out_hash.push(c_zero_account_hash);
    let mut i: usize = 0;
    while i < deposits.len()
        invariant
            i <= deposits@.len() <= OUT,
            dv == cdeposits_view(deposits@),
            want == batch_out_hashes(params, dv),
            out_hash@.len() == i + 1,
            cs.satisfied() == old(cs).satisfied(),
            forall|k: int| 0 <= k < i + 1 ==> (#[trigger] out_hash@[k])@ == want[k],
        decreases deposits@.len() - i,
    {
        out_hash.push(deposits[i].to_note(cs).hash(params));
        i += 1;
    }
    while out_hash.len() < OUT + 1
        invariant
            deposits@.len() < out_hash@.len() <= OUT + 1,
            c_zero_note_hash@ == (NoteV { d: 0, p_d: 0, b: 0, t: 0 }).hash(params),
            dv == cdeposits_view(deposits@),
            want == batch_out_hashes(params, dv),
            forall|k: int| 0 <= k < out_hash@.len() ==> (#[trigger] out_hash@[k])@ == want[k],
        decreases OUT + 1 - out_hash@.len(),
    {
        out_hash.push(c_zero_note_hash);
    }
    proof {
        assert(cnums_view(out_hash@) =~= want);
    }
    out_hash
}

/// The bits that a batch is digested from. Each bounded field of each
/// deposit is constrained to its width.
fn c_batch_bits(cs: &mut CS, out_commitment_hash: &CNum, deposits: &[CDelegatedDeposit]) -> (r: Vec<
    CBool,
>)
    ensures
        final(cs).satisfied() == (old(cs).satisfied() && deposits_fit(cdeposits_view(deposits@))),
        r@.len() % 8 == 0,
        bytes_of_bits(bools_view(r@)) == batch_bytes(
            out_commitment_hash@,
            cdeposits_view(deposits@),
        ),
{
    let ghost dv = cdeposits_view(deposits@);
    let mut bits = num_to_iter_bits_be(cs, out_commitment_hash);
    let mut i: usize = 0;
    proof {
        lemma_bytes_of_bits_be(out_commitment_hash@, 32);
        assert(dv.take(0) =~= Seq::<DepositV>::empty());
        assert(bytes_of_bits(bools_view(bits@)) =~= batch_bytes(
            out_commitment_hash@,
            dv.take(0),
        ));
    }
    while i < deposits.len()
        invariant
            i <= deposits@.len(),
            dv == cdeposits_view(deposits@),
            cs.satisfied() == (old(cs).satisfied() && deposits_fit(dv.take(i as int))),
            bits@.len() % 8 == 0,
            bytes_of_bits(bools_view(bits@)) == batch_bytes(
                out_commitment_hash@,
                dv.take(i as int),
            ),
        decreases deposits@.len() - i,
    {
        let ghost before = bools_view(bits@);
        let more = deposits[i].to_iter_bits_be(cs);
        extend_bits(&mut bits, &more);
        proof {
            lemma_deposit_bits(dv[i as int]);
            lemma_bytes_of_bits_concat(before, deposit_bits(dv[i as int]));
            assert(dv.take(i + 1).drop_last() =~= dv.take(i as int));
            assert(dv.take(i + 1).last() == dv[i as int]);
            assert(batch_bytes(out_commitment_hash@, dv.take(i + 1)) =~= batch_bytes(
                out_commitment_hash@,
                dv.take(i as int),
            ) + dv[i as int].bytes_be());
            let j = (i + 1) as int;
            if deposits_fit(dv.take(j)) {
                assert forall|k: int| 0 <= k < i implies (#[trigger] dv.take(i as int)[k]).in_range() by {
                    assert(dv.take(j)[k].in_range());
                }
                assert(dv.take(j)[i as int].in_range());
            }
            if deposits_fit(dv.take(i as int)) && dv[i as int].in_range() {
                assert forall|k: int| 0 <= k < j implies (#[trigger] dv.take(j)[k]).in_range() by {
                    if k < i {
                        assert(dv.take(i as int)[k].in_range());
                    }
                }
            }
        }
        i += 1;
    }
    proof {
        assert(dv.take(deposits@.len() as int) =~= dv);
    }
    bits
}

/// The constraints of a batch of delegated deposits: every bounded field
/// fits in its width, and the relation of the batch holds.
pub fn check_delegated_deposit_batch(
    cs: &mut CS,
    p: &CDelegatedDepositBatchPub,
    s: &CDelegatedDepositBatchSec,
    params: &PoolBN256,
)
    requires
        s.deposits@.len() <= OUT,
    ensures
        final(cs).satisfied() == (old(cs).satisfied() && deposits_fit(cdeposits_view(s.deposits@))
            && delegated_deposit_relation(
            params,
            p.keccak_sum@,
            s.out_commitment_hash@,
            cdeposits_view(s.deposits@),
        )),
{
    let bits = c_batch_bits(cs, &s.out_commitment_hash, s.deposits.as_slice());
    c_keccak256_be_reduced(bits.as_slice()).assert_eq(cs, &p.keccak_sum);

    let out_hash = c_batch_out_hashes(cs, s.deposits.as_slice(), params);
    c_out_commitment_hash(out_hash.as_slice(), params).assert_eq(cs, &s.out_commitment_hash);
}

impl CDelegatedDepositBatchPub {
    /// The signals of a public input given by the witness.
    pub fn allocate(value: &DelegatedDepositBatchPub) -> (r: Self)
        ensures
            r.keccak_sum@ == value.keccak_sum@,
    {
        CDelegatedDepositBatchPub { keccak_sum: CNum::allocate(value.keccak_sum) }
    }
}

/// Whether each deposit fits in its widths.
pub open spec fn deposits_in_range(s: Seq<DelegatedDeposit>) -> bool {
    forall|i: int| 0 <= i < s.len() ==> (#[trigger] s[i]).in_range()
}

impl CDelegatedDepositBatchSec {
    /// The signals of a secret input given by the witness, each bounded
    /// field constrained to its width.
    pub fn allocate(cs: &mut CS, value: &DelegatedDepositBatchSec) -> (r: Self)
        ensures
            final(cs).satisfied() == (old(cs).satisfied() && deposits_in_range(value.deposits@)),
            r.deposits@.len() == value.deposits@.len(),
            r.out_commitment_hash@ == value.out_commitment_hash@,
            cdeposits_view(r.deposits@) == deposits_view(value.deposits@),
    {
        let mut deposits: Vec<CDelegatedDeposit> = Vec::new();
        let mut i: usize = 0;
        let ghost dv = value.deposits@;
        while i < value.deposits.len()
            invariant
                i <= value.deposits@.len(),
                dv == value.deposits@,
                deposits@.len() == i,
                cs.satisfied() == (old(cs).satisfied() && deposits_in_range(dv.take(i as int))),
                forall|k: int| 0 <= k < i ==> (#[trigger] deposits@[k])@ == dv[k]@,
            decreases value.deposits@.len() - i,
        {
            let d = CDelegatedDeposit::allocate(cs, &value.deposits[i]);
            deposits.push(d);
            proof {
                let j = (i + 1) as int;
                if deposits_in_range(dv.take(j)) {
                    assert forall|k: int| 0 <= k < i implies (#[trigger] dv.take(
                        i as int,
                    )[k]).in_range() by {
                        assert(dv.take(j)[k].in_range());
                    }
                    assert(dv.take(j)[i as int].in_range());
                }
                if deposits_in_range(dv.take(i as int)) && dv[i as int].in_range() {
                    assert forall|k: int| 0 <= k < j implies (#[trigger] dv.take(j)[k]).in_range() by {
                        if k < i {
                            assert(dv.take(i as int)[k].in_range());
                        }
                    }
                }
            }
            i += 1;
        }
        proof {
            assert(dv.take(value.deposits@.len() as int) =~= dv);
            assert(cdeposits_view(deposits@) =~= deposits_view(dv));
        }
        CDelegatedDepositBatchSec {
            out_commitment_hash: CNum::allocate(value.out_commitment_hash),
            deposits,
        }
    }
}

/// Whether a witness satisfies the constraints of a batch of delegated
/// deposits: every bounded field fits in its width, and the relation of the
/// batch holds.
pub fn delegated_deposit_batch_satisfied(
    p: &DelegatedDepositBatchPub,
    s: &DelegatedDepositBatchSec,
    params: &PoolBN256,
) -> (r: bool)
    requires
        s.deposits@.len() <= OUT,
    ensures
        r == (deposits_in_range(s.deposits@) && delegated_deposit_relation(
            params,
            p.keccak_sum@,
            s.out_commitment_hash@,
            deposits_view(s.deposits@),
        )),
{
    let mut cs = CS::new();
    let cp = CDelegatedDepositBatchPub::allocate(p);
    let csec = CDelegatedDepositBatchSec::allocate(&mut cs, s);
    proof {
        let dv = deposits_view(s.deposits@);
        if deposits_in_range(s.deposits@) {
            assert forall|i: int| 0 <= i < dv.len() implies (#[trigger] dv[i]).in_range() by {
                assert(s.deposits@[i].in_range());
            }
        }
    }
    check_delegated_deposit_batch(&mut cs, &cp, &csec, params);
    cs.is_satisfied()
}

} // verus!

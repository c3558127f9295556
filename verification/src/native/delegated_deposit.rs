use crate::constants::{BALANCE_SIZE_BITS, DIVERSIFIER_SIZE_BITS, OUT};
use crate::native::account::Account;
use crate::native::boundednum::BoundedNum;
use crate::native::bytes::{be_bytes, be_value, byte_of, le_bytes};
use crate::native::keccak::keccak256_digest;
use crate::native::note::{Note, NoteV};
use crate::native::num::{modulus, Num};
use crate::native::params::PoolBN256;
use crate::native::poseidon::nums_view;
use crate::native::tx::{out_commitment_hash, spec_out_commitment_hash};
use crate::native::uint::U256;
use vstd::prelude::*;

verus! {

/// A deposit made for an address by somebody else.
#[derive(Clone, Copy, Debug, PartialEq, Eq)]
pub struct DelegatedDeposit {
    pub d: BoundedNum<DIVERSIFIER_SIZE_BITS>,
    pub p_d: Num,
    pub b: BoundedNum<BALANCE_SIZE_BITS>,
}

/// The three fields of a delegated deposit, as numbers.
pub struct DepositV {
    pub d: nat,
    pub p_d: nat,
    pub b: nat,
}

impl DepositV {
    /// The note of the deposit: the same address and value, with no salt.
    pub open spec fn to_note(self) -> NoteV {
        NoteV { d: self.d, p_d: self.p_d, b: self.b, t: 0 }
    }

    /// Each bounded field fits in its width.
    pub open spec fn in_range(self) -> bool {
        self.d < vstd::arithmetic::power2::pow2(DIVERSIFIER_SIZE_BITS as nat) && self.b
            < vstd::arithmetic::power2::pow2(BALANCE_SIZE_BITS as nat)
    }

    /// The deposit on the wire of a batch: its fields in order, each highest
    /// byte first.
    pub open spec fn bytes_be(self) -> Seq<u8> {
        be_bytes(self.d, 10) + be_bytes(self.p_d, 32) + be_bytes(self.b, 8)
    }
}

impl View for DelegatedDeposit {
    type V = DepositV;

    open spec fn view(&self) -> DepositV {
        DepositV { d: self.d@, p_d: self.p_d@, b: self.b@ }
    }
}

/// The views of a sequence of deposits.
pub open spec fn deposits_view(s: Seq<DelegatedDeposit>) -> Seq<DepositV> {
    s.map_values(|d: DelegatedDeposit| d@)
}

/// A sequence of field elements on the wire of a batch: 32 bytes each,
/// highest byte first.
pub open spec fn scalars_bytes_be(s: Seq<nat>) -> Seq<u8>
    decreases s.len(),
{
    if s.len() == 0 {
        Seq::empty()
    } else {
        scalars_bytes_be(s.drop_last()) + be_bytes(s.last(), 32)
    }
}

/// A sequence of deposits on the wire of a batch.
pub open spec fn deposits_bytes_be(s: Seq<DepositV>) -> Seq<u8>
    decreases s.len(),
{
    if s.len() == 0 {
        Seq::empty()
    } else {
        deposits_bytes_be(s.drop_last()) + s.last().bytes_be()
    }
}

/// The bytes that a batch is digested from: the commitment of its outputs,
/// then its deposits.
pub open spec fn batch_bytes(out_commitment_hash: nat, deposits: Seq<DepositV>) -> Seq<u8> {
    be_bytes(out_commitment_hash, 32) + deposits_bytes_be(deposits)
}

/// The digest of a batch, as a field element: the Keccak-256 of its bytes,
/// read highest byte first and reduced.
pub open spec fn batch_keccak_sum(out_commitment_hash: nat, deposits: Seq<DepositV>) -> nat {
    be_value(keccak256_digest(batch_bytes(out_commitment_hash, deposits))) % modulus()
}

/// The commitments that a batch writes: the zero account, the note of each
/// deposit, then zero notes up to the size of a transaction.
pub open spec fn batch_out_hashes(params: &PoolBN256, deposits: Seq<DepositV>) -> Seq<nat> {
    Seq::new(
        (OUT + 1) as nat,
        |i: int|
            if i == 0 {
                (crate::native::account::AccountV { d: 0, p_d: 0, i: 0, b: 0, e: 0 }).hash(params)
            } else if i <= deposits.len() {
                deposits[i - 1].to_note().hash(params)
            } else {
                (NoteV { d: 0, p_d: 0, b: 0, t: 0 }).hash(params)
            },
    )
}

/// The commitment of the outputs of a batch.
pub open spec fn batch_out_commitment(params: &PoolBN256, deposits: Seq<DepositV>) -> nat {
    spec_out_commitment_hash(params, batch_out_hashes(params, deposits))
}

impl DelegatedDeposit {
    /// Each bounded field fits in its width.
    pub open spec fn in_range(&self) -> bool {
        self@.in_range()
    }

    /// The note of the deposit: the same address and value, with no salt.
    pub fn to_note(&self) -> (r: Note)
        ensures
            r@ == self@.to_note(),
            r.in_range() == self.in_range(),
    {
        Note { d: self.d, p_d: self.p_d, b: self.b, t: BoundedNum::zero() }
    }
}

/// The public input of a batch of delegated deposits.
#[derive(Clone, Copy, Debug)]
pub struct DelegatedDepositBatchPub {
    pub keccak_sum: Num,
}

/// The secret input of a batch of delegated deposits.
#[derive(Clone, Debug)]
pub struct DelegatedDepositBatchSec {
    pub out_commitment_hash: Num,
    pub deposits: Vec<DelegatedDeposit>,
}

/// Appends the `n` lowest bytes of `v` to `writer`, highest first.
pub fn write_be(writer: &mut Vec<u8>, v: &U256, n: usize)
    requires
        n <= 32,
    ensures
        final(writer)@ == old(writer)@ + be_bytes(v@, n as nat),
{
    let mut i: usize = 0;
    while i < n
        invariant
            i <= n <= 32,
            writer@.len() == old(writer)@.len() + i,
            forall|k: int| 0 <= k < old(writer)@.len() ==> writer@[k] == old(writer)@[k],
            forall|k: int|
                0 <= k < i ==> #[trigger] writer@[old(writer)@.len() + k] == byte_of(
                    v@,
                    (n - 1 - k) as nat,
                ),
        decreases n - i,
    {
        writer.push(v.byte(n - 1 - i));
        i += 1;
    }
    proof {
        let want = old(writer)@ + be_bytes(v@, n as nat);
        assert forall|j: int| 0 <= j < want.len() implies writer@[j] == want[j] by {
            if j >= old(writer)@.len() {
                let k = j - old(writer)@.len();
                assert(writer@[old(writer)@.len() + k] == byte_of(v@, (n - 1 - k) as nat));
                assert(be_bytes(v@, n as nat)[k] == le_bytes(v@, n as nat)[n - 1 - k]);
            }
        }
        assert(writer@ =~= want);
    }
}

/// The commitments that a batch of at most `OUT` deposits writes.
pub fn delegated_deposit_out_hashes(deposits: &[DelegatedDeposit], params: &PoolBN256) -> (r: Vec<
    Num,
>)
    requires
        deposits@.len() <= OUT,
    ensures
        nums_view(r@) == batch_out_hashes(params, deposits_view(deposits@)),
        r@.len() == OUT + 1,
{
    let zero_account_hash = Account::zero().hash(params);
    let zero_note_hash = Note::zero().hash(params);
    let ghost dv = deposits_view(deposits@);
    let ghost want = batch_out_hashes(params, dv);
    let mut out_hash: Vec<Num> = Vec::new();
    out_hash.push(zero_account_hash);
    let mut i: usize = 0;
    while i < deposits.len()
        invariant
            i <= deposits@.len() <= OUT,
            dv == deposits_view(deposits@),
            want == batch_out_hashes(params, dv),
            out_hash@.len() == i + 1,
            forall|k: int| 0 <= k < i + 1 ==> (#[trigger] out_hash@[k])@ == want[k],
        decreases deposits@.len() - i,
    {
        out_hash.push(deposits[i].to_note().hash(params));
        i += 1;
    }
    while out_hash.len() < OUT + 1
        invariant
            deposits@.len() < out_hash@.len() <= OUT + 1,
            zero_note_hash@ == (NoteV { d: 0, p_d: 0, b: 0, t: 0 }).hash(params),
            dv == deposits_view(deposits@),
            want == batch_out_hashes(params, dv),
            forall|k: int| 0 <= k < out_hash@.len() ==> (#[trigger] out_hash@[k])@ == want[k],
        decreases OUT + 1 - out_hash@.len(),
    {
        out_hash.push(zero_note_hash);
    }
    proof {
        assert(nums_view(out_hash@) =~= want);
    }
    out_hash
}

/// The commitment of the outputs of a batch of at most `OUT` deposits.
pub fn delegated_deposit_out_commitment(deposits: &[DelegatedDeposit], params: &PoolBN256) -> (r:
    Num)
    requires
        deposits@.len() <= OUT,
    ensures
        r@ == batch_out_commitment(params, deposits_view(deposits@)),
{
    let out_hash = delegated_deposit_out_hashes(deposits, params);
    out_commitment_hash(out_hash.as_slice(), params)
}

} // verus!

use crate::constants::{
    BALANCE_SIZE_BITS, DIVERSIFIER_SIZE_BITS, ENERGY_SIZE_BITS, HEIGHT, SALT_SIZE_BITS,
};
use crate::native::account::{Account, AccountV};
use crate::native::boundednum::BoundedNum;
use crate::native::bytes::{le_bytes, le_value, lemma_le_value_bound, lemma_le_value_of_bytes};
use crate::native::delegated_deposit::{DelegatedDeposit, DepositV};
use crate::native::note::{Note, NoteV};
use crate::native::num::{modulus, Num};
use crate::native::tx::lemma_delta_pows;
use crate::native::uint::U256;
use vstd::arithmetic::div_mod::lemma_small_mod;
use vstd::arithmetic::power2::{lemma2_to64, lemma_pow2_adds, pow2};
use vstd::prelude::*;
use vstd::slice::slice_subrange;

verus! {

/// Number of bytes of a field element on the wire.
pub const NUM_SIZE: usize = 32;

/// Number of bytes of an account on the wire.
pub const ACCOUNT_SIZE: usize = 70;

/// Number of bytes of a note on the wire.
pub const NOTE_SIZE: usize = 60;

/// Number of bytes of a delegated deposit on the wire.
pub const DELEGATED_DEPOSIT_SIZE: usize = 50;

/// Number of bytes of a bounded number of `l` bits on the wire.
pub open spec fn bounded_size(l: nat) -> nat {
    ((l - 1) / 8 + 1) as nat
}

/// An account on the wire: its fields in order, each lowest byte first, the
/// bounded ones on as many bytes as their width takes.
pub open spec fn account_bytes(a: AccountV) -> Seq<u8> {
    le_bytes(a.d, 10) + le_bytes(a.p_d, 32) + le_bytes(a.i, 6) + le_bytes(a.b, 8) + le_bytes(
        a.e,
        14,
    )
}

/// The account that the first 70 bytes of `b` stand for.
pub open spec fn account_of_bytes(b: Seq<u8>) -> AccountV {
    AccountV {
        d: le_value(b.subrange(0, 10)),
        p_d: le_value(b.subrange(10, 42)),
        i: le_value(b.subrange(42, 48)),
        b: le_value(b.subrange(48, 56)),
        e: le_value(b.subrange(56, 70)),
    }
}

/// A note on the wire.
pub open spec fn note_bytes(n: NoteV) -> Seq<u8> {
    le_bytes(n.d, 10) + le_bytes(n.p_d, 32) + le_bytes(n.b, 8) + le_bytes(n.t, 10)
}

/// The note that the first 60 bytes of `b` stand for.
pub open spec fn note_of_bytes(b: Seq<u8>) -> NoteV {
    NoteV {
        d: le_value(b.subrange(0, 10)),
        p_d: le_value(b.subrange(10, 42)),
        b: le_value(b.subrange(42, 50)),
        t: le_value(b.subrange(50, 60)),
    }
}

/// A delegated deposit on the wire.
pub open spec fn deposit_bytes(d: DepositV) -> Seq<u8> {
    le_bytes(d.d, 10) + le_bytes(d.p_d, 32) + le_bytes(d.b, 8)
}

/// The delegated deposit that the first 50 bytes of `b` stand for.
pub open spec fn deposit_of_bytes(b: Seq<u8>) -> DepositV {
    DepositV {
        d: le_value(b.subrange(0, 10)),
        p_d: le_value(b.subrange(10, 42)),
        b: le_value(b.subrange(42, 50)),
    }
}

/// Reading an account off its bytes gives it back.
pub proof fn lemma_account_round_trip(a: AccountV)
    requires
        a.in_range(),
        a.p_d < modulus(),
    ensures
        account_bytes(a).len() == ACCOUNT_SIZE,
        account_of_bytes(account_bytes(a)) == a,
{
    let b = account_bytes(a);
    lemma_delta_pows();
    lemma2_to64();
    lemma_pow2_adds(64, 16);
    crate::circuit::bitify::lemma_modulus_bits();
    lemma_pow2_adds(254, 2);
    assert(b.subrange(0, 10) =~= le_bytes(a.d, 10));
    assert(b.subrange(10, 42) =~= le_bytes(a.p_d, 32));
    assert(b.subrange(42, 48) =~= le_bytes(a.i, 6));
    assert(b.subrange(48, 56) =~= le_bytes(a.b, 8));
    assert(b.subrange(56, 70) =~= le_bytes(a.e, 14));
    lemma_le_value_of_bytes(a.d, 10);
    lemma_le_value_of_bytes(a.p_d, 32);
    lemma_le_value_of_bytes(a.i, 6);
    lemma_le_value_of_bytes(a.b, 8);
    lemma_le_value_of_bytes(a.e, 14);
    lemma_small_mod(a.d, pow2(80));
    lemma_small_mod(a.p_d, pow2(256));
    lemma_small_mod(a.i, pow2(48));
    lemma_small_mod(a.b, pow2(64));
    lemma_small_mod(a.e, pow2(112));
}

/// Reading a note off its bytes gives it back.
pub proof fn lemma_note_round_trip(n: NoteV)
    requires
        n.in_range(),
        n.p_d < modulus(),
    ensures
        note_bytes(n).len() == NOTE_SIZE,
        note_of_bytes(note_bytes(n)) == n,
{
    let b = note_bytes(n);
    lemma_delta_pows();
    lemma2_to64();
    lemma_pow2_adds(64, 16);
    crate::circuit::bitify::lemma_modulus_bits();
    lemma_pow2_adds(254, 2);
    assert(b.subrange(0, 10) =~= le_bytes(n.d, 10));
    assert(b.subrange(10, 42) =~= le_bytes(n.p_d, 32));
    assert(b.subrange(42, 50) =~= le_bytes(n.b, 8));
    assert(b.subrange(50, 60) =~= le_bytes(n.t, 10));
    lemma_le_value_of_bytes(n.d, 10);
    lemma_le_value_of_bytes(n.p_d, 32);
    lemma_le_value_of_bytes(n.b, 8);
    lemma_le_value_of_bytes(n.t, 10);
    lemma_small_mod(n.d, pow2(80));
    lemma_small_mod(n.p_d, pow2(256));
    lemma_small_mod(n.b, pow2(64));
    lemma_small_mod(n.t, pow2(80));
}

/// Takes `size` bytes off the front of `memo`, if it holds as many.
pub fn buf_take<'a>(memo: &mut &'a [u8], size: usize) -> (r: Option<&'a [u8]>)
    ensures
        r.is_some() == (size <= old(memo)@.len()),
        r.is_some() ==> r.unwrap()@ == old(memo)@.subrange(0, size as int) && final(memo)@ == old(
            memo,
        )@.subrange(size as int, old(memo)@.len() as int),
        r.is_none() ==> final(memo)@ == old(memo)@,
{
    if memo.len() < size {
        None
    } else {
        let res = slice_subrange(*memo, 0, size);
        *memo = slice_subrange(*memo, size, memo.len());
        Some(res)
    }
}

/// An account and a note have the sizes that the wire gives them.
pub proof fn lemma_account_len(a: AccountV)
    ensures
        account_bytes(a).len() == ACCOUNT_SIZE,
{
}

/// A note has the size that the wire gives it.
pub proof fn lemma_note_len(n: NoteV)
    ensures
        note_bytes(n).len() == NOTE_SIZE,
{
}

/// Appends the `n` lowest bytes of `v` to `writer`.
pub(crate) fn write_le(writer: &mut Vec<u8>, v: &U256, n: usize)
    requires
        n <= 32,
    ensures
        final(writer)@ == old(writer)@ + le_bytes(v@, n as nat),
{
    let mut i: usize = 0;
    while i < n
        invariant
            i <= n <= 32,
            writer@ == old(writer)@ + le_bytes(v@, i as nat),
        decreases n - i,
    {
        writer.push(v.byte(i));
        proof {
            assert(writer@ =~= old(writer)@ + le_bytes(v@, (i + 1) as nat));
        }
        i += 1;
    }
}

/// Reads a field element off `n` bytes at the front of `buf`, lowest first.
fn read_le(buf: &mut &[u8], n: usize) -> (r: Option<Num>)
    requires
        n <= 32,
    ensures
        r.is_some() == (n <= old(buf)@.len() && le_value(old(buf)@.subrange(0, n as int))
            < modulus()),
        r.is_some() ==> r.unwrap()@ == le_value(old(buf)@.subrange(0, n as int)),
        n <= old(buf)@.len() ==> final(buf)@ == old(buf)@.subrange(
            n as int,
            old(buf)@.len() as int,
        ),
        n > old(buf)@.len() ==> final(buf)@ == old(buf)@,
{
    match buf_take(buf, n) {
        Some(bytes) => Num::from_uint(U256::from_le_bytes(bytes)),
        None => None,
    }
}

impl Num {
    /// Appends the 32 bytes of the element, lowest first.
    pub fn serialize(&self, writer: &mut Vec<u8>)
        ensures
            final(writer)@ == old(writer)@ + le_bytes(self@, 32),
    {
        write_le(writer, &self.to_uint(), NUM_SIZE);
    }

    /// The 32 bytes of the element, lowest first.
    pub fn try_to_vec(&self) -> (r: Vec<u8>)
        ensures
            r@ == le_bytes(self@, 32),
    {
        self.to_uint().to_le_bytes()
    }

    /// Reads an element off the front of `buf`: 32 bytes that stand for a
    /// number below the modulus.
    pub fn deserialize(buf: &mut &[u8]) -> (r: Option<Num>)
        ensures
            r.is_some() == (32 <= old(buf)@.len() && le_value(old(buf)@.subrange(0, 32))
                < modulus()),
            r.is_some() ==> r.unwrap()@ == le_value(old(buf)@.subrange(0, 32)),
            32 <= old(buf)@.len() ==> final(buf)@ == old(buf)@.subrange(
                32,
                old(buf)@.len() as int,
            ),
            32 > old(buf)@.len() ==> final(buf)@ == old(buf)@,
    {
        read_le(buf, NUM_SIZE)
    }
}

impl<const L: usize> BoundedNum<L> {
    /// Number of bytes on the wire.
    pub fn size() -> (r: usize)
        requires
            0 < L <= 256,
        ensures
            r == bounded_size(L as nat),
            r <= 32,
    {
        (L - 1) / 8 + 1
    }

    /// Appends the bytes of the number, lowest first, as many as its width
    /// takes.
    pub fn serialize(&self, writer: &mut Vec<u8>)
        requires
            0 < L <= 256,
        ensures
            final(writer)@ == old(writer)@ + le_bytes(self@, bounded_size(L as nat)),
    {
        write_le(writer, &self.as_num().to_uint(), Self::size());
    }

    /// Reads a number off the front of `buf`, on as many bytes as its width
    /// takes.
    pub fn deserialize(buf: &mut &[u8]) -> (r: Option<Self>)
        requires
            0 < L <= 256,
        ensures
            r.is_some() == (bounded_size(L as nat) <= old(buf)@.len() && le_value(
                old(buf)@.subrange(0, bounded_size(L as nat) as int),
            ) < modulus()),
            r.is_some() ==> r.unwrap()@ == le_value(
                old(buf)@.subrange(0, bounded_size(L as nat) as int),
            ),
            bounded_size(L as nat) <= old(buf)@.len() ==> final(buf)@ == old(buf)@.subrange(
                bounded_size(L as nat) as int,
                old(buf)@.len() as int,
            ),
            bounded_size(L as nat) > old(buf)@.len() ==> final(buf)@ == old(buf)@,
    {
        match read_le(buf, Self::size()) {
            Some(n) => Some(Self::new_unchecked(n)),
            None => None,
        }
    }
}

impl Account {
    /// Appends the account as it goes on the wire.
    pub fn serialize(&self, writer: &mut Vec<u8>)
        ensures
            final(writer)@ == old(writer)@ + account_bytes(self@),
    {
        self.d.serialize(writer);
        self.p_d.serialize(writer);
        self.i.serialize(writer);
        self.b.serialize(writer);
        self.e.serialize(writer);
        proof {
            assert(writer@ =~= old(writer)@ + account_bytes(self@));
        }
    }

    /// The account as it goes on the wire.
    pub fn try_to_vec(&self) -> (r: Vec<u8>)
        ensures
            r@ == account_bytes(self@),
    {
        let mut writer: Vec<u8> = Vec::new();
        self.serialize(&mut writer);
        proof {
            assert(writer@ =~= account_bytes(self@));
        }
        writer
    }

    /// Reads an account off the front of `buf`: 70 bytes, those of the point
    /// standing for a number below the modulus.
    pub fn deserialize(buf: &mut &[u8]) -> (r: Option<Account>)
        ensures
            r.is_some() == (ACCOUNT_SIZE <= old(buf)@.len() && account_of_bytes(old(buf)@).p_d
                < modulus()),
            r.is_some() ==> r.unwrap()@ == account_of_bytes(old(buf)@) && r.unwrap().in_range(),
            ACCOUNT_SIZE <= old(buf)@.len() ==> final(buf)@ == old(buf)@.subrange(
                ACCOUNT_SIZE as int,
                old(buf)@.len() as int,
            ),
            ACCOUNT_SIZE > old(buf)@.len() ==> final(buf)@ == old(buf)@,
    {
        let ghost all = buf@;
        if buf.len() < ACCOUNT_SIZE {
            return None;
        }
        proof {
            lemma_delta_pows();
            lemma2_to64();
            crate::circuit::bitify::lemma_modulus_bits();
            lemma_le_value_bound(all.subrange(0, 10));
            lemma_le_value_bound(all.subrange(42, 48));
            lemma_le_value_bound(all.subrange(48, 56));
            lemma_le_value_bound(all.subrange(56, 70));
            crate::native::boundednum::lemma_width_below_modulus(80);
            crate::native::boundednum::lemma_width_below_modulus(112);
        }
        let d = BoundedNum::<DIVERSIFIER_SIZE_BITS>::deserialize(buf);
        proof {
            assert(buf@.subrange(0, 32) =~= all.subrange(10, 42));
        }
        let p_d = Num::deserialize(buf);
        proof {
            assert(buf@.subrange(0, 6) =~= all.subrange(42, 48));
        }
        let i = BoundedNum::<HEIGHT>::deserialize(buf);
        proof {
            assert(buf@.subrange(0, 8) =~= all.subrange(48, 56));
        }
        let b = BoundedNum::<BALANCE_SIZE_BITS>::deserialize(buf);
        proof {
            assert(buf@.subrange(0, 14) =~= all.subrange(56, 70));
        }
        let e = BoundedNum::<ENERGY_SIZE_BITS>::deserialize(buf);
        proof {
            assert(buf@ =~= all.subrange(ACCOUNT_SIZE as int, all.len() as int));
        }
        match (d, p_d, i, b, e) {
            (Some(d), Some(p_d), Some(i), Some(b), Some(e)) => Some(Account { d, p_d, i, b, e }),
            _ => None,
        }
    }

    /// Reads an account off a slice that holds nothing else.
    pub fn try_from_slice(v: &[u8]) -> (r: Option<Account>)
        ensures
            r.is_some() == (v@.len() == ACCOUNT_SIZE && account_of_bytes(v@).p_d < modulus()),
            r.is_some() ==> r.unwrap()@ == account_of_bytes(v@) && r.unwrap().in_range(),
    {
        let mut buf = v;
        let r = Account::deserialize(&mut buf);
        if buf.len() != 0 {
            None
        } else {
            r
        }
    }
}

impl Note {
    /// Appends the note as it goes on the wire.
    pub fn serialize(&self, writer: &mut Vec<u8>)
        ensures
            final(writer)@ == old(writer)@ + note_bytes(self@),
    {
        self.d.serialize(writer);
        self.p_d.serialize(writer);
        self.b.serialize(writer);
        self.t.serialize(writer);
        proof {
            assert(writer@ =~= old(writer)@ + note_bytes(self@));
        }
    }

    /// The note as it goes on the wire.
    pub fn try_to_vec(&self) -> (r: Vec<u8>)
        ensures
            r@ == note_bytes(self@),
    {
        let mut writer: Vec<u8> = Vec::new();
        self.serialize(&mut writer);
        proof {
            assert(writer@ =~= note_bytes(self@));
        }
        writer
    }

    /// Reads a note off the front of `buf`: 60 bytes, those of the point
    /// standing for a number below the modulus.
    pub fn deserialize(buf: &mut &[u8]) -> (r: Option<Note>)
        ensures
            r.is_some() == (NOTE_SIZE <= old(buf)@.len() && note_of_bytes(old(buf)@).p_d
                < modulus()),
            r.is_some() ==> r.unwrap()@ == note_of_bytes(old(buf)@) && r.unwrap().in_range(),
            NOTE_SIZE <= old(buf)@.len() ==> final(buf)@ == old(buf)@.subrange(
                NOTE_SIZE as int,
                old(buf)@.len() as int,
            ),
            NOTE_SIZE > old(buf)@.len() ==> final(buf)@ == old(buf)@,
    {
        let ghost all = buf@;
        if buf.len() < NOTE_SIZE {
            return None;
        }
        proof {
            lemma_delta_pows();
            lemma2_to64();
            crate::circuit::bitify::lemma_modulus_bits();
            lemma_le_value_bound(all.subrange(0, 10));
            lemma_le_value_bound(all.subrange(42, 50));
            lemma_le_value_bound(all.subrange(50, 60));
            crate::native::boundednum::lemma_width_below_modulus(80);
        }
        let d = BoundedNum::<DIVERSIFIER_SIZE_BITS>::deserialize(buf);
        proof {
            assert(buf@.subrange(0, 32) =~= all.subrange(10, 42));
        }
        let p_d = Num::deserialize(buf);
        proof {
            assert(buf@.subrange(0, 8) =~= all.subrange(42, 50));
        }
        let b = BoundedNum::<BALANCE_SIZE_BITS>::deserialize(buf);
        proof {
            assert(buf@.subrange(0, 10) =~= all.subrange(50, 60));
        }
        let t = BoundedNum::<SALT_SIZE_BITS>::deserialize(buf);
        proof {
            assert(buf@ =~= all.subrange(NOTE_SIZE as int, all.len() as int));
        }
        match (d, p_d, b, t) {
            (Some(d), Some(p_d), Some(b), Some(t)) => Some(Note { d, p_d, b, t }),
            _ => None,
        }
    }

    /// Reads a note off a slice that holds nothing else.
    pub fn try_from_slice(v: &[u8]) -> (r: Option<Note>)
        ensures
            r.is_some() == (v@.len() == NOTE_SIZE && note_of_bytes(v@).p_d < modulus()),
            r.is_some() ==> r.unwrap()@ == note_of_bytes(v@) && r.unwrap().in_range(),
    {
        let mut buf = v;
        let r = Note::deserialize(&mut buf);
        if buf.len() != 0 {
            None
        } else {
            r
        }
    }
}

impl DelegatedDeposit {
    /// Appends the deposit as it goes on the wire.
    pub fn serialize(&self, writer: &mut Vec<u8>)
        ensures
            final(writer)@ == old(writer)@ + deposit_bytes(self@),
    {
        self.d.serialize(writer);
        self.p_d.serialize(writer);
        self.b.serialize(writer);
        proof {
            assert(writer@ =~= old(writer)@ + deposit_bytes(self@));
        }
    }

    /// Reads a deposit off the front of `buf`: 50 bytes, those of the point
    /// standing for a number below the modulus.
    pub fn deserialize(buf: &mut &[u8]) -> (r: Option<DelegatedDeposit>)
        ensures
            r.is_some() == (DELEGATED_DEPOSIT_SIZE <= old(buf)@.len() && deposit_of_bytes(
                old(buf)@,
            ).p_d < modulus()),
            r.is_some() ==> r.unwrap()@ == deposit_of_bytes(old(buf)@) && r.unwrap().in_range(),
            DELEGATED_DEPOSIT_SIZE <= old(buf)@.len() ==> final(buf)@ == old(buf)@.subrange(
                DELEGATED_DEPOSIT_SIZE as int,
                old(buf)@.len() as int,
            ),
            DELEGATED_DEPOSIT_SIZE > old(buf)@.len() ==> final(buf)@ == old(buf)@,
    {
        let ghost all = buf@;
        if buf.len() < DELEGATED_DEPOSIT_SIZE {
            return None;
        }
        proof {
            lemma_delta_pows();
            lemma2_to64();
            crate::circuit::bitify::lemma_modulus_bits();
            lemma_le_value_bound(all.subrange(0, 10));
            lemma_le_value_bound(all.subrange(42, 50));
            crate::native::boundednum::lemma_width_below_modulus(80);
        }
        let d = BoundedNum::<DIVERSIFIER_SIZE_BITS>::deserialize(buf);
        proof {
            assert(buf@.subrange(0, 32) =~= all.subrange(10, 42));
        }
        let p_d = Num::deserialize(buf);
        proof {
            assert(buf@.subrange(0, 8) =~= all.subrange(42, 50));
        }
        let b = BoundedNum::<BALANCE_SIZE_BITS>::deserialize(buf);
        proof {
            assert(buf@ =~= all.subrange(DELEGATED_DEPOSIT_SIZE as int, all.len() as int));
        }
        match (d, p_d, b) {
            (Some(d), Some(p_d), Some(b)) => Some(DelegatedDeposit { d, p_d, b }),
            _ => None,
        }
    }
}

} // verus!

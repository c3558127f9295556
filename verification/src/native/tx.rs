use crate::constants::{BALANCE_SIZE_BITS, ENERGY_SIZE_BITS, HEIGHT, IN, OUT, POOLID_SIZE_BITS};
use crate::native::account::Account;
use crate::native::account::AccountV;
use crate::native::note::{Note, NoteV};
use crate::native::num::{field_of_int, field_sub, modulus, modulus_uint, Num, Scalar};
use crate::native::params::PoolBN256;
use crate::native::poseidon::{
    merkle_tree_root, nums_view, poseidon, poseidon_merkle_tree_root, poseidon_pair,
    poseidon_sponge, MerkleProof, ProofV,
};
use crate::native::uint::{base4, lemma_bases, U256};
use vstd::arithmetic::div_mod::{
    lemma_div_denominator, lemma_fundamental_div_mod_converse, lemma_mod_bound, lemma_small_mod,
};
use vstd::arithmetic::power2::{
    is_pow2, lemma2_to64, lemma2_to64_rest, lemma_pow2_adds, lemma_pow2_pos, pow2,
};
use vstd::prelude::*;

verus! {

/// What a transaction spends and what it creates: one account and a fixed
/// number of notes on each side.
#[derive(Debug)]
pub struct Tx {
    pub input: (Account, Vec<Note>),
    pub output: (Account, Vec<Note>),
}

/// The public input of a transfer, in the order the verifier takes it.
#[derive(Clone, Copy, Debug)]
pub struct TransferPub {
    pub root: Num,
    pub nullifier: Num,
    pub out_commit: Num,
    pub delta: Num,
    pub memo: Num,
}

/// The secret input of a transfer.
#[derive(Debug)]
pub struct TransferSec {
    pub tx: Tx,
    pub in_proof: (MerkleProof<HEIGHT>, Vec<MerkleProof<HEIGHT>>),
    pub eddsa_s: Num,
    pub eddsa_r: Num,
    pub eddsa_a: Num,
}

/// The public input of a transfer, as numbers.
pub struct TransferPubV {
    pub root: nat,
    pub nullifier: nat,
    pub out_commit: nat,
    pub delta: nat,
    pub memo: nat,
}

/// The secret input of a transfer, as numbers.
pub struct TransferSecV {
    pub in_account: AccountV,
    pub in_notes: Seq<NoteV>,
    pub out_account: AccountV,
    pub out_notes: Seq<NoteV>,
    pub account_proof: ProofV,
    pub note_proofs: Seq<ProofV>,
    pub eddsa_s: nat,
    pub eddsa_r: nat,
    pub eddsa_a: nat,
}

/// The views of a sequence of notes.
pub open spec fn notes_view(s: Seq<Note>) -> Seq<NoteV> {
    s.map_values(|n: Note| n@)
}

/// The views of a sequence of authentication paths.
pub open spec fn proofs_view<const H: usize>(s: Seq<MerkleProof<H>>) -> Seq<ProofV> {
    s.map_values(|q: MerkleProof<H>| q@)
}

/// Whether each note fits in its widths.
pub open spec fn notes_in_range(s: Seq<NoteV>) -> bool {
    forall|i: int| 0 <= i < s.len() ==> (#[trigger] s[i]).in_range()
}

impl ProofV {
    /// The path has one sibling and one bit for each of `h` levels.
    pub open spec fn wf(self, h: nat) -> bool {
        self.sibling.len() == h && self.path.len() == h
    }
}

impl TransferSecV {
    /// The witness has the shape of a transfer: the numbers of notes and of
    /// paths, and the depth of each path.
    pub open spec fn wf(self) -> bool {
        &&& self.in_notes.len() == IN
        &&& self.out_notes.len() == OUT
        &&& self.note_proofs.len() == IN
        &&& self.account_proof.wf(HEIGHT as nat)
        &&& forall|i: int| 0 <= i < IN ==> (#[trigger] self.note_proofs[i]).wf(HEIGHT as nat)
    }

    /// Every bounded field of the witness fits in its width.
    pub open spec fn in_range(self) -> bool {
        &&& self.in_account.in_range()
        &&& self.out_account.in_range()
        &&& notes_in_range(self.in_notes)
        &&& notes_in_range(self.out_notes)
    }
}

impl View for TransferPub {
    type V = TransferPubV;

    open spec fn view(&self) -> TransferPubV {
        TransferPubV {
            root: self.root@,
            nullifier: self.nullifier@,
            out_commit: self.out_commit@,
            delta: self.delta@,
            memo: self.memo@,
        }
    }
}

impl View for TransferSec {
    type V = TransferSecV;

    open spec fn view(&self) -> TransferSecV {
        TransferSecV {
            in_account: self.tx.input.0@,
            in_notes: notes_view(self.tx.input.1@),
            out_account: self.tx.output.0@,
            out_notes: notes_view(self.tx.output.1@),
            account_proof: self.in_proof.0@,
            note_proofs: proofs_view(self.in_proof.1@),
            eddsa_s: self.eddsa_s@,
            eddsa_r: self.eddsa_r@,
            eddsa_a: self.eddsa_a@,
        }
    }
}

impl TransferPub {
    /// The public inputs in the order the verifier takes them: root,
    /// nullifier, commitment of the outputs, delta, memo.
    pub fn inputs(&self) -> (r: Vec<Num>)
        ensures
            nums_view(r@) == seq![
                self@.root,
                self@.nullifier,
                self@.out_commit,
                self@.delta,
                self@.memo,
            ],
    {
        let r = vec![self.root, self.nullifier, self.out_commit, self.delta, self.memo];
        proof {
            assert(nums_view(r@) =~= seq![
                self@.root,
                self@.nullifier,
                self@.out_commit,
                self@.delta,
                self@.memo,
            ]);
        }
        r
    }
}

impl TransferSec {
    /// Whether the witness has the shape of a transfer.
    pub fn is_wf(&self) -> (r: bool)
        ensures
            r == self@.wf(),
    {
        if self.tx.input.1.len() != IN || self.tx.output.1.len() != OUT || self.in_proof.1.len()
            != IN || !self.in_proof.0.is_wf() {
            return false;
        }
        let mut i: usize = 0;
        while i < IN
            invariant
                i <= IN,
                self.in_proof.1@.len() == IN,
                forall|k: int| 0 <= k < i ==> (#[trigger] self.in_proof.1@[k]).wf(),
            decreases IN - i,
        {
            if !self.in_proof.1[i].is_wf() {
                proof {
                    assert(!self@.note_proofs[i as int].wf(HEIGHT as nat));
                }
                return false;
            }
            i += 1;
        }
        proof {
            assert forall|k: int| 0 <= k < IN implies (#[trigger] self@.note_proofs[k]).wf(
                HEIGHT as nat,
            ) by {
                assert(self.in_proof.1@[k].wf());
            }
        }
        true
    }
}

/// The integer that `w` bits of two's complement stand for.
pub open spec fn signed_value(r: nat, w: nat) -> int {
    if r < pow2((w - 1) as nat) {
        r as int
    } else {
        r - pow2(w)
    }
}

/// The value field of a packed word, as an integer.
pub open spec fn delta_value_int(delta: nat) -> int {
    signed_value(delta % pow2(64), 64)
}

/// The energy field of a packed word, as an integer.
pub open spec fn delta_energy_int(delta: nat) -> int {
    signed_value((delta / pow2(64)) % pow2(112), 112)
}

/// Decoding two's complement gives the field element of the integer it
/// stands for.
pub proof fn lemma_decode_signed_int(r: nat, w: nat)
    requires
        0 < w < 254,
        r < pow2(w),
    ensures
        decode_signed(r, w) == field_of_int(signed_value(r, w)),
        -pow2((w - 1) as nat) <= signed_value(r, w) < pow2((w - 1) as nat),
{
    lemma_pow2_adds((w - 1) as nat, 1);
    lemma2_to64();
    crate::native::boundednum::lemma_width_below_modulus(w);
    if r < pow2((w - 1) as nat) {
        lemma_small_mod(r, modulus());
    }
}

/// The two signed fields of a packed word, as integers and as field
/// elements.
pub proof fn lemma_delta_ints(delta: nat)
    ensures
        delta_value(delta) == field_of_int(delta_value_int(delta)),
        delta_energy(delta) == field_of_int(delta_energy_int(delta)),
        -pow2(63) <= delta_value_int(delta) < pow2(63),
        -pow2(111) <= delta_energy_int(delta) < pow2(111),
        delta_index(delta) < pow2(48),
        delta_poolid(delta) < pow2(24),
{
    lemma_pow2_pos(64);
    lemma_pow2_pos(112);
    lemma_pow2_pos(48);
    lemma_pow2_pos(24);
    lemma_mod_bound(delta as int, pow2(64) as int);
    lemma_mod_bound((delta / pow2(64)) as int, pow2(112) as int);
    lemma_mod_bound((delta / pow2(176)) as int, pow2(48) as int);
    lemma_mod_bound((delta / pow2(224)) as int, pow2(24) as int);
    lemma_decode_signed_int(delta % pow2(64), 64);
    lemma_decode_signed_int((delta / pow2(64)) % pow2(112), 112);
}

/// The nullifier of the account with commitment `account_hash` at the
/// position `path`, under the view key `eta`. The position is bound first,
/// with constants of its own.
pub open spec fn spec_nullifier(params: &PoolBN256, account_hash: nat, eta: nat, path: nat) -> nat {
    params.spec_compress().digest(
        seq![
            account_hash,
            params.spec_nullifier_intermediate().digest(seq![account_hash, eta, path]),
        ],
    )
}

/// The hash that a transaction is signed by: the sponge over the input
/// commitments followed by the output commitment.
pub open spec fn spec_tx_hash(params: &PoolBN256, in_hash: Seq<nat>, out_commitment: nat) -> nat {
    params.spec_sponge().sponge_digest(in_hash.push(out_commitment))
}

/// The commitment of the outputs: the root of the tree over them.
pub open spec fn spec_out_commitment_hash(params: &PoolBN256, items: Seq<nat>) -> nat {
    merkle_tree_root(params.spec_compress(), items)
}

/// A transaction writes a power of two of leaves.
pub proof fn lemma_out_leaves_pow2()
    ensures
        is_pow2((OUT + 1) as int),
{
    reveal_with_fuel(is_pow2, 9);
}

/// The nullifier of an account at a position of the tree.
pub fn nullifier(account_hash: Num, eta: Num, path: Num, params: &PoolBN256) -> (r: Num)
    ensures
        r@ == spec_nullifier(params, account_hash@, eta@, path@),
{
    let inputs = vec![account_hash, eta, path];
    proof {
        assert(nums_view(inputs@) =~= seq![account_hash@, eta@, path@]);
    }
    let intermediate_hash = poseidon(inputs.as_slice(), params.nullifier_intermediate());
    poseidon_pair(account_hash, intermediate_hash, params.compress())
}

/// The commitment of a note.
pub fn note_hash(note: Note, params: &PoolBN256) -> (r: Num)
    ensures
        r@ == note@.hash(params),
{
    note.hash(params)
}

/// The commitment of an account.
pub fn accout_hash(ac: Account, params: &PoolBN256) -> (r: Num)
    ensures
        r@ == ac@.hash(params),
{
    ac.hash(params)
}

/// The hash that a transaction is signed by.
pub fn tx_hash(in_hash: &[Num], out_commitment: Num, params: &PoolBN256) -> (r: Num)
    ensures
        r@ == spec_tx_hash(params, nums_view(in_hash@), out_commitment@),
{
    let mut data: Vec<Num> = Vec::new();
    let mut i: usize = 0;
    while i < in_hash.len()
        invariant
            i <= in_hash@.len(),
            data@ == in_hash@.take(i as int),
        decreases in_hash@.len() - i,
    {
        data.push(in_hash[i]);
        proof {
            assert(data@ =~= in_hash@.take(i + 1));
        }
        i += 1;
    }
    data.push(out_commitment);
    proof {
        assert(in_hash@.take(in_hash@.len() as int) =~= in_hash@);
        assert(nums_view(data@) =~= nums_view(in_hash@).push(out_commitment@));
    }
    poseidon_sponge(data.as_slice(), params.sponge())
}

/// Signs a transaction hash with the spending key.
pub fn tx_sign(sk: Scalar, tx_hash: Num, params: &PoolBN256) -> (r: (Scalar, Num))
    ensures
        (r.0@, r.1@) == params.spec_eddsa().signature(sk@, tx_hash@),
{
    params.eddsa().sign(&sk, &tx_hash, params.jubjub())
}

/// Checks the signature `(s, r)` of a transaction hash under the public key
/// `xsk`.
pub fn tx_verify(s: Scalar, r: Num, xsk: Num, tx_hash: Num, params: &PoolBN256) -> (ok: bool)
    ensures
        ok == params.spec_eddsa().signature_valid(s@, r@, xsk@, tx_hash@),
{
    params.eddsa().verify(&s, &r, &xsk, &tx_hash, params.jubjub())
}

/// The commitment of the outputs of one transaction: the root of the tree
/// over the account commitment and the note commitments.
pub fn out_commitment_hash(items: &[Num], params: &PoolBN256) -> (r: Num)
    requires
        items@.len() == OUT + 1,
    ensures
        r@ == spec_out_commitment_hash(params, nums_view(items@)),
{
    proof {
        lemma_out_leaves_pow2();
    }
    poseidon_merkle_tree_root(items, params.compress())
}

/// Whether the field element `n`, read as a signed integer, fits in `w` bits
/// of two's complement: it stands for a value from -2^(w-1) to 2^(w-1)-1.
pub open spec fn signed_in_range(n: nat, w: nat) -> bool {
    n < pow2((w - 1) as nat) || modulus() - n <= pow2((w - 1) as nat)
}

/// The `w` bits of two's complement that stand for the field element `n`.
pub open spec fn encode_signed(n: nat, w: nat) -> nat {
    if n < pow2((w - 1) as nat) {
        n
    } else {
        (pow2(w) - (modulus() - n)) as nat
    }
}

/// The field element that `w` bits of two's complement stand for.
pub open spec fn decode_signed(r: nat, w: nat) -> nat {
    if r < pow2((w - 1) as nat) {
        r
    } else {
        field_sub(r, pow2(w))
    }
}

/// The packed word: value, energy, index and pool id, lowest bits first.
pub open spec fn delta_pack(v: nat, e: nat, index: nat, poolid: nat) -> nat {
    encode_signed(v, 64) + encode_signed(e, 112) * pow2(64) + index * pow2(176) + poolid * pow2(
        224,
    )
}

/// The signed value field of a packed word.
pub open spec fn delta_value(delta: nat) -> nat {
    decode_signed(delta % pow2(64), 64)
}

/// The signed energy field of a packed word.
pub open spec fn delta_energy(delta: nat) -> nat {
    decode_signed((delta / pow2(64)) % pow2(112), 112)
}

/// The index field of a packed word.
pub open spec fn delta_index(delta: nat) -> nat {
    (delta / pow2(176)) % pow2(48)
}

/// The pool id field of a packed word.
pub open spec fn delta_poolid(delta: nat) -> nat {
    (delta / pow2(224)) % pow2(24)
}

/// Whether the four parts can be packed.
pub open spec fn delta_parts_in_range(v: nat, e: nat, index: nat, poolid: nat) -> bool {
    &&& signed_in_range(v, 64)
    &&& signed_in_range(e, 112)
    &&& index < pow2(48)
    &&& poolid < pow2(24)
}

/// The powers of two that the layout of the packed word is made of.
pub proof fn lemma_delta_pows()
    ensures
        pow2(23) == 8388608,
        pow2(24) == 16777216,
        pow2(47) == 140737488355328,
        pow2(48) == 281474976710656,
        pow2(63) == 9223372036854775808,
        pow2(64) == 18446744073709551616,
        pow2(111) == 2596148429267413814265248164610048,
        pow2(112) == 5192296858534827628530496329220096,
        pow2(160) == 1461501637330902918203684832716283019655932542976,
        pow2(176) == 95780971304118053647396689196894323976171195136475136,
        pow2(224) == 26959946667150639794667015087019630673637144422540572481103610249216,
        pow2(248)
            == 452312848583266388373324160190187140051835877600158453279131187530910662656,
        pow2(248) < modulus(),
{
    lemma2_to64();
    lemma2_to64_rest();
    lemma_pow2_adds(64, 47);
    lemma_pow2_adds(64, 48);
    lemma_pow2_adds(112, 48);
    lemma_pow2_adds(112, 64);
    lemma_pow2_adds(176, 48);
    lemma_pow2_adds(224, 24);
}

/// Unpacking a packed word gives back the four parts it was made of.
pub proof fn lemma_parse_make_delta(v: nat, e: nat, index: nat, poolid: nat)
    requires
        v < modulus(),
        e < modulus(),
        delta_parts_in_range(v, e, index, poolid),
    ensures
        delta_pack(v, e, index, poolid) < pow2(248),
        delta_value(delta_pack(v, e, index, poolid)) == v,
        delta_energy(delta_pack(v, e, index, poolid)) == e,
        delta_index(delta_pack(v, e, index, poolid)) == index,
        delta_poolid(delta_pack(v, e, index, poolid)) == poolid,
{
    lemma_delta_pows();
    let d = delta_pack(v, e, index, poolid);
    let ev = encode_signed(v, 64);
    let ee = encode_signed(e, 112);
    assert(ev < pow2(64));
    assert(ee < pow2(112));
    let q1 = ee + index * pow2(112) + poolid * pow2(160);
    lemma_fundamental_div_mod_converse(d as int, pow2(64) as int, q1 as int, ev as int);
    let q2 = index + poolid * pow2(48);
    lemma_fundamental_div_mod_converse(q1 as int, pow2(112) as int, q2 as int, ee as int);
    lemma_fundamental_div_mod_converse(d as int, pow2(176) as int, q2 as int, (ev + ee * pow2(64)) as int);
    lemma_fundamental_div_mod_converse(q2 as int, pow2(48) as int, poolid as int, index as int);
    lemma_fundamental_div_mod_converse(
        d as int,
        pow2(224) as int,
        poolid as int,
        (ev + ee * pow2(64) + index * pow2(176)) as int,
    );
    lemma_small_mod(poolid, pow2(24));
    lemma_decode_encode(v, 64);
    lemma_decode_encode(e, 112);
}

/// Decoding the two's complement of a field element gives it back.
pub proof fn lemma_decode_encode(n: nat, w: nat)
    requires
        n < modulus(),
        0 < w < 254,
        signed_in_range(n, w),
    ensures
        encode_signed(n, w) < pow2(w),
        decode_signed(encode_signed(n, w), w) == n,
{
    lemma_pow2_adds((w - 1) as nat, 1);
    lemma2_to64();
    crate::native::boundednum::lemma_width_below_modulus(w);
    let h = pow2((w - 1) as nat);
    assert(pow2(w) == 2 * h);
    if n < h {
    } else {
        let r = encode_signed(n, w);
        assert(r == 2 * h - (modulus() - n));
        assert(r >= h);
        lemma_fundamental_div_mod_converse(r - pow2(w), modulus() as int, -1, n as int);
    }
}

/// Splits off the `len` lowest bits of `n` and leaves the bits above them.
fn take_low(n: &mut U256, len: u32) -> (r: U256)
    requires
        len < 256,
    ensures
        r@ == old(n)@ % pow2(len as nat),
        final(n)@ == old(n)@ / pow2(len as nat),
{
    let t = *n;
    *n = t.shr(len);
    t.low_bits(len)
}

/// Reads an unsigned field of `len` bits off the low end of `n`.
fn parse_uint(n: &mut U256, len: u32) -> (r: Num)
    requires
        len < 254,
    ensures
        r@ == old(n)@ % pow2(len as nat),
        final(n)@ == old(n)@ / pow2(len as nat),
{
    let ghost before = n@;
    let r = take_low(n, len);
    proof {
        lemma_pow2_pos(len as nat);
        lemma_mod_bound(before as int, pow2(len as nat) as int);
        crate::native::boundednum::lemma_width_below_modulus(len as nat);
    }
    Num::from_uint_unchecked(r)
}

/// Reads a signed field of `len` bits off the low end of `n`.
fn parse_int(n: &mut U256, len: u32) -> (r: Num)
    requires
        0 < len < 254,
    ensures
        r@ == decode_signed(old(n)@ % pow2(len as nat), len as nat),
        final(n)@ == old(n)@ / pow2(len as nat),
{
    let r = parse_uint(n, len);
    if r.to_uint().fits_bits(len - 1) {
        r
    } else {
        proof {
            crate::native::boundednum::lemma_width_below_modulus(len as nat);
        }
        let two_component_term = Num::from_uint_unchecked(U256::pow2(len));
        r.sub(&two_component_term)
    }
}

/// Unpacks a delta into value, energy, index and pool id.
///
/// The value and the energy are signed: a field of two's complement with its
/// top bit set comes out as the field element of the negative number.
pub fn parse_delta(delta: Num) -> (r: (Num, Num, Num, Num))
    ensures
        r.0@ == delta_value(delta@),
        r.1@ == delta_energy(delta@),
        r.2@ == delta_index(delta@),
        r.3@ == delta_poolid(delta@),
{
    let mut delta_num = delta.to_uint();
    let v = parse_int(&mut delta_num, BALANCE_SIZE_BITS as u32);
    let e = parse_int(&mut delta_num, ENERGY_SIZE_BITS as u32);
    proof {
        lemma_pow2_pos(64);
        lemma_pow2_pos(112);
        lemma_pow2_pos(48);
        lemma_pow2_adds(64, 112);
        lemma_pow2_adds(176, 48);
        lemma_div_denominator(delta@ as int, pow2(64) as int, pow2(112) as int);
        lemma_div_denominator(delta@ as int, pow2(176) as int, pow2(48) as int);
    }
    let index = parse_uint(&mut delta_num, HEIGHT as u32);
    let poolid = parse_uint(&mut delta_num, POOLID_SIZE_BITS as u32);
    (v, e, index, poolid)
}

/// Appends an unsigned field of `len` bits below the fields already in `s`.
fn make_uint(s: &mut U256, n: Num, len: u32)
    requires
        len < 254,
        n@ < pow2(len as nat),
        old(s)@ * pow2(len as nat) + pow2(len as nat) <= base4(),
    ensures
        final(s)@ == old(s)@ * pow2(len as nat) + n@,
{
    let r = n.to_uint();
    proof {
        lemma_small_mod(s@ * pow2(len as nat), base4());
    }
    *s = s.shl(len).add(&r);
}

/// Whether `n` can be written as a signed field of `len` bits.
fn fits_signed(n: &Num, len: u32) -> (r: bool)
    requires
        0 < len < 254,
    ensures
        r == signed_in_range(n@, len as nat),
{
    let r = n.to_uint();
    if r.fits_bits(len - 1) {
        true
    } else {
        proof {
            lemma_pow2_pos((len - 1) as nat);
        }
        let neg = modulus_uint().sub(&r);
        neg.sub(&U256::one()).fits_bits(len - 1)
    }
}

/// Appends a signed field of `len` bits below the fields already in `s`.
fn make_int(s: &mut U256, n: Num, len: u32)
    requires
        0 < len < 254,
        signed_in_range(n@, len as nat),
        old(s)@ * pow2(len as nat) + pow2(len as nat) <= base4(),
    ensures
        final(s)@ == old(s)@ * pow2(len as nat) + encode_signed(n@, len as nat),
{
    let mut r = n.to_uint();
    proof {
        lemma_small_mod(s@ * pow2(len as nat), base4());
        lemma_decode_encode(n@, len as nat);
        lemma_pow2_pos(len as nat);
    }
    if r.fits_bits(len - 1) {
        *s = s.shl(len).add(&r);
    } else {
        proof {
            lemma_pow2_adds((len - 1) as nat, 1);
            lemma2_to64();
        }
        r = modulus_uint().sub(&r);
        r = U256::pow2(len).sub(&r);
        *s = s.shl(len).add(&r);
    }
}

/// Packs value, energy, index and pool id into a delta.
///
/// The value and the energy are signed: the field element of a negative
/// number is written in two's complement on the width of its field.
pub fn make_delta(v: Num, e: Num, index: Num, poolid: Num) -> (r: Num)
    requires
        delta_parts_in_range(v@, e@, index@, poolid@),
    ensures
        r@ == delta_pack(v@, e@, index@, poolid@),
{
    proof {
        lemma_delta_pows();
        lemma_bases();
        use_type_invariant(&v);
        use_type_invariant(&e);
        lemma_decode_encode(v@, 64);
        lemma_decode_encode(e@, 112);
    }
    let mut s = U256::zero();
    make_uint(&mut s, poolid, POOLID_SIZE_BITS as u32);
    make_uint(&mut s, index, HEIGHT as u32);
    make_int(&mut s, e, ENERGY_SIZE_BITS as u32);
    make_int(&mut s, v, BALANCE_SIZE_BITS as u32);
    Num::from_uint_unchecked(s)
}

/// `make_delta` where the four parts can be packed, nothing otherwise.
pub fn try_make_delta(v: Num, e: Num, index: Num, poolid: Num) -> (r: Option<Num>)
    ensures
        r.is_some() == delta_parts_in_range(v@, e@, index@, poolid@),
        r.is_some() ==> r.unwrap()@ == delta_pack(v@, e@, index@, poolid@),
{
    if fits_signed(&v, BALANCE_SIZE_BITS as u32) && fits_signed(&e, ENERGY_SIZE_BITS as u32)
        && index.to_uint().fits_bits(HEIGHT as u32) && poolid.to_uint().fits_bits(
        POOLID_SIZE_BITS as u32,
    ) {
        Some(make_delta(v, e, index, poolid))
    } else {
        None
    }
}

} // verus!

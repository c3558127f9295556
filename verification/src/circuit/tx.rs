use crate::circuit::account::CAccount;
use crate::circuit::bitify::{
    c_comp, c_from_bits_le, c_into_bits_le, c_into_bits_le_strict, lemma_modulus_bits,
};
use crate::circuit::bool::{bools_view, CBool};
use crate::circuit::cs::CS;
use crate::circuit::key::{c_derive_key_eta, c_derive_key_p_d};
use crate::circuit::note::CNote;
use crate::circuit::num::{cnums_view, CNum};
use crate::circuit::poseidon::{
    c_poseidon, c_poseidon_merkle_proof_root, c_poseidon_merkle_tree_root, c_poseidon_sponge,
    CMerkleProof,
};
use crate::constants::{
    BALANCE_SIZE_BITS, ENERGY_SIZE_BITS, HEIGHT, IN, OUT, POOLID_SIZE_BITS,
};
use crate::native::boundednum::lemma_width_below_modulus;
use crate::native::ecc::{point_decompress, EdwardsPoint};
use crate::native::note::NoteV;
use crate::native::num::{field_neg, modulus, scalar_modulus, Num, Scalar};
use crate::native::params::PoolBN256;
use crate::native::poseidon::ProofV;
use crate::native::tx::{
    decode_signed, delta_energy, delta_energy_int, delta_index, delta_poolid, delta_value,
    delta_value_int, lemma_delta_ints, lemma_delta_pows, lemma_out_leaves_pow2, notes_in_range,
    notes_view, proofs_view, spec_nullifier, spec_out_commitment_hash, spec_tx_hash, tx_verify,
    TransferPub, TransferPubV, TransferSec, TransferSecV,
};
use crate::native::uint::{
    bits_value, lemma_bits_of_subrange, lemma_bits_of_value, lemma_bits_value_bound, lemma_top_bit,
    U256,
};
use crate::circuit::relation::{
    account_spendable, all_owned, distinct_or_dummy, dummy_flags, equal_in_row, equal_pairs,
    equal_pairs_upto, in_hashes, inputs_unique, lemma_consecutive_product_even,
    lemma_energy_term_bound, lemma_equal_in_row_bound, lemma_equal_pairs_bound, lemma_index_bound,
    lemma_spendable_step, lemma_zero_notes_bound, note_hashes, notes_energy, notes_owned,
    notes_spendable, out_commitment, outputs_bound, outputs_unique, owned, proof_indexes, signed,
    sum_values, transfer_relation, view_key, zero_notes, zero_notes_upto,
};
use crate::native::num::{
    field_of_int, lemma_field_add_int, lemma_field_half, lemma_field_mul_int, lemma_field_of_small,
    lemma_field_sub_int, lemma_field_zero,
};
use vstd::arithmetic::div_mod::lemma_small_mod;
use vstd::arithmetic::power2::{lemma2_to64, lemma_pow2_pos, pow2};
use vstd::prelude::*;
use vstd::slice::slice_subrange;

verus! {

/// The nullifier of the account with commitment `in_account_hash` at the
/// position `path`, under the view key `eta`.
pub fn c_nullfifier(in_account_hash: &CNum, eta: &CNum, path: &CNum, params: &PoolBN256) -> (r:
    CNum)
    ensures
        r@ == spec_nullifier(params, in_account_hash@, eta@, path@),
{
    let inputs = vec![*in_account_hash, *eta, *path];
    proof {
        assert(cnums_view(inputs@) =~= seq![in_account_hash@, eta@, path@]);
    }
    let intermediate_hash = c_poseidon(inputs.as_slice(), params.nullifier_intermediate());
    let pair = vec![*in_account_hash, intermediate_hash];
    proof {
        assert(cnums_view(pair@) =~= seq![in_account_hash@, intermediate_hash@]);
    }
    c_poseidon(pair.as_slice(), params.compress())
}

/// The hash that a transaction is signed by.
pub fn c_tx_hash(in_hash: &[CNum], out_commitment: &CNum, params: &PoolBN256) -> (r: CNum)
    ensures
        r@ == spec_tx_hash(params, cnums_view(in_hash@), out_commitment@),
{
    let mut data: Vec<CNum> = Vec::new();
    let mut i: usize = 0;
    while i < in_hash.len()
        invariant
            i <= in_hash@.len(),
            data@ == in_hash@.take(i as int),
        decreases in_hash@.len() - i,
    {
        data.push(in_hash[i]);
        proof {
            assert(data@ =~= in_hash@.take(i + 1));
        }
        i += 1;
    }
    data.push(*out_commitment);
    proof {
        assert(in_hash@.take(in_hash@.len() as int) =~= in_hash@);
        assert(cnums_view(data@) =~= cnums_view(in_hash@).push(out_commitment@));
    }
    c_poseidon_sponge(data.as_slice(), params.sponge())
}

/// Whether `(s, r)` can be checked as a signature under `a` at all: `s` is
/// the least representative of a scalar, and `r` and `a` are first
/// coordinates of points of the prime subgroup.
pub open spec fn signature_well_formed(s: nat, r: nat, a: nat) -> bool {
    &&& s < scalar_modulus()
    &&& point_decompress(a).is_some()
    &&& point_decompress(r).is_some()
}

/// A bit that tells whether `(s, r)` signs `tx_hash` under the public key
/// `a`. The three are constrained to be well formed.
pub fn c_tx_verify(
    cs: &mut CS,
    s: &CNum,
    r: &CNum,
    a: &CNum,
    tx_hash: &CNum,
    params: &PoolBN256,
) -> (ok: CBool)
    ensures
        final(cs).satisfied() == (old(cs).satisfied() && signature_well_formed(s@, r@, a@)),
        ok@ == (s@ < scalar_modulus() && params.spec_eddsa().signature_valid(
            s@,
            r@,
            a@,
            tx_hash@,
        )),
{
    let p_a = EdwardsPoint::subgroup_decompress(&a.get_value(), params.jubjub());
    let p_r = EdwardsPoint::subgroup_decompress(&r.get_value(), params.jubjub());
    match Scalar::from_uint(s.get_value().to_uint()) {
        Some(sv) => {
            cs.enforce(p_a.is_some() && p_r.is_some());
            CBool::allocate(
                tx_verify(sv, r.get_value(), a.get_value(), tx_hash.get_value(), params),
            )
        },
        None => {
            cs.enforce(false);
            CBool::allocate(false)
        },
    }
}

/// The commitment of the outputs of one transaction.
pub fn c_out_commitment_hash(items: &[CNum], params: &PoolBN256) -> (r: CNum)
    requires
        items@.len() == OUT + 1,
    ensures
        r@ == spec_out_commitment_hash(params, cnums_view(items@)),
{
    proof {
        lemma_out_leaves_pow2();
    }
    c_poseidon_merkle_tree_root(items, params.compress())
}

/// The unsigned field that the bits from `start` to `start + len` stand for.
fn c_parse_uint(bits: &[CBool], start: usize, len: usize) -> (r: CNum)
    requires
        0 < len < 254,
        start + len <= bits@.len(),
    ensures
        r@ == bits_value(bools_view(bits@).subrange(start as int, start + len)),
{
    let total = bits.len();
    let part = slice_subrange(bits, start, start + len);
    proof {
        let sub = bools_view(bits@).subrange(start as int, start + len);
        assert(bools_view(part@) =~= sub);
        lemma_bits_value_bound(sub);
        lemma_width_below_modulus(len as nat);
        lemma_small_mod(bits_value(sub), modulus());
    }
    c_from_bits_le(part)
}

/// The signed field that the bits from `start` to `start + len` stand for,
/// in two's complement.
fn c_parse_int(bits: &[CBool], start: usize, len: usize) -> (r: CNum)
    requires
        0 < len < 254,
        start + len <= bits@.len(),
    ensures
        r@ == decode_signed(
            bits_value(bools_view(bits@).subrange(start as int, start + len)),
            len as nat,
        ),
{
    let ghost sub = bools_view(bits@).subrange(start as int, start + len);
    proof {
        lemma_width_below_modulus(len as nat);
        lemma_pow2_pos(len as nat);
        lemma_top_bit(sub);
        lemma_bits_value_bound(sub);
        assert(sub.last() == bits@[start + len - 1]@);
    }
    let total = bits.len();
    let weight = Num::from_uint_unchecked(U256::pow2(len as u32));
    let two_component_term = bits[start + len - 1].to_num().mul_const(&weight).neg();
    let low = c_parse_uint(bits, start, len);
    proof {
        if sub.last() {
            assert(1 * weight@ == weight@);
            lemma_small_mod(weight@, modulus());
            assert(two_component_term@ == field_neg(weight@));
            vstd::arithmetic::div_mod::lemma_fundamental_div_mod_converse(
                -(weight@ as int),
                modulus() as int,
                -1,
                (modulus() - weight@) as int,
            );
            vstd::arithmetic::div_mod::lemma_add_mod_noop(
                (modulus() - weight@) as int,
                low@ as int,
                modulus() as int,
            );
            vstd::arithmetic::div_mod::lemma_mod_multiples_vanish(
                1,
                low@ - weight@,
                modulus() as int,
            );
        } else {
            assert(0 * weight@ == 0);
            lemma_small_mod(0, modulus());
            lemma_small_mod(low@, modulus());
        }
    }
    two_component_term.add(&low)
}

/// Unpacks a delta into value, energy, index and pool id, and constrains it
/// to have no bit above the four fields.
pub fn c_parse_delta(cs: &mut CS, delta: &CNum) -> (r: (CNum, CNum, CNum, CNum))
    ensures
        final(cs).satisfied() == (old(cs).satisfied() && delta@ < pow2(248)),
        r.0@ == delta_value(delta@),
        r.1@ == delta_energy(delta@),
        r.2@ == delta_index(delta@),
        r.3@ == delta_poolid(delta@),
{
    let delta_bits_vec = c_into_bits_le(
        cs,
        delta,
        BALANCE_SIZE_BITS + ENERGY_SIZE_BITS + HEIGHT + POOLID_SIZE_BITS,
    );
    let delta_bits = delta_bits_vec.as_slice();
    proof {
        lemma2_to64();
        lemma_bits_of_subrange(delta@, 248, 0, 64);
        lemma_bits_of_subrange(delta@, 248, 64, 112);
        lemma_bits_of_subrange(delta@, 248, 176, 48);
        lemma_bits_of_subrange(delta@, 248, 224, 24);
        lemma_bits_of_value(delta@ / pow2(0), 64);
        lemma_bits_of_value(delta@ / pow2(64), 112);
        lemma_bits_of_value(delta@ / pow2(176), 48);
        lemma_bits_of_value(delta@ / pow2(224), 24);
    }
    (
        c_parse_int(delta_bits, 0, BALANCE_SIZE_BITS),
        c_parse_int(delta_bits, BALANCE_SIZE_BITS, ENERGY_SIZE_BITS),
        c_parse_uint(delta_bits, BALANCE_SIZE_BITS + ENERGY_SIZE_BITS, HEIGHT),
        c_parse_uint(delta_bits, BALANCE_SIZE_BITS + ENERGY_SIZE_BITS + HEIGHT, POOLID_SIZE_BITS),
    )
}

/// The signals of the public input of a transfer.
#[derive(Clone, Copy, Debug)]
pub struct CTransferPub {
    pub root: CNum,
    pub nullifier: CNum,
    pub out_commit: CNum,
    pub delta: CNum,
    pub memo: CNum,
}

/// The signals of what a transaction spends and creates.
#[derive(Debug)]
pub struct CTx {
    pub input: (CAccount, Vec<CNote>),
    pub output: (CAccount, Vec<CNote>),
}

/// The signals of the secret input of a transfer.
#[derive(Debug)]
pub struct CTransferSec {
    pub tx: CTx,
    pub in_proof: (CMerkleProof<HEIGHT>, Vec<CMerkleProof<HEIGHT>>),
    pub eddsa_s: CNum,
    pub eddsa_r: CNum,
    pub eddsa_a: CNum,
}

/// The notes that a sequence of signals carries.
pub open spec fn cnotes_view(s: Seq<CNote>) -> Seq<NoteV> {
    s.map_values(|n: CNote| n@)
}

/// The paths that a sequence of signals carries.
pub open spec fn cproofs_view<const H: usize>(s: Seq<CMerkleProof<H>>) -> Seq<ProofV> {
    s.map_values(|q: CMerkleProof<H>| q@)
}

impl View for CTransferPub {
    type V = TransferPubV;

    open spec fn view(&self) -> TransferPubV {
        TransferPubV {
            root: self.root@,
            nullifier: self.nullifier@,
            out_commit: self.out_commit@,
            delta: self.delta@,
            memo: self.memo@,
        }
    }
}

impl View for CTransferSec {
    type V = TransferSecV;

    open spec fn view(&self) -> TransferSecV {
        TransferSecV {
            in_account: self.tx.input.0@,
            in_notes: cnotes_view(self.tx.input.1@),
            out_account: self.tx.output.0@,
            out_notes: cnotes_view(self.tx.output.1@),
            account_proof: self.in_proof.0@,
            note_proofs: cproofs_view(self.in_proof.1@),
            eddsa_s: self.eddsa_s@,
            eddsa_r: self.eddsa_r@,
            eddsa_a: self.eddsa_a@,
        }
    }
}

impl CTransferPub {
    /// The signals of a public input given by the witness.
    pub fn allocate(value: &TransferPub) -> (r: Self)
        ensures
            r@ == value@,
    {
        CTransferPub {
            root: CNum::allocate(value.root),
            nullifier: CNum::allocate(value.nullifier),
            out_commit: CNum::allocate(value.out_commit),
            delta: CNum::allocate(value.delta),
            memo: CNum::allocate(value.memo),
        }
    }
}

/// The signals of a sequence of notes given by the witness, each bounded
/// field constrained to its width.
pub fn allocate_notes(cs: &mut CS, value: &[crate::native::note::Note]) -> (r: Vec<CNote>)
    ensures
        final(cs).satisfied() == (old(cs).satisfied() && notes_in_range(notes_view(value@))),
        r@.len() == value@.len(),
        cnotes_view(r@) == notes_view(value@),
{
    let mut notes: Vec<CNote> = Vec::new();
    let mut i: usize = 0;
    let ghost nv = notes_view(value@);
    while i < value.len()
        invariant
            i <= value@.len(),
            nv == notes_view(value@),
            notes@.len() == i,
            cs.satisfied() == (old(cs).satisfied() && notes_in_range(nv.take(i as int))),
            forall|k: int| 0 <= k < i ==> (#[trigger] notes@[k])@ == nv[k],
        decreases value@.len() - i,
    {
        let n = CNote::allocate(cs, &value[i]);
        notes.push(n);
        proof {
            let j = (i + 1) as int;
            if notes_in_range(nv.take(j)) {
                assert forall|k: int| 0 <= k < i implies (#[trigger] nv.take(i as int)[k]).in_range() by {
                    assert(nv.take(j)[k].in_range());
                }
                assert(nv.take(j)[i as int].in_range());
            }
            if notes_in_range(nv.take(i as int)) && value@[i as int].in_range() {
                assert forall|k: int| 0 <= k < j implies (#[trigger] nv.take(j)[k]).in_range() by {
                    if k < i {
                        assert(nv.take(i as int)[k].in_range());
                    }
                }
            }
        }
        i += 1;
    }
    proof {
        assert(nv.take(value@.len() as int) =~= nv);
        assert(cnotes_view(notes@) =~= nv);
    }
    notes
}

/// The signals of a sequence of paths given by the witness.
pub fn allocate_proofs(value: &[crate::native::poseidon::MerkleProof<HEIGHT>]) -> (r: Vec<
    CMerkleProof<HEIGHT>,
>)
    requires
        forall|i: int| 0 <= i < value@.len() ==> (#[trigger] value@[i]).wf(),
    ensures
        r@.len() == value@.len(),
        cproofs_view(r@) == proofs_view(value@),
        forall|i: int| 0 <= i < r@.len() ==> (#[trigger] r@[i]).wf(),
{
    let mut proofs: Vec<CMerkleProof<HEIGHT>> = Vec::new();
    let mut i: usize = 0;
    while i < value.len()
        invariant
            i <= value@.len(),
            proofs@.len() == i,
            forall|k: int| 0 <= k < value@.len() ==> (#[trigger] value@[k]).wf(),
            forall|k: int| 0 <= k < i ==> (#[trigger] proofs@[k]).wf(),
            forall|k: int| 0 <= k < i ==> (#[trigger] proofs@[k])@ == value@[k]@,
        decreases value@.len() - i,
    {
        proofs.push(CMerkleProof::allocate(&value[i]));
        i += 1;
    }
    proof {
        assert(cproofs_view(proofs@) =~= proofs_view(value@));
    }
    proofs
}

impl CTransferSec {
    /// The witness has the shape of a transfer.
    pub open spec fn wf(&self) -> bool {
        &&& self@.wf()
        &&& self.in_proof.0.wf()
        &&& forall|i: int| 0 <= i < self.in_proof.1@.len() ==> (#[trigger] self.in_proof.1@[i]).wf()
    }

    /// The signals of a secret input given by the witness, each bounded
    /// field constrained to its width.
    pub fn allocate(cs: &mut CS, value: &TransferSec) -> (r: Self)
        requires
            value@.wf(),
        ensures
            final(cs).satisfied() == (old(cs).satisfied() && value@.in_range()),
            r@ == value@,
            r.wf(),
    {
        proof {
            assert forall|i: int| 0 <= i < value.in_proof.1@.len() implies (
            #[trigger] value.in_proof.1@[i]).wf() by {
                assert(value@.note_proofs[i].wf(HEIGHT as nat));
            }
        }
        let in_account = CAccount::allocate(cs, &value.tx.input.0);
        let in_notes = allocate_notes(cs, value.tx.input.1.as_slice());
        let out_account = CAccount::allocate(cs, &value.tx.output.0);
        let out_notes = allocate_notes(cs, value.tx.output.1.as_slice());
        let account_proof = CMerkleProof::allocate(&value.in_proof.0);
        let note_proofs = allocate_proofs(value.in_proof.1.as_slice());
        let r = CTransferSec {
            tx: CTx { input: (in_account, in_notes), output: (out_account, out_notes) },
            in_proof: (account_proof, note_proofs),
            eddsa_s: CNum::allocate(value.eddsa_s),
            eddsa_r: CNum::allocate(value.eddsa_r),
            eddsa_a: CNum::allocate(value.eddsa_a),
        };
        proof {
            assert forall|i: int| 0 <= i < IN implies (#[trigger] r@.note_proofs[i]).wf(
                HEIGHT as nat,
            ) by {
                assert(r.in_proof.1@[i].wf());
            }
        }
        r
    }
}

/// The commitments of a sequence of notes.
fn c_note_hashes(notes: &[CNote], params: &PoolBN256) -> (r: Vec<CNum>)
    ensures
        r@.len() == notes@.len(),
        cnums_view(r@) == note_hashes(params, cnotes_view(notes@)),
{
    let mut hashes: Vec<CNum> = Vec::new();
    let mut i: usize = 0;
    while i < notes.len()
        invariant
            i <= notes@.len(),
            hashes@.len() == i,
            forall|k: int| 0 <= k < i ==> (#[trigger] hashes@[k])@ == notes@[k]@.hash(params),
        decreases notes@.len() - i,
    {
        hashes.push(notes[i].hash(params));
        i += 1;
    }
    proof {
        assert(cnums_view(hashes@) =~= note_hashes(params, cnotes_view(notes@)));
    }
    hashes
}

/// The positions that a sequence of paths leads to.
fn c_path_indexes(proofs: &[CMerkleProof<HEIGHT>]) -> (r: Vec<CNum>)
    requires
        forall|i: int| 0 <= i < proofs@.len() ==> (#[trigger] proofs@[i]).wf(),
    ensures
        r@.len() == proofs@.len(),
        cnums_view(r@) == proof_indexes(cproofs_view(proofs@)),
        forall|i: int| 0 <= i < r@.len() ==> (#[trigger] r@[i])@ < pow2(48),
{
    let mut indexes: Vec<CNum> = Vec::new();
    let mut i: usize = 0;
    while i < proofs.len()
        invariant
            i <= proofs@.len(),
            indexes@.len() == i,
            forall|k: int| 0 <= k < proofs@.len() ==> (#[trigger] proofs@[k]).wf(),
            forall|k: int| 0 <= k < i ==> (#[trigger] indexes@[k])@ == proofs@[k]@.index(),
            forall|k: int| 0 <= k < i ==> (#[trigger] indexes@[k])@ < pow2(48),
        decreases proofs@.len() - i,
    {
        proof {
            lemma_index_bound(proofs@[i as int]@);
            lemma_small_mod(proofs@[i as int]@.index(), modulus());
        }
        indexes.push(c_from_bits_le(proofs[i].path.as_slice()));
        i += 1;
    }
    proof {
        assert(cnums_view(indexes@) =~= proof_indexes(cproofs_view(proofs@)));
    }
    indexes
}

/// For each note, a bit that tells whether it carries no value.
fn c_dummy_flags(notes: &[CNote]) -> (r: Vec<CBool>)
    ensures
        r@.len() == notes@.len(),
        bools_view(r@) == dummy_flags(cnotes_view(notes@)),
{
    let mut flags: Vec<CBool> = Vec::new();
    let mut i: usize = 0;
    while i < notes.len()
        invariant
            i <= notes@.len(),
            flags@.len() == i,
            forall|k: int| 0 <= k < i ==> (#[trigger] flags@[k])@ == notes@[k]@.is_dummy(),
        decreases notes@.len() - i,
    {
        flags.push(notes[i].is_dummy_raw().is_zero());
        i += 1;
    }
    proof {
        assert(bools_view(flags@) =~= dummy_flags(cnotes_view(notes@)));
    }
    flags
}

/// Constrains the input notes that carry value to sit at positions that
/// differ: the pairs that break this are counted, and the count is
/// constrained to zero.
fn c_assert_inputs_unique(cs: &mut CS, index: &[CNum], dummy: &[CBool])
    requires
        index@.len() == dummy@.len(),
        index@.len() <= 16,
    ensures
        final(cs).satisfied() == (old(cs).satisfied() && inputs_unique(
            cnums_view(index@),
            bools_view(dummy@),
        )),
{
    let n = index.len();
    let ghost iv = cnums_view(index@);
    let ghost dv = bools_view(dummy@);
    let mut t = CNum::from_const(Num::zero());
    let mut i: usize = 0;
    proof {
        lemma_modulus_bits_small();
    }
    while i < n
        invariant
            i <= n,
            n == index@.len(),
            n == dummy@.len(),
            n <= 16,
            iv == cnums_view(index@),
            dv == bools_view(dummy@),
            t@ <= 16 * i,
            (t@ == 0) == (forall|a: int, b: int|
                0 <= a < b < n && a < i ==> #[trigger] distinct_or_dummy(iv, dv, a, b)),
            1000 < modulus(),
        decreases n - i,
    {
        let mut j: usize = i + 1;
        while j < n
            invariant
                i < j <= n,
                n == index@.len(),
                n == dummy@.len(),
                n <= 16,
                iv == cnums_view(index@),
                dv == bools_view(dummy@),
                t@ <= 16 * i + (j - i - 1),
                (t@ == 0) == (forall|a: int, b: int|
                    0 <= a < b < n && (a < i || (a == i && b < j)) ==> #[trigger] distinct_or_dummy(
                        iv,
                        dv,
                        a,
                        b,
                    )),
                1000 < modulus(),
            decreases n - j,
        {
            let indexes_equal = index[i].sub(&index[j]).is_zero();
            let notes_nodummy = dummy[i].or(&dummy[j]).not();
            let ind = indexes_equal.and(&notes_nodummy).to_num();
            let ghost told = t@;
            proof {
                assert(ind@ == (if distinct_or_dummy(iv, dv, i as int, j as int) {
                    0nat
                } else {
                    1nat
                }));
                lemma_small_mod(told + ind@, modulus());
            }
            t = t.add(&ind);
            j += 1;
        }
        i += 1;
    }
    t.assert_zero(cs);
}

/// The field is larger than any count that a circuit keeps.
proof fn lemma_modulus_bits_small()
    ensures
        1000 < modulus(),
        pow2(64) * 1024 < modulus(),
{
    lemma_delta_pows();
}

/// Constrains the output notes to differ, but for the zero notes: the pairs
/// of equal commitments are counted, and so are the zero notes; the former
/// are constrained to be as many as the pairs of the latter.
fn c_assert_outputs_unique(cs: &mut CS, notes: &[CNote], hashes: &[CNum], params: &PoolBN256)
    requires
        notes@.len() == hashes@.len(),
        notes@.len() <= 128,
        cnums_view(hashes@) == note_hashes(params, cnotes_view(notes@)),
    ensures
        final(cs).satisfied() == (old(cs).satisfied() && outputs_unique(
            params,
            cnotes_view(notes@),
        )),
{
    let n = notes.len();
    let ghost h = cnums_view(hashes@);
    let ghost nv = cnotes_view(notes@);
    let mut t = CNum::from_const(Num::zero());
    let mut out_note_zero_num = CNum::from_const(Num::zero());
    let mut i: usize = 0;
    proof {
        lemma_modulus_bits_small();
    }
    while i < n
        invariant
            i <= n,
            n == notes@.len(),
            n == hashes@.len(),
            n <= 128,
            h == cnums_view(hashes@),
            nv == cnotes_view(notes@),
            t@ == equal_pairs_upto(h, i as int),
            out_note_zero_num@ == zero_notes_upto(nv, i as int),
            1000 * 1000 < modulus(),
        decreases n - i,
    {
        proof {
            lemma_zero_notes_bound(nv, i as int);
            lemma_equal_pairs_bound(h, i as int);
            lemma_small_mod(zero_notes_upto(nv, i + 1), modulus());
        }
        out_note_zero_num = out_note_zero_num.add(&notes[i].is_zero().to_num());
        let mut j: usize = i + 1;
        while j < n
            invariant
                i < j <= n,
                n == notes@.len(),
                n == hashes@.len(),
                n <= 128,
                h == cnums_view(hashes@),
                t@ == equal_pairs_upto(h, i as int) + equal_in_row(h, i as int, j as int),
                equal_pairs_upto(h, i as int) <= 128 * i,
                1000 * 1000 < modulus(),
            decreases n - j,
        {
            proof {
                lemma_equal_in_row_bound(h, i as int, j as int);
                lemma_equal_in_row_bound(h, i as int, j + 1);
                lemma_small_mod(
                    equal_pairs_upto(h, i as int) + equal_in_row(h, i as int, j + 1),
                    modulus(),
                );
            }
            t = t.add(&hashes[i].sub(&hashes[j]).is_zero().to_num());
            j += 1;
        }
        i += 1;
    }
    let ghost e = equal_pairs(h);
    let ghost z = zero_notes(nv);
    proof {
        lemma_zero_notes_bound(nv, n as int);
        lemma_equal_pairs_bound(h, n as int);
        lemma_consecutive_product_even(z);
        lemma_field_of_small(z);
        lemma_small_mod(1, modulus());
        lemma_field_sub_int(z as int, 1);
        lemma_field_mul_int(z as int, z - 1);
        assert(z * (z - 1) <= 128 * 128) by (nonlinear_arith)
            requires
                0 <= z <= 128,
        ;
        lemma_field_of_small((z * (z - 1)) as nat);
        lemma_field_half((z * (z - 1)) as nat);
        lemma_field_of_small(e);
        lemma_field_of_small((z * (z - 1) / 2) as nat);
        lemma_field_sub_int(e as int, z * (z - 1) / 2);
        lemma_field_zero(e - z * (z - 1) / 2);
    }
    let pairs = out_note_zero_num.mul(&out_note_zero_num.sub_const(&Num::one())).mul_const(
        &Num::half(),
    );
    t = t.sub(&pairs);
    t.assert_zero(cs);
}

/// Constrains the address `(d, p_d)` to belong to the view key whose bits
/// are `eta_bits`.
fn c_assert_owned(cs: &mut CS, d: &CNum, p_d: &CNum, eta_bits: &[CBool], params: &PoolBN256)
    requires
        eta_bits@.len() <= 256,
    ensures
        final(cs).satisfied() == (old(cs).satisfied() && owned(
            params,
            d@,
            p_d@,
            bits_value(bools_view(eta_bits@)),
        )),
{
    let q = c_derive_key_p_d(cs, d, eta_bits, params);
    p_d.sub(&q.x).assert_zero(cs);
}

/// Constrains every note to belong to the view key whose bits are `eta_bits`.
fn c_assert_notes_owned(cs: &mut CS, notes: &[CNote], eta_bits: &[CBool], params: &PoolBN256)
    requires
        eta_bits@.len() <= 256,
    ensures
        final(cs).satisfied() == (old(cs).satisfied() && notes_owned(
            params,
            cnotes_view(notes@),
            bits_value(bools_view(eta_bits@)),
        )),
{
    let ghost nv = cnotes_view(notes@);
    let ghost eta = bits_value(bools_view(eta_bits@));
    let mut i: usize = 0;
    while i < notes.len()
        invariant
            i <= notes@.len(),
            nv == cnotes_view(notes@),
            eta == bits_value(bools_view(eta_bits@)),
            eta_bits@.len() <= 256,
            cs.satisfied() == (old(cs).satisfied() && notes_owned(params, nv.take(i as int), eta)),
        decreases notes@.len() - i,
    {
        c_assert_owned(cs, notes[i].d.as_num(), &notes[i].p_d, eta_bits, params);
        proof {
            let j = (i + 1) as int;
            let a = nv.take(i as int);
            let b = nv.take(j);
            if notes_owned(params, b, eta) {
                assert forall|k: int| 0 <= k < a.len() implies owned(
                    params,
                    (#[trigger] a[k]).d,
                    a[k].p_d,
                    eta,
                ) by {
                    assert(b[k] == a[k]);
                }
                assert(b[i as int] == nv[i as int]);
            }
            if notes_owned(params, a, eta) && owned(params, nv[i as int].d, nv[i as int].p_d, eta) {
                assert forall|k: int| 0 <= k < b.len() implies owned(
                    params,
                    (#[trigger] b[k]).d,
                    b[k].p_d,
                    eta,
                ) by {
                    if k < i {
                        assert(b[k] == a[k]);
                    }
                }
            }
        }
        i += 1;
    }
    proof {
        assert(nv.take(notes@.len() as int) =~= nv);
    }
}

/// The energy that a value has accrued between the position `index` and the
/// position `current_index`: their distance times the value.
fn c_accrued(value: &CNum, current_index: &CNum, index: &CNum) -> (r: CNum)
    ensures
        r@ == field_of_int(value@ * (current_index@ - index@)),
{
    proof {
        use_type_invariant(value);
        use_type_invariant(current_index);
        use_type_invariant(index);
        lemma_field_of_small(value@);
        lemma_field_of_small(current_index@);
        lemma_field_of_small(index@);
        lemma_field_sub_int(current_index@ as int, index@ as int);
        lemma_field_mul_int(value@ as int, current_index@ - index@);
    }
    value.mul(&current_index.sub(index))
}

/// Constrains one input note to be in the tree and in the window between
/// the two accounts, unless it carries no value, and gives the energy that
/// it has accrued.
fn c_check_input_note(
    cs: &mut CS,
    root: &CNum,
    note: &CNote,
    note_hash: &CNum,
    proof: &CMerkleProof<HEIGHT>,
    note_index: &CNum,
    note_dummy: &CBool,
    input_index: &CNum,
    output_index: &CNum,
    current_index: &CNum,
    params: &PoolBN256,
) -> (term: CNum)
    requires
        proof.wf(),
        note_hash@ == note@.hash(params),
        note_index@ == proof@.index(),
        note_dummy@ == note@.is_dummy(),
        old(cs).satisfied() ==> input_index@ < pow2(48) && output_index@ < pow2(48),
    ensures
        final(cs).satisfied() == (old(cs).satisfied() && (proof@.root(
            params.spec_compress(),
            note@.hash(params),
        ) == root@ || note@.is_dummy()) && ((input_index@ <= proof@.index() < output_index@)
            || note@.is_dummy())),
        term@ == field_of_int(note@.b * (current_index@ - proof@.index())),
{
    let note_value = note.b.as_num();
    proof {
        lemma_index_bound(proof@);
    }
    let cur_root = c_poseidon_merkle_proof_root(note_hash, proof, params.compress());
    cur_root.is_eq(root).or(note_dummy).assert_const(cs, true);

    let note_index_ok = c_comp(cs, input_index, note_index, HEIGHT).not().and(
        &c_comp(cs, output_index, note_index, HEIGHT),
    );
    note_index_ok.or(note_dummy).assert_const(cs, true);

    c_accrued(note_value, current_index, note_index)
}

/// Constrains every input note to be in the tree and in the window between
/// the two accounts, unless it carries no value, and adds the energy that
/// the notes have accrued to `total_energy`.
fn c_check_input_notes(
    cs: &mut CS,
    root: &CNum,
    notes: &[CNote],
    note_hash: &[CNum],
    proofs: &[CMerkleProof<HEIGHT>],
    index: &[CNum],
    dummy: &[CBool],
    input_index: &CNum,
    output_index: &CNum,
    current_index: &CNum,
    total_energy: CNum,
    params: &PoolBN256,
    Ghost(e0): Ghost<int>,
) -> (r: CNum)
    requires
        notes@.len() <= 16,
        notes@.len() == note_hash@.len(),
        notes@.len() == proofs@.len(),
        notes@.len() == index@.len(),
        notes@.len() == dummy@.len(),
        forall|i: int| 0 <= i < proofs@.len() ==> (#[trigger] proofs@[i]).wf(),
        cnums_view(note_hash@) == note_hashes(params, cnotes_view(notes@)),
        cnums_view(index@) == proof_indexes(cproofs_view(proofs@)),
        bools_view(dummy@) == dummy_flags(cnotes_view(notes@)),
        current_index@ < pow2(48),
        old(cs).satisfied() ==> input_index@ < pow2(48) && output_index@ < pow2(48)
            && notes_in_range(cnotes_view(notes@)),
        total_energy@ == field_of_int(e0),
    ensures
        final(cs).satisfied() == (old(cs).satisfied() && notes_spendable(
            params,
            root@,
            input_index@,
            output_index@,
            cnotes_view(notes@),
            cproofs_view(proofs@),
            notes@.len() as int,
        )),
        r@ == field_of_int(
            e0 + notes_energy(
                cnotes_view(notes@),
                cproofs_view(proofs@),
                current_index@,
                notes@.len() as int,
            ),
        ),
        old(cs).satisfied() ==> -16 * pow2(112) <= notes_energy(
            cnotes_view(notes@),
            cproofs_view(proofs@),
            current_index@,
            notes@.len() as int,
        ) <= 16 * pow2(112),
{
    let n = notes.len();
    let ghost nv = cnotes_view(notes@);
    let ghost pv = cproofs_view(proofs@);
    let ghost cur = current_index@;
    let ghost fits = cs.satisfied();
    let mut total_energy = total_energy;
    let mut i: usize = 0;
    proof {
        lemma_delta_pows();
    }
    while i < n
        invariant
            i <= n,
            n <= 16,
            n == notes@.len(),
            n == note_hash@.len(),
            n == proofs@.len(),
            n == index@.len(),
            n == dummy@.len(),
            nv == cnotes_view(notes@),
            pv == cproofs_view(proofs@),
            cur == current_index@,
            fits == old(cs).satisfied(),
            forall|k: int| 0 <= k < proofs@.len() ==> (#[trigger] proofs@[k]).wf(),
            cnums_view(note_hash@) == note_hashes(params, nv),
            cnums_view(index@) == proof_indexes(pv),
            bools_view(dummy@) == dummy_flags(nv),
            cur < pow2(48),
            fits ==> input_index@ < pow2(48) && output_index@ < pow2(48) && notes_in_range(nv),
            cs.satisfied() == (fits && notes_spendable(
                params,
                root@,
                input_index@,
                output_index@,
                nv,
                pv,
                i as int,
            )),
            total_energy@ == field_of_int(e0 + notes_energy(nv, pv, cur, i as int)),
            fits ==> -i * 5192296858534827628530496329220096 <= notes_energy(nv, pv, cur, i as int)
                <= i * 5192296858534827628530496329220096,
            pow2(112) == 5192296858534827628530496329220096,
        decreases n - i,
    {
        proof {
            assert(cnums_view(note_hash@)[i as int] == nv[i as int].hash(params));
            assert(cnums_view(index@)[i as int] == pv[i as int].index());
            assert(bools_view(dummy@)[i as int] == nv[i as int].is_dummy());
            assert(proofs@[i as int].wf());
        }
        let ghost e_before = notes_energy(nv, pv, cur, i as int);
        let ghost step = nv[i as int].b * (cur - pv[i as int].index());
        let term = c_check_input_note(
            cs,
            root,
            &notes[i],
            &note_hash[i],
            &proofs[i],
            &index[i],
            &dummy[i],
            input_index,
            output_index,
            current_index,
            params,
        );
        proof {
            lemma_field_add_int(e0 + e_before, step);
            lemma_spendable_step(params, root@, input_index@, output_index@, nv, pv, i as int);
            assert(notes_energy(nv, pv, cur, i + 1) == e_before + step);
            if fits {
                assert(nv[i as int].in_range());
                lemma_index_bound(pv[i as int]);
                lemma_energy_term_bound(nv[i as int].b, cur, pv[i as int].index());
            }
        }
        total_energy = total_energy.add(&term);
        i += 1;
    }
    total_energy
}

/// Constrains value to be conserved: the public delta, what the input
/// account and notes hold, less what the output account and notes hold, add
/// up to zero.
fn c_assert_balance(
    cs: &mut CS,
    delta_value: &CNum,
    in_account: &CAccount,
    in_notes: &[CNote],
    out_account: &CAccount,
    out_notes: &[CNote],
    Ghost(dv): Ghost<int>,
)
    requires
        delta_value@ == field_of_int(dv),
        -pow2(63) <= dv < pow2(63),
        in_notes@.len() <= 128,
        out_notes@.len() <= 128,
        old(cs).satisfied() ==> in_account@.in_range() && out_account@.in_range() && notes_in_range(
            cnotes_view(in_notes@),
        ) && notes_in_range(cnotes_view(out_notes@)),
    ensures
        final(cs).satisfied() == (old(cs).satisfied() && dv + in_account@.b - out_account@.b
            + sum_values(cnotes_view(in_notes@)) - sum_values(cnotes_view(out_notes@)) == 0),
{
    let ghost iv = cnotes_view(in_notes@);
    let ghost ov = cnotes_view(out_notes@);
    let ghost fits = cs.satisfied();
    let in_b = in_account.b.as_num();
    let out_b = out_account.b.as_num();
    proof {
        lemma_delta_pows();
        use_type_invariant(in_b);
        use_type_invariant(out_b);
        lemma_field_of_small(in_b@);
        lemma_field_of_small(out_b@);
        lemma_field_sub_int(in_b@ as int, out_b@ as int);
        lemma_field_add_int(dv, in_b@ - out_b@);
        assert(iv.take(0) =~= Seq::<NoteV>::empty());
        assert(ov.take(0) =~= Seq::<NoteV>::empty());
    }
    let mut total_value = delta_value.add(&in_b.sub(out_b));
    let ghost base = dv + in_b@ - out_b@;
    let mut i: usize = 0;
    while i < in_notes.len()
        invariant
            i <= in_notes@.len(),
            in_notes@.len() <= 128,
            iv == cnotes_view(in_notes@),
            fits ==> notes_in_range(iv),
            total_value@ == field_of_int(base + sum_values(iv.take(i as int))),
            fits ==> sum_values(iv.take(i as int)) <= i * (pow2(64) - 1),
            pow2(64) == 18446744073709551616,
        decreases in_notes@.len() - i,
    {
        let b = in_notes[i].b.as_num();
        proof {
            assert(iv.take(i + 1).drop_last() =~= iv.take(i as int));
            assert(iv.take(i + 1).last() == iv[i as int]);
            use_type_invariant(b);
            lemma_field_of_small(b@);
            lemma_field_add_int(base + sum_values(iv.take(i as int)), b@ as int);
            if fits {
                assert(iv[i as int].in_range());
            }
        }
        total_value = total_value.add(b);
        i += 1;
    }
    proof {
        assert(iv.take(in_notes@.len() as int) =~= iv);
    }
    let ghost base2 = base + sum_values(iv);
    let mut k: usize = 0;
    while k < out_notes.len()
        invariant
            k <= out_notes@.len(),
            out_notes@.len() <= 128,
            ov == cnotes_view(out_notes@),
            fits ==> notes_in_range(ov),
            total_value@ == field_of_int(base2 - sum_values(ov.take(k as int))),
            fits ==> sum_values(ov.take(k as int)) <= k * (pow2(64) - 1),
            pow2(64) == 18446744073709551616,
        decreases out_notes@.len() - k,
    {
        let b = out_notes[k].b.as_num();
        proof {
            assert(ov.take(k + 1).drop_last() =~= ov.take(k as int));
            assert(ov.take(k + 1).last() == ov[k as int]);
            use_type_invariant(b);
            lemma_field_of_small(b@);
            lemma_field_sub_int(base2 - sum_values(ov.take(k as int)), b@ as int);
            if fits {
                assert(ov[k as int].in_range());
            }
        }
        total_value = total_value.sub(b);
        k += 1;
    }
    proof {
        assert(ov.take(out_notes@.len() as int) =~= ov);
        if fits {
            lemma_field_zero(base2 - sum_values(ov));
        }
    }
    total_value.assert_zero(cs);
}

/// One signal followed by a sequence of signals.
fn c_prepend(first: &CNum, rest: &[CNum]) -> (r: Vec<CNum>)
    ensures
        r@.len() == rest@.len() + 1,
        cnums_view(r@) == seq![first@] + cnums_view(rest@),
{
    let mut all: Vec<CNum> = Vec::new();
    all.push(*first);
    let mut i: usize = 0;
    while i < rest.len()
        invariant
            i <= rest@.len(),
            all@.len() == i + 1,
            all@[0]@ == first@,
            forall|k: int| 1 <= k <= i ==> (#[trigger] all@[k])@ == rest@[k - 1]@,
        decreases rest@.len() - i,
    {
        all.push(rest[i]);
        i += 1;
    }
    proof {
        assert(cnums_view(all@) =~= seq![first@] + cnums_view(rest@));
    }
    all
}

/// Hashes the outputs, constrains the output notes to differ, but for the
/// zero notes, and binds the outputs to their public commitment, which it
/// gives.
fn c_check_outputs(cs: &mut CS, p: &CTransferPub, s: &CTransferSec, params: &PoolBN256) -> (out_ch:
    CNum)
    requires
        s.wf(),
    ensures
        final(cs).satisfied() == (old(cs).satisfied() && outputs_bound(params, p@, s@)),
        out_ch@ == out_commitment(params, s@),
{
    //build output hashes
    let out_account_hash = s.tx.output.0.hash(params);
    let out_note_hash = c_note_hashes(s.tx.output.1.as_slice(), params);
    let out_hash = c_prepend(&out_account_hash, out_note_hash.as_slice());

    //assert out notes are unique or zero
    c_assert_outputs_unique(cs, s.tx.output.1.as_slice(), out_note_hash.as_slice(), params);

    //check output
    let out_ch = c_out_commitment_hash(out_hash.as_slice(), params);
    out_ch.sub(&p.out_commit).assert_zero(cs);
    out_ch
}

/// Derives the view key of the signer, which it gives, and constrains both
/// accounts and every input note to belong to it.
fn c_check_owners(cs: &mut CS, s: &CTransferSec, params: &PoolBN256) -> (eta: CNum)
    ensures
        final(cs).satisfied() == (old(cs).satisfied() && all_owned(params, s@)),
        eta@ == view_key(params, s@),
{
    //build decryption key
    let eta = c_derive_key_eta(&s.eddsa_a, params);
    let eta_bits = c_into_bits_le_strict(cs, &eta);
    proof {
        use_type_invariant(&eta);
    }

    //check ownership
    c_assert_owned(cs, s.tx.input.0.d.as_num(), &s.tx.input.0.p_d, eta_bits.as_slice(), params);
    c_assert_owned(cs, s.tx.output.0.d.as_num(), &s.tx.output.0.p_d, eta_bits.as_slice(), params);
    c_assert_notes_owned(cs, s.tx.input.1.as_slice(), eta_bits.as_slice(), params);
    eta
}

/// Constrains the input account: its nullifier, its place in the tree
/// unless nobody has used it yet, and the order of the three indexes. Gives
/// the energy that the account has accrued.
fn c_check_input_account(
    cs: &mut CS,
    p: &CTransferPub,
    s: &CTransferSec,
    in_account_hash: &CNum,
    eta: &CNum,
    current_index: &CNum,
    poolid: &CNum,
    params: &PoolBN256,
) -> (term: CNum)
    requires
        s.wf(),
        in_account_hash@ == s@.in_account.hash(params),
        eta@ == view_key(params, s@),
        current_index@ == delta_index(p@.delta),
        poolid@ == delta_poolid(p@.delta),
        old(cs).satisfied() ==> s@.in_account.in_range() && s@.out_account.in_range(),
    ensures
        final(cs).satisfied() == (old(cs).satisfied() && account_spendable(params, p@, s@)),
        term@ == field_of_int(s@.in_account.b * (current_index@ - s@.account_proof.index())),
{
    let input_index = s.tx.input.0.i.as_num();
    let output_index = s.tx.output.0.i.as_num();
    let input_value = s.tx.input.0.b.as_num();
    proof {
        lemma_delta_ints(p@.delta);
        lemma_index_bound(s@.account_proof);
        lemma_small_mod(s@.account_proof.index(), modulus());
    }
    let input_pos_index = c_from_bits_le(s.in_proof.0.path.as_slice());

    p.nullifier.sub(&c_nullfifier(in_account_hash, eta, &input_pos_index, params)).assert_zero(cs);

    let cur_root = c_poseidon_merkle_proof_root(in_account_hash, &s.in_proof.0, params.compress());
    cur_root.is_eq(&p.root).or(&s.tx.input.0.is_initial(poolid)).assert_const(cs, true);

    c_comp(cs, input_index, output_index, HEIGHT).assert_const(cs, false);
    c_comp(cs, output_index, current_index, HEIGHT).assert_const(cs, false);

    c_accrued(input_value, current_index, &input_pos_index)
}

/// Binds the memo to the circuit and constrains the signature to sign the
/// hash of the transaction.
fn c_check_signature(
    cs: &mut CS,
    p: &CTransferPub,
    s: &CTransferSec,
    in_hash: &[CNum],
    out_ch: &CNum,
    params: &PoolBN256,
)
    requires
        cnums_view(in_hash@) == in_hashes(params, s@),
        out_ch@ == out_commitment(params, s@),
    ensures
        final(cs).satisfied() == (old(cs).satisfied() && p@.memo + 1 != modulus() && signed(
            params,
            s@,
        )),
{
    //bind msg_hash to the circuit
    proof {
        use_type_invariant(&p.memo);
        lemma_small_mod(1, modulus());
        if p@.memo + 1 < modulus() {
            lemma_small_mod(p@.memo + 1, modulus());
        } else {
            vstd::arithmetic::div_mod::lemma_mod_self_0(modulus() as int);
        }
    }
    p.memo.add_const(&Num::one()).assert_nonzero(cs);

    //build tx hash
    let tx_hash = c_tx_hash(in_hash, out_ch, params);

    //check signature
    c_tx_verify(cs, &s.eddsa_s, &s.eddsa_r, &s.eddsa_a, &tx_hash, params).assert_const(cs, true);
}

/// Constrains energy to be accrued: what has been summed, with what the
/// input account held and less what the output account holds, is zero, and
/// is so without wrapping around the field.
fn c_assert_energy(
    cs: &mut CS,
    total_energy: CNum,
    in_account: &CAccount,
    out_account: &CAccount,
    Ghost(e): Ghost<int>,
)
    requires
        total_energy@ == field_of_int(e),
        old(cs).satisfied() ==> -32 * pow2(112) <= e <= 32 * pow2(112) && in_account@.in_range()
            && out_account@.in_range(),
    ensures
        final(cs).satisfied() == (old(cs).satisfied() && e + in_account@.e - out_account@.e == 0),
{
    let in_e = in_account.e.as_num();
    let out_e = out_account.e.as_num();
    proof {
        lemma_delta_pows();
        use_type_invariant(in_e);
        use_type_invariant(out_e);
        lemma_field_of_small(in_e@);
        lemma_field_of_small(out_e@);
        lemma_field_add_int(e, in_e@ as int);
        lemma_field_sub_int(e + in_e@, out_e@ as int);
        if cs.satisfied() {
            lemma_field_zero(e + in_e@ - out_e@);
        }
        lemma_modulus_bits();
        lemma2_to64();
        lemma_pow2_pos(252);
    }
    let mut total_enegry = total_energy.add(in_e);
    total_enegry = total_enegry.sub(out_e);
    total_enegry.assert_zero(cs);

    //no overflow when the energy is summed
    c_into_bits_le(cs, &total_enegry, crate::native::num::MODULUS_BITS - 2);
}

/// The constraints of a transfer, on signals that fit in their widths
/// wherever the system is satisfied so far, as those that `allocate` gives
/// do.
///
/// The public delta is unpacked; the inputs and the outputs are hashed; the
/// input notes are constrained to differ and so are the output notes; the
/// outputs are bound to their public commitment; every input and the output
/// account are constrained to belong to the signer; the nullifier is bound
/// to the input account and its position; the inputs are constrained to be
/// in the tree; the memo is bound; the signature is checked; value is
/// conserved and energy is accrued.
pub fn c_transfer(cs: &mut CS, p: &CTransferPub, s: &CTransferSec, params: &PoolBN256)
    requires
        s.wf(),
        old(cs).satisfied() ==> s@.in_range(),
    ensures
        final(cs).satisfied() == (old(cs).satisfied() && transfer_relation(params, p@, s@)),
{
    //parse delta
    let (delta_value, delta_energy, current_index, poolid) = c_parse_delta(cs, &p.delta);
    proof {
        lemma_delta_ints(p@.delta);
        lemma_delta_pows();
    }
    let input_index = s.tx.input.0.i.as_num();
    let output_index = s.tx.output.0.i.as_num();

    //build input hashes
    let in_account_hash = s.tx.input.0.hash(params);
    let in_note_hash = c_note_hashes(s.tx.input.1.as_slice(), params);
    let in_hash = c_prepend(&in_account_hash, in_note_hash.as_slice());

    //assert input note indexes are unique
    let in_note_index = c_path_indexes(s.in_proof.1.as_slice());
    let in_note_dummy = c_dummy_flags(s.tx.input.1.as_slice());
    c_assert_inputs_unique(cs, in_note_index.as_slice(), in_note_dummy.as_slice());

    let out_ch = c_check_outputs(cs, p, s, params);
    let eta = c_check_owners(cs, s, params);

    //build merkle proofs and check nullifier
    let account_energy = c_check_input_account(
        cs,
        p,
        s,
        &in_account_hash,
        &eta,
        &current_index,
        &poolid,
        params,
    );
    let ghost e0 = delta_energy_int(p@.delta) + s@.in_account.b * (current_index@
        - s@.account_proof.index());
    proof {
        lemma_field_add_int(
            delta_energy_int(p@.delta),
            s@.in_account.b * (current_index@ - s@.account_proof.index()),
        );
        if old(cs).satisfied() {
            lemma_index_bound(s@.account_proof);
            lemma_energy_term_bound(s@.in_account.b, current_index@, s@.account_proof.index());
        }
    }
    let mut total_enegry = delta_energy.add(&account_energy);

    total_enegry = c_check_input_notes(
        cs,
        &p.root,
        s.tx.input.1.as_slice(),
        in_note_hash.as_slice(),
        s.in_proof.1.as_slice(),
        in_note_index.as_slice(),
        in_note_dummy.as_slice(),
        input_index,
        output_index,
        &current_index,
        total_enegry,
        params,
        Ghost(e0),
    );

    c_check_signature(cs, p, s, in_hash.as_slice(), &out_ch, params);

    //check balances
    c_assert_balance(
        cs,
        &delta_value,
        &s.tx.input.0,
        s.tx.input.1.as_slice(),
        &s.tx.output.0,
        s.tx.output.1.as_slice(),
        Ghost(delta_value_int(p@.delta)),
    );

    //final check energy
    let ghost e1 = e0 + notes_energy(
        s@.in_notes,
        s@.note_proofs,
        current_index@,
        s@.in_notes.len() as int,
    );
    c_assert_energy(cs, total_enegry, &s.tx.input.0, &s.tx.output.0, Ghost(e1));
}

/// Whether a witness of the right shape satisfies the constraints of a
/// transfer: every bounded field fits in its width, and the transfer relation
/// holds.
pub fn transfer_satisfied(p: &TransferPub, s: &TransferSec, params: &PoolBN256) -> (r: bool)
    requires
        s@.wf(),
    ensures
        r == (s@.in_range() && transfer_relation(params, p@, s@)),
{
    let mut cs = CS::new();
    let cp = CTransferPub::allocate(p);
    let csec = CTransferSec::allocate(&mut cs, s);
    c_transfer(&mut cs, &cp, &csec, params);
    cs.is_satisfied()
}

} // verus!

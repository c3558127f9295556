use crate::constants::HEIGHT;
use crate::native::ecc::point_decompress;
use crate::native::key::{spec_derive_key_eta, spec_derive_key_p_d, spec_diversifier_hash};
use crate::native::note::NoteV;
use crate::native::num::{modulus, scalar_modulus};
use crate::native::params::PoolBN256;
use crate::native::poseidon::ProofV;
use crate::native::tx::{
    delta_energy_int, delta_index, delta_poolid, delta_value_int, lemma_delta_pows,
    spec_nullifier, spec_out_commitment_hash, spec_tx_hash, TransferPubV, TransferSecV,
};
use crate::native::uint::lemma_bits_value_bound;
use vstd::arithmetic::power2::pow2;
use vstd::prelude::*;

verus! {

/// The commitments of a sequence of notes.
pub open spec fn note_hashes(params: &PoolBN256, notes: Seq<NoteV>) -> Seq<nat> {
    notes.map_values(|n: NoteV| n.hash(params))
}

/// The commitments of what a transaction spends: the account, then the notes.
pub open spec fn in_hashes(params: &PoolBN256, s: TransferSecV) -> Seq<nat> {
    seq![s.in_account.hash(params)] + note_hashes(params, s.in_notes)
}

/// The commitments of what a transaction creates: the account, then the
/// notes.
pub open spec fn out_hashes(params: &PoolBN256, s: TransferSecV) -> Seq<nat> {
    seq![s.out_account.hash(params)] + note_hashes(params, s.out_notes)
}

/// The commitment of the outputs.
pub open spec fn out_commitment(params: &PoolBN256, s: TransferSecV) -> nat {
    spec_out_commitment_hash(params, out_hashes(params, s))
}

/// The view key of the signer.
pub open spec fn view_key(params: &PoolBN256, s: TransferSecV) -> nat {
    spec_derive_key_eta(params, s.eddsa_a)
}

/// The positions `i` and `j` differ, or one of the two notes carries no
/// value.
pub open spec fn distinct_or_dummy(index: Seq<nat>, dummy: Seq<bool>, i: int, j: int) -> bool {
    index[i] != index[j] || dummy[i] || dummy[j]
}

/// No two input notes that carry value sit at the same position.
pub open spec fn inputs_unique(index: Seq<nat>, dummy: Seq<bool>) -> bool {
    forall|i: int, j: int|
        0 <= i < j < index.len() ==> #[trigger] distinct_or_dummy(index, dummy, i, j)
}

/// The positions that the paths lead to.
pub open spec fn proof_indexes(proofs: Seq<ProofV>) -> Seq<nat> {
    proofs.map_values(|q: ProofV| q.index())
}

/// Which notes carry no value.
pub open spec fn dummy_flags(notes: Seq<NoteV>) -> Seq<bool> {
    notes.map_values(|n: NoteV| n.is_dummy())
}

/// How many of `h[i + 1 .. j]` are equal to `h[i]`.
pub open spec fn equal_in_row(h: Seq<nat>, i: int, j: int) -> nat
    decreases j - i,
{
    if j <= i + 1 {
        0
    } else {
        equal_in_row(h, i, j - 1) + (if h[j - 1] == h[i] {
            1nat
        } else {
            0nat
        })
    }
}

/// How many pairs of equal entries of `h` have their first entry below `n`.
pub open spec fn equal_pairs_upto(h: Seq<nat>, n: int) -> nat
    decreases n,
{
    if n <= 0 {
        0
    } else {
        equal_pairs_upto(h, n - 1) + equal_in_row(h, n - 1, h.len() as int)
    }
}

/// How many pairs of entries of `h` are equal.
pub open spec fn equal_pairs(h: Seq<nat>) -> nat {
    equal_pairs_upto(h, h.len() as int)
}

/// How many of the first `n` notes are the zero note.
pub open spec fn zero_notes_upto(notes: Seq<NoteV>, n: int) -> nat
    decreases n,
{
    if n <= 0 {
        0
    } else {
        zero_notes_upto(notes, n - 1) + (if notes[n - 1].is_zero() {
            1nat
        } else {
            0nat
        })
    }
}

/// How many notes are the zero note.
pub open spec fn zero_notes(notes: Seq<NoteV>) -> nat {
    zero_notes_upto(notes, notes.len() as int)
}

/// Every pair of equal output commitments is a pair of zero notes: there are
/// as many of the former as of the latter.
pub open spec fn outputs_unique(params: &PoolBN256, notes: Seq<NoteV>) -> bool {
    equal_pairs(note_hashes(params, notes)) == zero_notes(notes) * (zero_notes(notes) - 1) / 2
}

/// The address `(d, p_d)` belongs to the view key `eta`.
pub open spec fn owned(params: &PoolBN256, d: nat, p_d: nat, eta: nat) -> bool {
    spec_diversifier_hash(params, d) != 0 && spec_derive_key_p_d(params, d, eta).0 == p_d
}

/// Every input note belongs to the view key `eta`.
pub open spec fn notes_owned(params: &PoolBN256, notes: Seq<NoteV>, eta: nat) -> bool {
    forall|i: int| 0 <= i < notes.len() ==> owned(params, (#[trigger] notes[i]).d, notes[i].p_d, eta)
}

/// The note `i` is in the tree, unless it carries no value.
pub open spec fn note_included(
    params: &PoolBN256,
    root: nat,
    notes: Seq<NoteV>,
    proofs: Seq<ProofV>,
    i: int,
) -> bool {
    proofs[i].root(params.spec_compress(), notes[i].hash(params)) == root || notes[i].is_dummy()
}

/// The note `i` was created at a position from `first` up to, but not at,
/// `end`, unless it carries no value.
pub open spec fn note_in_window(
    first: nat,
    end: nat,
    notes: Seq<NoteV>,
    proofs: Seq<ProofV>,
    i: int,
) -> bool {
    (first <= proofs[i].index() < end) || notes[i].is_dummy()
}

/// Every input note is in the tree and in the window between the two
/// accounts, unless it carries no value.
pub open spec fn notes_spendable(
    params: &PoolBN256,
    root: nat,
    first: nat,
    end: nat,
    notes: Seq<NoteV>,
    proofs: Seq<ProofV>,
    n: int,
) -> bool {
    forall|i: int|
        0 <= i < n ==> #[trigger] note_included(params, root, notes, proofs, i) && note_in_window(
            first,
            end,
            notes,
            proofs,
            i,
        )
}

/// The sum of the values of a sequence of notes.
pub open spec fn sum_values(notes: Seq<NoteV>) -> nat
    decreases notes.len(),
{
    if notes.len() == 0 {
        0
    } else {
        sum_values(notes.drop_last()) + notes.last().b
    }
}

/// The energy that the first `n` notes have accrued up to the position
/// `cur`: each its value times the distance from its own position.
pub open spec fn notes_energy(notes: Seq<NoteV>, proofs: Seq<ProofV>, cur: nat, n: int) -> int
    decreases n,
{
    if n <= 0 {
        0
    } else {
        notes_energy(notes, proofs, cur, n - 1) + notes[n - 1].b * (cur - proofs[n - 1].index())
    }
}

/// Value is conserved: what comes in, with the public delta, is what goes
/// out.
pub open spec fn balance_kept(p: TransferPubV, s: TransferSecV) -> bool {
    delta_value_int(p.delta) + s.in_account.b - s.out_account.b + sum_values(s.in_notes)
        - sum_values(s.out_notes) == 0
}

/// Energy is accrued: the output account holds what the input account held,
/// what the inputs have accrued since, and the public delta.
pub open spec fn energy_kept(p: TransferPubV, s: TransferSecV) -> bool {
    delta_energy_int(p.delta) + s.in_account.b * (delta_index(p.delta)
        - s.account_proof.index()) + notes_energy(
        s.in_notes,
        s.note_proofs,
        delta_index(p.delta),
        s.in_notes.len() as int,
    ) + s.in_account.e - s.out_account.e == 0
}

/// The signature is well formed and signs the hash of the transaction.
pub open spec fn signed(params: &PoolBN256, s: TransferSecV) -> bool {
    &&& s.eddsa_s < scalar_modulus()
    &&& point_decompress(s.eddsa_a).is_some()
    &&& point_decompress(s.eddsa_r).is_some()
    &&& params.spec_eddsa().signature_valid(
        s.eddsa_s,
        s.eddsa_r,
        s.eddsa_a,
        spec_tx_hash(params, in_hashes(params, s), out_commitment(params, s)),
    )
}

/// The output notes differ, but for the zero notes, and the outputs are
/// bound to their public commitment.
pub open spec fn outputs_bound(params: &PoolBN256, p: TransferPubV, s: TransferSecV) -> bool {
    outputs_unique(params, s.out_notes) && out_commitment(params, s) == p.out_commit
}

/// Both accounts and every input note belong to the signer.
pub open spec fn all_owned(params: &PoolBN256, s: TransferSecV) -> bool {
    let eta = view_key(params, s);
    &&& owned(params, s.in_account.d, s.in_account.p_d, eta)
    &&& owned(params, s.out_account.d, s.out_account.p_d, eta)
    &&& notes_owned(params, s.in_notes, eta)
}

/// The nullifier is that of the input account at its position; the input
/// account is in the tree, unless nobody has used it yet; the height marker
/// does not go back, nor beyond the current index.
pub open spec fn account_spendable(params: &PoolBN256, p: TransferPubV, s: TransferSecV) -> bool {
    let in_account_hash = s.in_account.hash(params);
    &&& p.nullifier == spec_nullifier(
        params,
        in_account_hash,
        view_key(params, s),
        s.account_proof.index(),
    )
    &&& (s.account_proof.root(params.spec_compress(), in_account_hash) == p.root
        || s.in_account.is_initial(delta_poolid(p.delta)))
    &&& s.in_account.i <= s.out_account.i <= delta_index(p.delta)
}

/// What a transfer proves of its public input `p` and its secret input `s`.
pub open spec fn transfer_relation(params: &PoolBN256, p: TransferPubV, s: TransferSecV) -> bool {
    &&& p.delta < pow2(248)
    &&& inputs_unique(proof_indexes(s.note_proofs), dummy_flags(s.in_notes))
    &&& outputs_bound(params, p, s)
    &&& all_owned(params, s)
    &&& account_spendable(params, p, s)
    &&& notes_spendable(
        params,
        p.root,
        s.in_account.i,
        s.out_account.i,
        s.in_notes,
        s.note_proofs,
        s.in_notes.len() as int,
    )
    &&& p.memo + 1 != modulus()
    &&& signed(params, s)
    &&& balance_kept(p, s)
    &&& energy_kept(p, s)
}

/// The first `i + 1` notes are spendable where the first `i` are and the
/// note `i` is.
pub proof fn lemma_spendable_step(
    params: &PoolBN256,
    root: nat,
    first: nat,
    end: nat,
    notes: Seq<NoteV>,
    proofs: Seq<ProofV>,
    i: int,
)
    requires
        0 <= i,
    ensures
        notes_spendable(params, root, first, end, notes, proofs, i + 1) == (notes_spendable(
            params,
            root,
            first,
            end,
            notes,
            proofs,
            i,
        ) && note_included(params, root, notes, proofs, i) && note_in_window(
            first,
            end,
            notes,
            proofs,
            i,
        )),
{
    if notes_spendable(params, root, first, end, notes, proofs, i + 1) {
        assert(note_included(params, root, notes, proofs, i));
        assert forall|k: int| 0 <= k < i implies #[trigger] note_included(
            params,
            root,
            notes,
            proofs,
            k,
        ) && note_in_window(first, end, notes, proofs, k) by {}
    }
    if notes_spendable(params, root, first, end, notes, proofs, i) && note_included(
        params,
        root,
        notes,
        proofs,
        i,
    ) && note_in_window(first, end, notes, proofs, i) {
        assert forall|k: int| 0 <= k < i + 1 implies #[trigger] note_included(
            params,
            root,
            notes,
            proofs,
            k,
        ) && note_in_window(first, end, notes, proofs, k) by {
            if k < i {
            }
        }
    }
}

/// A row holds at most as many equal entries as it has entries.
pub proof fn lemma_equal_in_row_bound(h: Seq<nat>, i: int, j: int)
    ensures
        equal_in_row(h, i, j) <= (if j > i + 1 {
            j - i - 1
        } else {
            0
        }),
    decreases j - i,
{
    if j > i + 1 {
        lemma_equal_in_row_bound(h, i, j - 1);
    }
}

/// Among at most 128 entries, the rows below `n` hold at most `128 n` pairs.
pub proof fn lemma_equal_pairs_bound(h: Seq<nat>, n: int)
    requires
        h.len() <= 128,
        0 <= n,
    ensures
        equal_pairs_upto(h, n) <= 128 * n,
    decreases n,
{
    if n > 0 {
        lemma_equal_pairs_bound(h, n - 1);
        lemma_equal_in_row_bound(h, n - 1, h.len() as int);
    }
}

/// There are at most as many zero notes as notes.
pub proof fn lemma_zero_notes_bound(notes: Seq<NoteV>, n: int)
    requires
        0 <= n,
    ensures
        zero_notes_upto(notes, n) <= n,
    decreases n,
{
    if n > 0 {
        lemma_zero_notes_bound(notes, n - 1);
    }
}

/// The product of a value and a distance between two positions is below
/// 2^112 in size.
pub proof fn lemma_energy_term_bound(b: nat, cur: nat, idx: nat)
    requires
        b < pow2(64),
        cur < pow2(48),
        idx < pow2(48),
    ensures
        -pow2(112) < b * (cur - idx) < pow2(112),
{
    lemma_delta_pows();
    let d = cur - idx;
    assert(-281474976710656 < d < 281474976710656);
    assert(b * d < 18446744073709551616 * 281474976710656 && b * d > -(18446744073709551616
        * 281474976710656)) by (nonlinear_arith)
        requires
            0 <= b < 18446744073709551616,
            -281474976710656 < d < 281474976710656,
    ;
}

/// The product of a number and the one before it is even.
pub proof fn lemma_consecutive_product_even(z: nat)
    ensures
        (z * (z - 1)) % 2 == 0,
        z * (z - 1) >= 0,
{
    if z % 2 == 0 {
        let k = z / 2;
        assert(z * (z - 1) == 2 * (k * (z - 1))) by (nonlinear_arith)
            requires
                z == 2 * k,
        ;
        assert(k * (z - 1) >= 0) by (nonlinear_arith)
            requires
                k >= 0,
                z == 2 * k,
                z % 2 == 0,
        {
            if z == 0 {
            } else {
            }
        }
    } else {
        let k = (z - 1) / 2;
        assert(z * (z - 1) == 2 * (z * k)) by (nonlinear_arith)
            requires
                z - 1 == 2 * k,
        ;
        assert(z * k >= 0) by (nonlinear_arith)
            requires
                k >= 0,
                z >= 0,
        ;
    }
}

/// A path of the tree's depth leads to a position below 2^48.
pub proof fn lemma_index_bound(q: ProofV)
    requires
        q.path.len() == HEIGHT,
    ensures
        q.index() < pow2(48),
        q.index() < modulus(),
{
    lemma_bits_value_bound(q.path);
    lemma_delta_pows();
}

/// Replacing the value of one note changes the sum of the values by the
/// difference.
pub proof fn lemma_sum_values_update(notes: Seq<NoteV>, k: int, b: nat)
    requires
        0 <= k < notes.len(),
    ensures
        sum_values(notes.update(k, NoteV { b, ..notes[k] })) == sum_values(notes) - notes[k].b + b,
    decreases notes.len(),
{
    let changed = notes.update(k, NoteV { b, ..notes[k] });
    if k == notes.len() - 1 {
        assert(changed.drop_last() =~= notes.drop_last());
    } else {
        lemma_sum_values_update(notes.drop_last(), k, b);
        assert(changed.drop_last() =~= notes.drop_last().update(
            k,
            NoteV { b, ..notes.drop_last()[k] },
        ));
    }
}

/// A witness that conserves value no longer does once the value of one of
/// its input notes is changed: the transfer is then unsatisfiable.
pub proof fn lemma_tampered_input_value(
    params: &PoolBN256,
    p: TransferPubV,
    s: TransferSecV,
    k: int,
    b: nat,
)
    requires
        0 <= k < s.in_notes.len(),
        balance_kept(p, s),
        b != s.in_notes[k].b,
    ensures
        !transfer_relation(
            params,
            p,
            TransferSecV { in_notes: s.in_notes.update(k, NoteV { b, ..s.in_notes[k] }), ..s },
        ),
{
    lemma_sum_values_update(s.in_notes, k, b);
}

/// A witness that conserves value no longer does once the value of one of
/// its output notes is changed: the transfer is then unsatisfiable.
pub proof fn lemma_tampered_output_value(
    params: &PoolBN256,
    p: TransferPubV,
    s: TransferSecV,
    k: int,
    b: nat,
)
    requires
        0 <= k < s.out_notes.len(),
        balance_kept(p, s),
        b != s.out_notes[k].b,
    ensures
        !transfer_relation(
            params,
            p,
            TransferSecV { out_notes: s.out_notes.update(k, NoteV { b, ..s.out_notes[k] }), ..s },
        ),
{
    lemma_sum_values_update(s.out_notes, k, b);
}

/// A witness that conserves value under one delta does not under a delta
/// with another value field.
pub proof fn lemma_tampered_delta_value(
    params: &PoolBN256,
    p: TransferPubV,
    s: TransferSecV,
    delta: nat,
)
    requires
        balance_kept(p, s),
        delta_value_int(delta) != delta_value_int(p.delta),
    ensures
        !transfer_relation(params, TransferPubV { delta, ..p }, s),
{
}

/// A witness that accounts for its energy no longer does once the energy of
/// its output account is changed.
pub proof fn lemma_tampered_output_energy(
    params: &PoolBN256,
    p: TransferPubV,
    s: TransferSecV,
    e: nat,
)
    requires
        energy_kept(p, s),
        e != s.out_account.e,
    ensures
        !transfer_relation(
            params,
            p,
            TransferSecV { out_account: crate::native::account::AccountV { e, ..s.out_account }, ..s },
        ),
{
}

/// The memo is wired into the constraints: the one memo whose successor is
/// zero in the field leaves them unsatisfied.
pub proof fn lemma_memo_bound(params: &PoolBN256, p: TransferPubV, s: TransferSecV)
    requires
        p.memo + 1 == modulus(),
    ensures
        !transfer_relation(params, p, s),
{
}

/// Two transfers that spend the same account at the same position under the
/// same key reveal the same nullifier.
pub proof fn lemma_same_slot_same_nullifier(
    params: &PoolBN256,
    p_one: TransferPubV,
    s_one: TransferSecV,
    p_two: TransferPubV,
    s_two: TransferSecV,
)
    requires
        transfer_relation(params, p_one, s_one),
        transfer_relation(params, p_two, s_two),
        s_one.in_account == s_two.in_account,
        s_one.eddsa_a == s_two.eddsa_a,
        s_one.account_proof.index() == s_two.account_proof.index(),
    ensures
        p_one.nullifier == p_two.nullifier,
{
}

/// A witness that is honestly made satisfies the transfer: its delta has no
/// stray bit, its notes differ, its outputs are committed to, everything it
/// spends is owned by the signer and in the tree, its nullifier is the one of
/// the account it spends, its memo is bound, it is signed, and it conserves
/// value and accounts for energy.
pub proof fn lemma_honest_witness_satisfies(params: &PoolBN256, p: TransferPubV, s: TransferSecV)
    requires
        p.delta < pow2(248),
        inputs_unique(proof_indexes(s.note_proofs), dummy_flags(s.in_notes)),
        outputs_unique(params, s.out_notes),
        p.out_commit == out_commitment(params, s),
        all_owned(params, s),
        p.nullifier == spec_nullifier(
            params,
            s.in_account.hash(params),
            view_key(params, s),
            s.account_proof.index(),
        ),
        s.account_proof.root(params.spec_compress(), s.in_account.hash(params)) == p.root
            || s.in_account.is_initial(delta_poolid(p.delta)),
        s.in_account.i <= s.out_account.i <= delta_index(p.delta),
        notes_spendable(
            params,
            p.root,
            s.in_account.i,
            s.out_account.i,
            s.in_notes,
            s.note_proofs,
            s.in_notes.len() as int,
        ),
        p.memo + 1 != modulus(),
        signed(params, s),
        balance_kept(p, s),
        energy_kept(p, s),
    ensures
        transfer_relation(params, p, s),
{
}

/// A transfer whose height marker goes back, or beyond the current index,
/// is unsatisfiable.
pub proof fn lemma_index_out_of_order(params: &PoolBN256, p: TransferPubV, s: TransferSecV)
    requires
        !(s.in_account.i <= s.out_account.i <= delta_index(p.delta)),
    ensures
        !transfer_relation(params, p, s),
{
}

/// A transfer that spends a note of value from outside the window between
/// the height markers of its two accounts is unsatisfiable.
pub proof fn lemma_note_outside_window(
    params: &PoolBN256,
    p: TransferPubV,
    s: TransferSecV,
    k: int,
)
    requires
        0 <= k < s.in_notes.len(),
        !s.in_notes[k].is_dummy(),
        !(s.in_account.i <= s.note_proofs[k].index() < s.out_account.i),
    ensures
        !transfer_relation(params, p, s),
{
    if transfer_relation(params, p, s) {
        assert(note_included(params, p.root, s.in_notes, s.note_proofs, k));
    }
}

/// A transfer that spends a note of value whose path leads to another root
/// than the public one is unsatisfiable.
pub proof fn lemma_note_off_the_tree(
    params: &PoolBN256,
    p: TransferPubV,
    s: TransferSecV,
    k: int,
)
    requires
        0 <= k < s.in_notes.len(),
        !s.in_notes[k].is_dummy(),
        s.note_proofs[k].root(params.spec_compress(), s.in_notes[k].hash(params)) != p.root,
    ensures
        !transfer_relation(params, p, s),
{
    if transfer_relation(params, p, s) {
        assert(note_included(params, p.root, s.in_notes, s.note_proofs, k));
    }
}

/// A transfer that spends an account that has been used, and whose path
/// leads to another root than the public one, is unsatisfiable.
pub proof fn lemma_account_off_the_tree(params: &PoolBN256, p: TransferPubV, s: TransferSecV)
    requires
        !s.in_account.is_initial(delta_poolid(p.delta)),
        s.account_proof.root(params.spec_compress(), s.in_account.hash(params)) != p.root,
    ensures
        !transfer_relation(params, p, s),
{
}

/// A transfer that spends two notes of value at one position is
/// unsatisfiable.
pub proof fn lemma_note_spent_twice(
    params: &PoolBN256,
    p: TransferPubV,
    s: TransferSecV,
    i: int,
    j: int,
)
    requires
        0 <= i < j < s.note_proofs.len(),
        j < s.in_notes.len(),
        !s.in_notes[i].is_dummy(),
        !s.in_notes[j].is_dummy(),
        s.note_proofs[i].index() == s.note_proofs[j].index(),
    ensures
        !transfer_relation(params, p, s),
{
    if transfer_relation(params, p, s) {
        assert(distinct_or_dummy(proof_indexes(s.note_proofs), dummy_flags(s.in_notes), i, j));
    }
}

/// A transfer whose nullifier is not that of the account it spends, at the
/// position that its path leads to and under the key of its signer, is
/// unsatisfiable.
pub proof fn lemma_another_nullifier(params: &PoolBN256, p: TransferPubV, s: TransferSecV)
    requires
        p.nullifier != spec_nullifier(
            params,
            s.in_account.hash(params),
            view_key(params, s),
            s.account_proof.index(),
        ),
    ensures
        !transfer_relation(params, p, s),
{
}

} // verus!

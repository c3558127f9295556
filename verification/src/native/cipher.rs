use crate::constants::POLY_1305_TAG_SIZE;
use crate::native::account::{Account, AccountV};
use crate::native::borsh::{
    account_bytes, account_of_bytes, note_bytes, note_of_bytes, ACCOUNT_SIZE, NOTE_SIZE,
};
use crate::native::bytes::{le_bytes, le_value};
use crate::native::ecc::{point_decompress, point_mul, EdwardsPoint};
use crate::native::key::{
    derive_key_a, diversified_mul, diversifier_hash, spec_derive_key_a, spec_derive_key_p_d,
    spec_diversified_base, spec_diversifier_hash, try_derive_key_p_d,
};
use crate::native::note::{Note, NoteV};
use crate::native::num::{modulus, scalar_modulus, Num, Scalar};
use crate::native::params::PoolBN256;
use crate::native::tx::notes_view;
use crate::native::uint::U256;
use chacha20poly1305::aead::{Aead, NewAead};
use chacha20poly1305::{ChaCha20Poly1305, Key, Nonce};
use fawkes_crypto::engines::bn256::Fs as RawFs;
use fawkes_crypto::ff_uint::seedbox::{SeedBox, SeedBoxGen, SeedboxChaCha20};
use fawkes_crypto::ff_uint::Num as RawNum;
use sha3::{Digest, Keccak256};
use crate::native::borsh::{lemma_account_round_trip, lemma_note_round_trip};
use crate::native::bytes::{lemma_le_value_bound, lemma_le_value_of_bytes};
use crate::native::tx::notes_in_range;
use vstd::arithmetic::div_mod::lemma_small_mod;
use vstd::arithmetic::power2::{lemma2_to64, pow2};
use vstd::prelude::*;
use vstd::slice::slice_subrange;

verus! {

#[verifier::external_type_specification]
#[verifier::external_body]
pub struct ExSeedboxChaCha20(SeedboxChaCha20);

/// The Keccak-256 digest of a sequence of bytes, as `sha3` computes it.
pub uninterp spec fn sha3_keccak256_digest(data: Seq<u8>) -> Seq<u8>;

/// What ChaCha20-Poly1305 seals `data` to under a key and a nonce: the
/// ciphertext followed by its tag.
pub uninterp spec fn chacha20poly1305_seal(key: Seq<u8>, nonce: Seq<u8>, data: Seq<u8>) -> Seq<u8>;

/// What ChaCha20-Poly1305 opens `data` to under a key and a nonce, if its
/// tag is valid.
pub uninterp spec fn chacha20poly1305_open(key: Seq<u8>, nonce: Seq<u8>, data: Seq<u8>) -> Option<
    Seq<u8>,
>;

/// The nonce of every encryption: the first 12 bytes of the Keccak-256 of
/// "ZeroPool". A key seals one message only.
pub open spec fn encryption_nonce() -> Seq<u8> {
    seq![0x5bu8, 0xbd, 0xff, 0xc6, 0xfe, 0x73, 0xc4, 0x60, 0xf1, 0xb2, 0xb8, 0x5d]
}

/// The nonce of every encryption.
pub fn encryption_nonce_bytes() -> (r: Vec<u8>)
    ensures
        r@ == encryption_nonce(),
{
    let r = vec![0x5bu8, 0xbd, 0xff, 0xc6, 0xfe, 0x73, 0xc4, 0x60, 0xf1, 0xb2, 0xb8, 0x5d];
    proof {
        assert(r@ =~= encryption_nonce());
    }
    r
}

/// Keccak-256 of a sequence of bytes.
///
/// Calls `Keccak256` of `sha3`, which gives 32 bytes.
#[verifier::external_body]
pub(crate) fn keccak256(data: &[u8]) -> (r: Vec<u8>)
    ensures
        r@ == sha3_keccak256_digest(data@),
        r@.len() == 32,
{
    let mut hasher = Keccak256::new();
    hasher.update(data);
    hasher.finalize().to_vec()
}

/// Seals `data` under a key of 32 bytes and a nonce of 12.
///
/// Calls `encrypt` of `chacha20poly1305`, which appends a tag of 16 bytes
/// and fails only on a message of 2^32 blocks or more; what it seals,
/// `decrypt` opens.
#[verifier::external_body]
#[allow(deprecated)]
pub(crate) fn aead_seal(key: &[u8], nonce: &[u8], data: &[u8]) -> (r: Vec<u8>)
    requires
        key@.len() == 32,
        nonce@.len() == 12,
        data@.len() <= 0xffff_ffff,
    ensures
        r@ == chacha20poly1305_seal(key@, nonce@, data@),
        r@.len() == data@.len() + 16,
        chacha20poly1305_open(key@, nonce@, r@) == Some(data@),
{
    let cipher = ChaCha20Poly1305::new(Key::from_slice(key));
    cipher.encrypt(Nonce::from_slice(nonce), data).unwrap()
}

/// Opens `data` under a key of 32 bytes and a nonce of 12, if its tag is
/// valid.
///
/// Calls `decrypt` of `chacha20poly1305`, which takes the last 16 bytes for
/// the tag.
#[verifier::external_body]
#[allow(deprecated)]
pub(crate) fn aead_open(key: &[u8], nonce: &[u8], data: &[u8]) -> (r: Option<Vec<u8>>)
    requires
        key@.len() == 32,
        nonce@.len() == 12,
    ensures
        r.is_some() == chacha20poly1305_open(key@, nonce@, data@).is_some(),
        r.is_some() ==> r.unwrap()@ == chacha20poly1305_open(key@, nonce@, data@).unwrap()
            && r.unwrap()@.len() + 16 == data@.len(),
{
    let cipher = ChaCha20Poly1305::new(Key::from_slice(key));
    cipher.decrypt(Nonce::from_slice(nonce), data).ok()
}

/// A generator of keys seeded with `entropy`.
///
/// Calls `new_with_salt` of `seedbox`.
#[verifier::external_body]
pub(crate) fn seedbox_new(entropy: &[u8]) -> (r: SeedboxChaCha20) {
    SeedboxChaCha20::new_with_salt(entropy)
}

/// The next 32 bytes of a generator.
///
/// Calls `fill_bytes` of `seedbox`.
#[verifier::external_body]
pub(crate) fn seedbox_key(sb: &mut SeedboxChaCha20) -> (r: Vec<u8>)
    ensures
        r@.len() == 32,
{
    let mut key = vec![0u8; 32];
    sb.fill_bytes(&mut key);
    key
}

/// The next scalar of a generator.
///
/// Calls `gen` of `seedbox`, which `ff_uint` implements for the elements of
/// a prime field.
#[verifier::external_body]
pub(crate) fn seedbox_scalar(sb: &mut SeedboxChaCha20) -> (r: Scalar) {
    let n: RawNum<RawFs> = sb.gen();
    Scalar { repr: U256::from_limbs(n.to_uint().0.0) }
}

/// Seals `data` under `key`, which must seal nothing else.
pub(crate) fn symcipher_encode(key: &[u8], data: &[u8]) -> (r: Vec<u8>)
    requires
        key@.len() == 32,
        data@.len() <= 0xffff_ffff,
    ensures
        r@ == chacha20poly1305_seal(key@, encryption_nonce(), data@),
        r@.len() == data@.len() + POLY_1305_TAG_SIZE,
        chacha20poly1305_open(key@, encryption_nonce(), r@) == Some(data@),
{
    let nonce = encryption_nonce_bytes();
    aead_seal(key, nonce.as_slice(), data)
}

/// Opens `data` under `key`, if its tag is valid.
pub(crate) fn symcipher_decode(key: &[u8], data: &[u8]) -> (r: Option<Vec<u8>>)
    requires
        key@.len() == 32,
    ensures
        r.is_some() == chacha20poly1305_open(key@, encryption_nonce(), data@).is_some(),
        r.is_some() ==> r.unwrap()@ == chacha20poly1305_open(
            key@,
            encryption_nonce(),
            data@,
        ).unwrap() && r.unwrap()@.len() + POLY_1305_TAG_SIZE == data@.len(),
{
    let nonce = encryption_nonce_bytes();
    aead_open(key, nonce.as_slice(), data)
}

/// The key that two parties share: the digest of the first coordinate of
/// the multiple `k` of the point `p`.
pub open spec fn ecdh_key(p: (nat, nat), k: nat) -> Seq<u8> {
    sha3_keccak256_digest(le_bytes(point_mul(p.0, p.1, k).0, 32))
}

/// The key that a note is sealed under, for the one-time scalar `a`.
pub open spec fn note_key(note: NoteV, a: nat) -> Seq<u8> {
    ecdh_key(point_decompress(note.p_d).unwrap(), a)
}

/// The one-time public key that goes with a sealed note.
pub open spec fn note_a_pub(params: &PoolBN256, note: NoteV, a: nat) -> nat {
    point_mul(
        spec_diversified_base(params, note.d).0,
        spec_diversified_base(params, note.d).1,
        a,
    ).0
}

/// A note as the memo carries it: its one-time public key, then the note
/// sealed.
pub open spec fn note_record(params: &PoolBN256, note: NoteV, a: nat) -> Seq<u8> {
    le_bytes(note_a_pub(params, note, a), 32) + chacha20poly1305_seal(
        note_key(note, a),
        encryption_nonce(),
        note_bytes(note),
    )
}

/// The commitments of the notes, 32 bytes each.
pub open spec fn note_hashes_bytes(params: &PoolBN256, notes: Seq<NoteV>) -> Seq<u8>
    decreases notes.len(),
{
    if notes.len() == 0 {
        Seq::empty()
    } else {
        note_hashes_bytes(params, notes.drop_last()) + le_bytes(notes.last().hash(params), 32)
    }
}

/// The keys of the notes, 32 bytes each.
pub open spec fn note_keys_bytes(notes: Seq<NoteV>, scalars: Seq<nat>) -> Seq<u8>
    decreases notes.len(),
{
    if notes.len() == 0 {
        Seq::empty()
    } else {
        note_keys_bytes(notes.drop_last(), scalars.drop_last()) + note_key(
            notes.last(),
            scalars[notes.len() - 1],
        )
    }
}

/// The notes as the memo carries them.
pub open spec fn note_records(params: &PoolBN256, notes: Seq<NoteV>, scalars: Seq<nat>) -> Seq<u8>
    decreases notes.len(),
{
    if notes.len() == 0 {
        Seq::empty()
    } else {
        note_records(params, notes.drop_last(), scalars.drop_last()) + note_record(
            params,
            notes.last(),
            scalars[notes.len() - 1],
        )
    }
}

/// The key that the sender shares with itself, for the one-time scalar
/// `shared` and the view key `eta`.
pub open spec fn shared_key(params: &PoolBN256, shared: nat, eta: nat) -> Seq<u8> {
    ecdh_key(spec_derive_key_a(params, shared), eta % scalar_modulus())
}

/// The memo of a transaction: the number of items, their commitments, the
/// one-time public key of the sender and the keys of the items sealed for
/// the sender, the account sealed, and the notes, each with its one-time
/// public key and sealed for its owner.
pub open spec fn memo_bytes(
    params: &PoolBN256,
    account_key: Seq<u8>,
    scalars: Seq<nat>,
    shared: nat,
    eta: nat,
    account: AccountV,
    notes: Seq<NoteV>,
) -> Seq<u8> {
    le_bytes(notes.len() + 1, 4) + le_bytes(account.hash(params), 32) + note_hashes_bytes(
        params,
        notes,
    ) + le_bytes(spec_derive_key_a(params, shared).0, 32) + chacha20poly1305_seal(
        shared_key(params, shared, eta),
        encryption_nonce(),
        account_key + note_keys_bytes(notes, scalars),
    ) + chacha20poly1305_seal(account_key, encryption_nonce(), account_bytes(account))
        + note_records(params, notes, scalars)
}

/// Whether a note can be sealed: its point is on the prime subgroup and its
/// diversifier does not hash to zero.
pub open spec fn note_sealable(params: &PoolBN256, note: NoteV) -> bool {
    point_decompress(note.p_d).is_some() && spec_diversifier_hash(params, note.d) != 0
}

/// Whether every note can be sealed.
pub open spec fn notes_sealable(params: &PoolBN256, notes: Seq<NoteV>) -> bool {
    forall|i: int| 0 <= i < notes.len() ==> note_sealable(params, #[trigger] notes[i])
}

/// Appends a sequence of bytes to another.
fn extend(res: &mut Vec<u8>, more: &[u8])
    ensures
        final(res)@ == old(res)@ + more@,
{
    let mut i: usize = 0;
    while i < more.len()
        invariant
            i <= more@.len(),
            res@ == old(res)@ + more@.take(i as int),
        decreases more@.len() - i,
    {
        res.push(more[i]);
        proof {
            assert(res@ =~= old(res)@ + more@.take(i + 1));
        }
        i += 1;
    }
    proof {
        assert(more@.take(more@.len() as int) =~= more@);
    }
}

/// The key that two parties share.
fn shared_secret(p: &EdwardsPoint, k: &Scalar, params: &PoolBN256) -> (r: Vec<u8>)
    ensures
        r@ == ecdh_key(p@, k@),
        r@.len() == 32,
{
    let ecdh = p.mul(k, params.jubjub());
    keccak256(ecdh.x().try_to_vec().as_slice())
}

/// Seals an account and notes into a memo, with the keys it is given: the
/// key of the account, the one-time scalar of each note and the one-time
/// scalar of the sender.
pub fn encrypt_with_keys(
    account_key: &[u8],
    scalars: &[Scalar],
    shared: Scalar,
    eta: Num,
    account: Account,
    note: &[Note],
    params: &PoolBN256,
) -> (r: Vec<u8>)
    requires
        account_key@.len() == 32,
        scalars@.len() == note@.len(),
        note@.len() < 0x07ff_ffff,
        notes_sealable(params, notes_view(note@)),
    ensures
        r@ == memo_bytes(
            params,
            account_key@,
            scalars_view(scalars@),
            shared@,
            eta@,
            account@,
            notes_view(note@),
        ),
        memo_sealed(
            params,
            account_key@,
            scalars_view(scalars@),
            shared@,
            eta@,
            account@,
            notes_view(note@),
        ),
{
    let ghost nv = notes_view(note@);
    let ghost sv = scalars_view(scalars@);
    let nozero_notes_num = note.len();
    let nozero_items_num = nozero_notes_num + 1;

    let account_ciphertext = symcipher_encode(account_key, account.try_to_vec().as_slice());

    // the key, the one-time public key and the ciphertext of each note
    let mut keys: Vec<u8> = Vec::new();
    let mut hashes: Vec<u8> = Vec::new();
    let mut records: Vec<u8> = Vec::new();
    let mut i: usize = 0;
    proof {
        assert(nv.take(0) =~= Seq::<NoteV>::empty());
    }
    while i < note.len()
        invariant
            i <= note@.len(),
            scalars@.len() == note@.len(),
            nv == notes_view(note@),
            sv == scalars_view(scalars@),
            notes_sealable(params, nv),
            keys@ == note_keys_bytes(nv.take(i as int), sv.take(i as int)),
            keys@.len() == 32 * i,
            hashes@ == note_hashes_bytes(params, nv.take(i as int)),
            records@ == note_records(params, nv.take(i as int), sv.take(i as int)),
            forall|k: int| 0 <= k < i ==> #[trigger] note_sealed(params, nv[k], sv[k]),
        decreases note@.len() - i,
    {
        let e = &note[i];
        let a = &scalars[i];
        proof {
            assert(note_sealable(params, nv[i as int]));
            assert(nv.take(i + 1).drop_last() =~= nv.take(i as int));
            assert(sv.take(i + 1).drop_last() =~= sv.take(i as int));
            assert(nv.take(i + 1).last() == nv[i as int]);
            assert(sv.take(i + 1)[i as int] == a@);
            crate::native::borsh::lemma_note_len(e@);
        }
        let p_d = EdwardsPoint::subgroup_decompress(&e.p_d, params.jubjub()).unwrap();
        let key = shared_secret(&p_d, a, params);
        let ciphertext = symcipher_encode(key.as_slice(), e.try_to_vec().as_slice());
        let a_pub = diversified_mul(e.d.to_num(), a, params);
        let a_pub_x = a_pub.x();
        let note_hash = e.hash(params);
        extend(&mut keys, key.as_slice());
        note_hash.serialize(&mut hashes);
        a_pub_x.serialize(&mut records);
        extend(&mut records, ciphertext.as_slice());
        proof {
            use_type_invariant(&a_pub_x);
            use_type_invariant(&note_hash);
            use_type_invariant(&e.p_d);
            assert(sv[i as int] == a@);
            assert(note_sealed(params, nv[i as int], sv[i as int]));
            assert(records@ =~= note_records(params, nv.take(i as int), sv.take(i as int))
                + note_record(params, nv[i as int], a@));
        }
        i += 1;
    }
    proof {
        assert(nv.take(note@.len() as int) =~= nv);
        assert(sv.take(note@.len() as int) =~= sv);
    }

    let a_p_pub = derive_key_a(shared, params);
    let a_p_pub_x = a_p_pub.x();
    let account_hash = account.hash(params);
    proof {
        use_type_invariant(&a_p_pub_x);
        use_type_invariant(&account_hash);
        use_type_invariant(&account.p_d);
        crate::native::borsh::lemma_account_len(account@);
    }
    let shared_secret_key = shared_secret(&a_p_pub, &eta.to_scalar_reduced(), params);
    let mut text: Vec<u8> = Vec::new();
    extend(&mut text, account_key);
    extend(&mut text, keys.as_slice());
    proof {
        assert(text@ =~= account_key@ + note_keys_bytes(nv, sv));
    }
    let shared_ciphertext = symcipher_encode(shared_secret_key.as_slice(), text.as_slice());

    let mut res: Vec<u8> = Vec::new();
    crate::native::borsh::write_le(&mut res, &U256::from_u64(nozero_items_num as u64), 4);
    account_hash.serialize(&mut res);
    extend(&mut res, hashes.as_slice());
    a_p_pub_x.serialize(&mut res);
    extend(&mut res, shared_ciphertext.as_slice());
    extend(&mut res, account_ciphertext.as_slice());
    extend(&mut res, records.as_slice());
    proof {
        assert(res@ =~= memo_bytes(params, account_key@, sv, shared@, eta@, account@, nv));
    }
    res
}

/// The values of a sequence of scalars.
pub open spec fn scalars_view(s: Seq<Scalar>) -> Seq<nat> {
    s.map_values(|k: Scalar| k@)
}

/// Seals an account and notes into a memo. The keys are drawn from a
/// generator seeded with `entropy`: the key of the account first, then one
/// scalar for each note, then the scalar of the sender.
pub fn encrypt(entropy: &[u8], eta: Num, account: Account, note: &[Note], params: &PoolBN256) -> (r:
    Vec<u8>)
    requires
        note@.len() < 0x07ff_ffff,
        notes_sealable(params, notes_view(note@)),
    ensures
        exists|account_key: Seq<u8>, scalars: Seq<nat>, shared: nat|
            r@ == #[trigger] memo_bytes(
                params,
                account_key,
                scalars,
                shared,
                eta@,
                account@,
                notes_view(note@),
            ) && memo_sealed(
                params,
                account_key,
                scalars,
                shared,
                eta@,
                account@,
                notes_view(note@),
            ),
{
    let mut sb = seedbox_new(entropy);
    let account_key = seedbox_key(&mut sb);
    let mut scalars: Vec<Scalar> = Vec::new();
    let mut i: usize = 0;
    while i < note.len()
        invariant
            i <= note@.len(),
            scalars@.len() == i,
        decreases note@.len() - i,
    {
        scalars.push(seedbox_scalar(&mut sb));
        i += 1;
    }
    let shared = seedbox_scalar(&mut sb);
    encrypt_with_keys(
        account_key.as_slice(),
        scalars.as_slice(),
        shared,
        eta,
        account,
        note,
        params,
    )
}

/// Whether every note can be sealed.
pub fn can_encrypt(note: &[Note], params: &PoolBN256) -> (r: bool)
    ensures
        r == notes_sealable(params, notes_view(note@)),
{
    let ghost nv = notes_view(note@);
    let mut i: usize = 0;
    while i < note.len()
        invariant
            i <= note@.len(),
            nv == notes_view(note@),
            forall|k: int| 0 <= k < i ==> note_sealable(params, #[trigger] nv[k]),
        decreases note@.len() - i,
    {
        let e = &note[i];
        if EdwardsPoint::subgroup_decompress(&e.p_d, params.jubjub()).is_none() || diversifier_hash(
            e.d.to_num(),
            params,
        ).is_zero() {
            proof {
                assert(!note_sealable(params, nv[i as int]));
            }
            return false;
        }
        i += 1;
    }
    true
}

/// `encrypt` where every note can be sealed and their keys fit in one sealed
/// message, nothing otherwise.
pub fn try_encrypt(
    entropy: &[u8],
    eta: Num,
    account: Account,
    note: &[Note],
    params: &PoolBN256,
) -> (r: Option<Vec<u8>>)
    ensures
        r.is_some() == (note@.len() < 0x07ff_ffff && notes_sealable(params, notes_view(note@))),
        r.is_some() ==> exists|account_key: Seq<u8>, scalars: Seq<nat>, shared: nat|
            r.unwrap()@ == #[trigger] memo_bytes(
                params,
                account_key,
                scalars,
                shared,
                eta@,
                account@,
                notes_view(note@),
            ) && memo_sealed(
                params,
                account_key,
                scalars,
                shared,
                eta@,
                account@,
                notes_view(note@),
            ),
{
    if note.len() < 0x07ff_ffff && can_encrypt(note, params) {
        Some(encrypt(entropy, eta, account, note, params))
    } else {
        None
    }
}

/// The number of notes that a memo announces: one less than its number of
/// items, which is not zero.
pub open spec fn memo_notes_num(memo: Seq<u8>) -> Option<nat> {
    if memo.len() >= 4 && le_value(memo.subrange(0, 4)) >= 1 {
        Some((le_value(memo.subrange(0, 4)) - 1) as nat)
    } else {
        None
    }
}

/// The field element at the offset `off` of a memo: 32 bytes that stand for
/// a number below the modulus.
pub open spec fn num_at(memo: Seq<u8>, off: int) -> Option<nat> {
    if off + 32 <= memo.len() && le_value(memo.subrange(off, off + 32)) < modulus() {
        Some(le_value(memo.subrange(off, off + 32)))
    } else {
        None
    }
}

/// Where the one-time public key of the sender stands in a memo of `n`
/// notes.
pub open spec fn shared_off(n: nat) -> int {
    (36 + 32 * n) as int
}

/// Where the sealed account stands in a memo of `n` notes.
pub open spec fn account_off(n: nat) -> int {
    (116 + 64 * n) as int
}

/// Where the record of the note `i` stands in a memo of `n` notes.
pub open spec fn note_off(n: nat, i: int) -> int {
    202 + 64 * n + 108 * i
}

/// Whether the commitments of the `n` notes are all there.
pub open spec fn note_hashes_ok(memo: Seq<u8>, n: nat) -> bool {
    forall|i: int| 0 <= i < n ==> (#[trigger] num_at(memo, 36 + 32 * i)).is_some()
}

/// The commitment of the note `i`.
pub open spec fn note_hash_at(memo: Seq<u8>, i: int) -> nat {
    num_at(memo, 36 + 32 * i).unwrap()
}

/// The key shared with the owner of the public key `x`, if `x` is the first
/// coordinate of a point of the prime subgroup.
pub open spec fn open_ecdh(x: Option<nat>, k: nat) -> Option<Seq<u8>> {
    match x {
        Some(x) => match point_decompress(x) {
            Some(p) => Some(ecdh_key(p, k)),
            None => None,
        },
        None => None,
    }
}

/// The note that `ct` opens to under `key`, if it opens, reads as a note and
/// has the commitment `hash`.
pub open spec fn open_note(params: &PoolBN256, key: Seq<u8>, ct: Seq<u8>, hash: nat) -> Option<
    NoteV,
> {
    match chacha20poly1305_open(key, encryption_nonce(), ct) {
        Some(text) => if text.len() == NOTE_SIZE && note_of_bytes(text).p_d < modulus()
            && note_of_bytes(text).hash(params) == hash {
            Some(note_of_bytes(text))
        } else {
            None
        },
        None => None,
    }
}

/// The account that `ct` opens to under `key`, if it opens, reads as an
/// account and has the commitment `hash`.
pub open spec fn open_account(params: &PoolBN256, key: Seq<u8>, ct: Seq<u8>, hash: nat) -> Option<
    AccountV,
> {
    match chacha20poly1305_open(key, encryption_nonce(), ct) {
        Some(text) => if text.len() == ACCOUNT_SIZE && account_of_bytes(text).p_d < modulus()
            && account_of_bytes(text).hash(params) == hash {
            Some(account_of_bytes(text))
        } else {
            None
        },
        None => None,
    }
}

/// Whether the address of a note belongs to the view key `eta`.
pub open spec fn note_owned(params: &PoolBN256, note: NoteV, eta: nat) -> bool {
    spec_diversifier_hash(params, note.d) != 0 && spec_derive_key_p_d(params, note.d, eta).0
        == note.p_d
}

/// The note, if its address belongs to the view key `eta`.
pub open spec fn keep_owned(params: &PoolBN256, note: Option<NoteV>, eta: nat) -> Option<NoteV> {
    match note {
        Some(n) => if note_owned(params, n, eta) {
            Some(n)
        } else {
            None
        },
        None => None,
    }
}

/// What the owner of the view key `eta` reads of the note `i` of a memo of
/// `n` notes: the note, where its record is there, opens under the key that
/// the owner shares with its one-time public key, has the commitment that
/// the memo announces, and is addressed to the owner.
pub open spec fn spec_decrypt_in_note(
    params: &PoolBN256,
    eta: nat,
    memo: Seq<u8>,
    n: nat,
    i: int,
) -> Option<NoteV> {
    let off = note_off(n, i);
    if off + 108 <= memo.len() {
        match open_ecdh(num_at(memo, off), eta % scalar_modulus()) {
            Some(key) => keep_owned(
                params,
                open_note(params, key, memo.subrange(off + 32, off + 108), note_hash_at(memo, i)),
                eta,
            ),
            None => None,
        }
    } else {
        None
    }
}

/// Whether a memo holds what comes before its notes.
pub open spec fn memo_head_ok(memo: Seq<u8>) -> bool {
    &&& memo_notes_num(memo).is_some()
    &&& note_hashes_ok(memo, memo_notes_num(memo).unwrap())
    &&& note_off(memo_notes_num(memo).unwrap(), 0) <= memo.len()
}

/// What the owner of the view key `eta` reads of the notes of a memo: for
/// each note, the note if it is sealed for that key; nothing at all where
/// the memo does not hold what comes before its notes.
pub open spec fn spec_decrypt_in(params: &PoolBN256, eta: nat, memo: Seq<u8>) -> Seq<
    Option<NoteV>,
> {
    if memo_head_ok(memo) {
        let n = memo_notes_num(memo).unwrap();
        Seq::new(n, |i: int| spec_decrypt_in_note(params, eta, memo, n, i))
    } else {
        Seq::empty()
    }
}

/// The keys that the sender of a memo of `n` notes has sealed for itself.
pub open spec fn sender_keys(params: &PoolBN256, eta: nat, memo: Seq<u8>, n: nat) -> Option<
    Seq<u8>,
> {
    if account_off(n) <= memo.len() {
        match open_ecdh(num_at(memo, shared_off(n)), eta % scalar_modulus()) {
            Some(key) => chacha20poly1305_open(
                key,
                encryption_nonce(),
                memo.subrange(shared_off(n) + 32, account_off(n)),
            ),
            None => None,
        }
    } else {
        None
    }
}

/// What the sender reads of the note `i` of a memo of `n` notes, with the
/// keys it has sealed for itself.
pub open spec fn spec_decrypt_out_note(
    params: &PoolBN256,
    keys: Seq<u8>,
    memo: Seq<u8>,
    n: nat,
    i: int,
) -> Option<NoteV> {
    let off = note_off(n, i);
    if off + 108 <= memo.len() && 32 * (i + 2) <= keys.len() {
        open_note(
            params,
            keys.subrange(32 * (i + 1), 32 * (i + 2)),
            memo.subrange(off + 32, off + 108),
            note_hash_at(memo, i),
        )
    } else {
        None
    }
}

/// What the sender, who holds the view key `eta`, reads of a memo: the
/// account and every note, where everything is there, opens and has the
/// commitment that the memo announces.
pub open spec fn spec_decrypt_out(params: &PoolBN256, eta: nat, memo: Seq<u8>) -> Option<
    (AccountV, Seq<NoteV>),
> {
    if memo_head_ok(memo) && num_at(memo, 4).is_some() {
        let n = memo_notes_num(memo).unwrap();
        match sender_keys(params, eta, memo, n) {
            Some(keys) => if keys.len() >= 32 {
                match open_account(
                    params,
                    keys.subrange(0, 32),
                    memo.subrange(account_off(n), note_off(n, 0)),
                    num_at(memo, 4).unwrap(),
                ) {
                    Some(account) => if forall|i: int|
                        0 <= i < n ==> (#[trigger] spec_decrypt_out_note(
                            params,
                            keys,
                            memo,
                            n,
                            i,
                        )).is_some() {
                        Some(
                            (
                                account,
                                Seq::new(
                                    n,
                                    |i: int|
                                        spec_decrypt_out_note(params, keys, memo, n, i).unwrap(),
                                ),
                            ),
                        )
                    } else {
                        None
                    },
                    None => None,
                }
            } else {
                None
            },
            None => None,
        }
    } else {
        None
    }
}

/// The bytes from `off` to `off + len` of a memo, if it holds them.
fn slice_at<'a>(memo: &'a [u8], off: u64, len: u64) -> (r: Option<&'a [u8]>)
    requires
        off + len <= 0xffff_ffff_ffff,
    ensures
        r.is_some() == (off + len <= memo@.len()),
        r.is_some() ==> r.unwrap()@ == memo@.subrange(off as int, off + len),
{
    if off + len <= memo.len() as u64 {
        Some(slice_subrange(memo, off as usize, (off + len) as usize))
    } else {
        None
    }
}

/// The field element at the offset `off` of a memo.
fn read_num_at(memo: &[u8], off: u64) -> (r: Option<Num>)
    requires
        off <= 0xffff_ffff_ff00,
    ensures
        r.is_some() == num_at(memo@, off as int).is_some(),
        r.is_some() ==> r.unwrap()@ == num_at(memo@, off as int).unwrap(),
{
    match slice_at(memo, off, 32) {
        Some(bytes) => Num::from_uint(U256::from_le_bytes(bytes)),
        None => None,
    }
}

/// The number of notes that a memo announces.
fn read_notes_num(memo: &[u8]) -> (r: Option<u64>)
    ensures
        r.is_some() == memo_notes_num(memo@).is_some(),
        r.is_some() ==> r.unwrap() == memo_notes_num(memo@).unwrap() && r.unwrap() < 0xffff_ffff,
{
    match slice_at(memo, 0, 4) {
        Some(bytes) => {
            proof {
                lemma_le_value_bound(bytes@);
                lemma2_to64();
            }
            let items = U256::from_le_bytes(bytes);
            if items.is_zero() {
                None
            } else {
                Some(items.l0 - 1)
            }
        },
        None => None,
    }
}

/// The commitments of the `n` notes of a memo, if they are all there.
fn read_note_hashes(memo: &[u8], n: u64) -> (r: Option<Vec<Num>>)
    requires
        n < 0xffff_ffff,
    ensures
        r.is_some() == note_hashes_ok(memo@, n as nat),
        r.is_some() ==> r.unwrap()@.len() == n && forall|i: int|
            0 <= i < n ==> (#[trigger] r.unwrap()@[i])@ == note_hash_at(memo@, i),
{
    let mut hashes: Vec<Num> = Vec::new();
    let mut i: u64 = 0;
    while i < n
        invariant
            i <= n < 0xffff_ffff,
            hashes@.len() == i,
            forall|k: int| 0 <= k < i ==> (#[trigger] num_at(memo@, 36 + 32 * k)).is_some(),
            forall|k: int| 0 <= k < i ==> (#[trigger] hashes@[k])@ == note_hash_at(memo@, k),
        decreases n - i,
    {
        match read_num_at(memo, 36 + 32 * i) {
            Some(h) => {
                hashes.push(h);
            },
            None => {
                proof {
                    assert(!num_at(memo@, 36 + 32 * (i as int)).is_some());
                }
                return None;
            },
        }
        i += 1;
    }
    Some(hashes)
}

/// The key shared with the owner of the public key `x`.
fn open_ecdh_key(x: Option<Num>, k: &Scalar, params: &PoolBN256) -> (r: Option<Vec<u8>>)
    ensures
        r.is_some() == open_ecdh(
            match x {
                Some(v) => Some(v@),
                None => None,
            },
            k@,
        ).is_some(),
        r.is_some() ==> r.unwrap()@ == open_ecdh(
            match x {
                Some(v) => Some(v@),
                None => None,
            },
            k@,
        ).unwrap() && r.unwrap()@.len() == 32,
{
    match x {
        Some(v) => match EdwardsPoint::subgroup_decompress(&v, params.jubjub()) {
            Some(p) => Some(shared_secret(&p, k, params)),
            None => None,
        },
        None => None,
    }
}

/// The note that `ct` opens to under `key`, if it opens, reads as a note and
/// has the commitment `hash`.
fn open_note_ct(key: &[u8], ct: &[u8], hash: &Num, params: &PoolBN256) -> (r: Option<Note>)
    requires
        key@.len() == 32,
    ensures
        r.is_some() == open_note(params, key@, ct@, hash@).is_some(),
        r.is_some() ==> r.unwrap()@ == open_note(params, key@, ct@, hash@).unwrap()
            && r.unwrap().in_range(),
{
    let text = symcipher_decode(key, ct)?;
    let note = Note::try_from_slice(text.as_slice())?;
    if note.hash(params).is_eq(hash) {
        Some(note)
    } else {
        None
    }
}

/// The account that `ct` opens to under `key`, if it opens, reads as an
/// account and has the commitment `hash`.
fn open_account_ct(key: &[u8], ct: &[u8], hash: &Num, params: &PoolBN256) -> (r: Option<Account>)
    requires
        key@.len() == 32,
    ensures
        r.is_some() == open_account(params, key@, ct@, hash@).is_some(),
        r.is_some() ==> r.unwrap()@ == open_account(params, key@, ct@, hash@).unwrap()
            && r.unwrap().in_range(),
{
    let text = symcipher_decode(key, ct)?;
    let account = Account::try_from_slice(text.as_slice())?;
    if account.hash(params).is_eq(hash) {
        Some(account)
    } else {
        None
    }
}

/// The note, if its address belongs to the view key `eta`.
fn keep_if_owned(note: Option<Note>, eta: Num, params: &PoolBN256) -> (r: Option<Note>)
    ensures
        option_note_view(r) == keep_owned(params, option_note_view(note), eta@),
{
    match note {
        Some(n) => match try_derive_key_p_d(n.d.to_num(), eta, params) {
            Some(p) => if p.x().is_eq(&n.p_d) {
                Some(n)
            } else {
                None
            },
            None => None,
        },
        None => None,
    }
}

/// What the owner of the view key `eta` reads of the notes of a memo, or
/// nothing where the memo does not hold what comes before its notes.
fn _decrypt_in(eta: Num, memo: &[u8], params: &PoolBN256) -> (r: Option<Vec<Option<Note>>>)
    ensures
        r.is_some() == memo_head_ok(memo@),
        r.is_some() ==> option_notes_view(r.unwrap()@) == spec_decrypt_in(params, eta@, memo@),
{
    let n = read_notes_num(memo)?;
    let note_hash = read_note_hashes(memo, n)?;
    slice_at(memo, 0, 202 + 64 * n)?;
    let k = eta.to_scalar_reduced();
    let mut note: Vec<Option<Note>> = Vec::new();
    let mut i: u64 = 0;
    while i < n
        invariant
            i <= n < 0xffff_ffff,
            note@.len() == i,
            k@ == eta@ % scalar_modulus(),
            note_hash@.len() == n,
            forall|j: int| 0 <= j < n ==> (#[trigger] note_hash@[j])@ == note_hash_at(memo@, j),
            forall|j: int|
                0 <= j < i ==> option_note_view(#[trigger] note@[j]) == spec_decrypt_in_note(
                    params,
                    eta@,
                    memo@,
                    n as nat,
                    j,
                ),
        decreases n - i,
    {
        let off = 202 + 64 * n + 108 * i;
        let item = match slice_at(memo, off, 108) {
            Some(record) => {
                proof {
                    assert(record@.subrange(32, 108) =~= memo@.subrange(off + 32, off + 108));
                    assert(record@.subrange(0, 32) =~= memo@.subrange(off as int, off + 32));
                }
                match open_ecdh_key(read_num_at(record, 0), &k, params) {
                    Some(key) => keep_if_owned(
                        open_note_ct(
                            key.as_slice(),
                            slice_subrange(record, 32, 108),
                            &note_hash[i as usize],
                            params,
                        ),
                        eta,
                        params,
                    ),
                    None => None,
                }
            },
            None => None,
        };
        note.push(item);
        i += 1;
    }
    proof {
        assert(option_notes_view(note@) =~= spec_decrypt_in(params, eta@, memo@));
    }
    Some(note)
}

/// The view of a note that may not be there.
pub open spec fn option_note_view(n: Option<Note>) -> Option<NoteV> {
    match n {
        Some(v) => Some(v@),
        None => None,
    }
}

/// The views of a sequence of notes that may not be there.
pub open spec fn option_notes_view(s: Seq<Option<Note>>) -> Seq<Option<NoteV>> {
    s.map_values(|n: Option<Note>| option_note_view(n))
}

/// What the owner of the view key `eta` reads of the notes of a memo: for
/// each note, the note if it is sealed for that key.
pub fn decrypt_in(eta: Num, memo: &[u8], params: &PoolBN256) -> (r: Vec<Option<Note>>)
    ensures
        option_notes_view(r@) == spec_decrypt_in(params, eta@, memo@),
{
    if let Some(res) = _decrypt_in(eta, memo, params) {
        res
    } else {
        let r: Vec<Option<Note>> = Vec::new();
        proof {
            assert(option_notes_view(r@) =~= spec_decrypt_in(params, eta@, memo@));
        }
        r
    }
}

/// What the sender, who holds the view key `eta`, reads of a memo: the
/// account and every note.
pub fn decrypt_out(eta: Num, memo: &[u8], params: &PoolBN256) -> (r: Option<(Account, Vec<Note>)>)
    ensures
        r.is_some() == spec_decrypt_out(params, eta@, memo@).is_some(),
        r.is_some() ==> r.unwrap().0@ == spec_decrypt_out(params, eta@, memo@).unwrap().0
            && notes_view(r.unwrap().1@) == spec_decrypt_out(params, eta@, memo@).unwrap().1,
{
    let n = read_notes_num(memo)?;
    let account_hash = read_num_at(memo, 4)?;
    let note_hash = read_note_hashes(memo, n)?;

    let shared_ciphertext = slice_at(memo, 68 + 32 * n, 32 * n + 48)?;
    let k = eta.to_scalar_reduced();
    let key = open_ecdh_key(read_num_at(memo, 36 + 32 * n), &k, params)?;
    let shared_secret_text = symcipher_decode(key.as_slice(), shared_ciphertext)?;
    let ghost keys = shared_secret_text@;
    proof {
        assert(sender_keys(params, eta@, memo@, n as nat) == Some(keys));
    }
    if shared_secret_text.len() < 32 {
        return None;
    }
    let account_key = slice_subrange(shared_secret_text.as_slice(), 0, 32);
    let account_ciphertext = slice_at(memo, 116 + 64 * n, 86)?;
    let account = open_account_ct(account_key, account_ciphertext, &account_hash, params)?;

    let mut note: Vec<Note> = Vec::new();
    let mut i: u64 = 0;
    let text_len = shared_secret_text.len();
    while i < n
        invariant
            i <= n < 0xffff_ffff,
            note@.len() == i,
            keys == shared_secret_text@,
            text_len == keys.len(),
            keys.len() == 32 * n + 32,
            memo_head_ok(memo@),
            memo_notes_num(memo@) == Some(n as nat),
            num_at(memo@, 4).is_some(),
            sender_keys(params, eta@, memo@, n as nat) == Some(keys),
            open_account(
                params,
                keys.subrange(0, 32),
                memo@.subrange(account_off(n as nat), note_off(n as nat, 0)),
                num_at(memo@, 4).unwrap(),
            ).is_some(),
            note_hash@.len() == n,
            forall|j: int| 0 <= j < n ==> (#[trigger] note_hash@[j])@ == note_hash_at(memo@, j),
            forall|j: int|
                0 <= j < i ==> (#[trigger] spec_decrypt_out_note(
                    params,
                    keys,
                    memo@,
                    n as nat,
                    j,
                )).is_some(),
            forall|j: int|
                0 <= j < i ==> (#[trigger] note@[j])@ == spec_decrypt_out_note(
                    params,
                    keys,
                    memo@,
                    n as nat,
                    j,
                ).unwrap(),
        decreases n - i,
    {
        let off = 202 + 64 * n + 108 * i;
        let item = match slice_at(memo, off + 32, 76) {
            Some(ciphertext) => open_note_ct(
                slice_subrange(
                    shared_secret_text.as_slice(),
                    (32 * (i + 1)) as usize,
                    (32 * (i + 2)) as usize,
                ),
                ciphertext,
                &note_hash[i as usize],
                params,
            ),
            None => None,
        };
        match item {
            Some(v) => {
                note.push(v);
            },
            None => {
                proof {
                    assert(!spec_decrypt_out_note(
                        params,
                        keys,
                        memo@,
                        n as nat,
                        i as int,
                    ).is_some());
                }
                return None;
            },
        }
        i += 1;
    }
    proof {
        assert(notes_view(note@) =~= spec_decrypt_out(params, eta@, memo@).unwrap().1);
    }
    Some((account, note))
}

/// What holds of one sealed message: the key has 32 bytes, the seal adds
/// a tag of 16 bytes, and the key opens what it has sealed.
pub open spec fn sealed(key: Seq<u8>, data: Seq<u8>) -> bool {
    &&& key.len() == 32
    &&& chacha20poly1305_seal(key, encryption_nonce(), data).len() == data.len() + 16
    &&& chacha20poly1305_open(
        key,
        encryption_nonce(),
        chacha20poly1305_seal(key, encryption_nonce(), data),
    ) == Some(data)
}

/// What holds of one note of a memo that `encrypt_with_keys` has made: the
/// note is sealed, and its commitment and its one-time public key are field
/// elements.
pub open spec fn note_sealed(params: &PoolBN256, note: NoteV, a: nat) -> bool {
    &&& sealed(note_key(note, a), note_bytes(note))
    &&& note.hash(params) < modulus()
    &&& note_a_pub(params, note, a) < modulus()
    &&& note.p_d < modulus()
}

/// What holds of a memo that `encrypt_with_keys` has made: every message is
/// sealed, and what goes in the clear is made of field elements.
pub open spec fn memo_sealed(
    params: &PoolBN256,
    account_key: Seq<u8>,
    scalars: Seq<nat>,
    shared: nat,
    eta: nat,
    account: AccountV,
    notes: Seq<NoteV>,
) -> bool {
    &&& scalars.len() == notes.len()
    &&& notes.len() + 1 < 0x1_0000_0000
    &&& forall|i: int| 0 <= i < notes.len() ==> #[trigger] note_sealed(params, notes[i], scalars[i])
    &&& sealed(account_key, account_bytes(account))
    &&& account.hash(params) < modulus()
    &&& account.p_d < modulus()
    &&& sealed(shared_key(params, shared, eta), account_key + note_keys_bytes(notes, scalars))
    &&& spec_derive_key_a(params, shared).0 < modulus()
}

/// The commitments of `n` notes take 32 bytes each.
pub proof fn lemma_note_hashes_bytes(params: &PoolBN256, notes: Seq<NoteV>, i: int)
    requires
        0 <= i < notes.len(),
    ensures
        note_hashes_bytes(params, notes).len() == 32 * notes.len(),
        note_hashes_bytes(params, notes).subrange(32 * i, 32 * i + 32) == le_bytes(
            notes[i].hash(params),
            32,
        ),
    decreases notes.len(),
{
    let rest = notes.drop_last();
    reveal_with_fuel(note_hashes_bytes, 2);
    if rest.len() > 0 {
        lemma_note_hashes_bytes(params, rest, 0);
    }
    let all = note_hashes_bytes(params, notes);
    if i == notes.len() - 1 {
        assert(all.subrange(32 * i, 32 * i + 32) =~= le_bytes(notes[i].hash(params), 32));
    } else {
        lemma_note_hashes_bytes(params, rest, i);
        assert(all.subrange(32 * i, 32 * i + 32) =~= note_hashes_bytes(params, rest).subrange(
            32 * i,
            32 * i + 32,
        ));
    }
}

/// The keys of `n` sealed notes take 32 bytes each.
pub proof fn lemma_note_keys_bytes(
    params: &PoolBN256,
    notes: Seq<NoteV>,
    scalars: Seq<nat>,
    i: int,
)
    requires
        0 <= i < notes.len(),
        scalars.len() == notes.len(),
        forall|k: int| 0 <= k < notes.len() ==> #[trigger] note_sealed(params, notes[k], scalars[k]),
    ensures
        note_keys_bytes(notes, scalars).len() == 32 * notes.len(),
        note_keys_bytes(notes, scalars).subrange(32 * i, 32 * i + 32) == note_key(
            notes[i],
            scalars[i],
        ),
    decreases notes.len(),
{
    let rest = notes.drop_last();
    let rest_s = scalars.drop_last();
    assert forall|k: int| 0 <= k < rest.len() implies #[trigger] note_sealed(
        params,
        rest[k],
        rest_s[k],
    ) by {
        assert(note_sealed(params, notes[k], scalars[k]));
    }
    reveal_with_fuel(note_keys_bytes, 2);
    if rest.len() > 0 {
        lemma_note_keys_bytes(params, rest, rest_s, 0);
    }
    let last = notes.len() - 1;
    assert(note_sealed(params, notes[last], scalars[last]));
    assert(notes.last() == notes[last]);
    let all = note_keys_bytes(notes, scalars);
    if i == last {
        assert(all.subrange(32 * i, 32 * i + 32) =~= note_key(notes[i], scalars[i]));
    } else {
        lemma_note_keys_bytes(params, rest, rest_s, i);
        assert(all.subrange(32 * i, 32 * i + 32) =~= note_keys_bytes(rest, rest_s).subrange(
            32 * i,
            32 * i + 32,
        ));
    }
}

/// The records of `n` sealed notes take 108 bytes each.
pub proof fn lemma_note_records(params: &PoolBN256, notes: Seq<NoteV>, scalars: Seq<nat>, i: int)
    requires
        0 <= i < notes.len(),
        scalars.len() == notes.len(),
        forall|k: int| 0 <= k < notes.len() ==> #[trigger] note_sealed(params, notes[k], scalars[k]),
    ensures
        note_records(params, notes, scalars).len() == 108 * notes.len(),
        note_records(params, notes, scalars).subrange(108 * i, 108 * i + 108) == note_record(
            params,
            notes[i],
            scalars[i],
        ),
        note_record(params, notes[i], scalars[i]).len() == 108,
    decreases notes.len(),
{
    let rest = notes.drop_last();
    let rest_s = scalars.drop_last();
    assert forall|k: int| 0 <= k < rest.len() implies #[trigger] note_sealed(
        params,
        rest[k],
        rest_s[k],
    ) by {
        assert(note_sealed(params, notes[k], scalars[k]));
    }
    reveal_with_fuel(note_records, 2);
    if rest.len() > 0 {
        lemma_note_records(params, rest, rest_s, 0);
    }
    let last = notes.len() - 1;
    assert(note_sealed(params, notes[last], scalars[last]));
    assert(note_sealed(params, notes[i], scalars[i]));
    assert(notes.last() == notes[last]);
    crate::native::borsh::lemma_note_len(notes[last]);
    crate::native::borsh::lemma_note_len(notes[i]);
    let all = note_records(params, notes, scalars);
    if i == last {
        assert(all.subrange(108 * i, 108 * i + 108) =~= note_record(params, notes[i], scalars[i]));
    } else {
        lemma_note_records(params, rest, rest_s, i);
        assert(all.subrange(108 * i, 108 * i + 108) =~= note_records(
            params,
            rest,
            rest_s,
        ).subrange(108 * i, 108 * i + 108));
    }
}

/// Where each part of a memo that `encrypt_with_keys` has made stands.
pub proof fn lemma_memo_layout(
    params: &PoolBN256,
    account_key: Seq<u8>,
    scalars: Seq<nat>,
    shared: nat,
    eta: nat,
    account: AccountV,
    notes: Seq<NoteV>,
)
    requires
        memo_sealed(params, account_key, scalars, shared, eta, account, notes),
    ensures
        ({
            let memo = memo_bytes(params, account_key, scalars, shared, eta, account, notes);
            let n = notes.len();
            &&& memo.len() == 202 + 172 * n
            &&& memo_notes_num(memo) == Some(n)
            &&& num_at(memo, 4) == Some(account.hash(params))
            &&& forall|i: int|
                0 <= i < n ==> #[trigger] num_at(memo, 36 + 32 * i) == Some(notes[i].hash(params))
            &&& num_at(memo, shared_off(n)) == Some(spec_derive_key_a(params, shared).0)
            &&& memo.subrange(shared_off(n) + 32, account_off(n)) == chacha20poly1305_seal(
                shared_key(params, shared, eta),
                encryption_nonce(),
                account_key + note_keys_bytes(notes, scalars),
            )
            &&& memo.subrange(account_off(n), note_off(n, 0)) == chacha20poly1305_seal(
                account_key,
                encryption_nonce(),
                account_bytes(account),
            )
            &&& forall|i: int|
                0 <= i < n ==> #[trigger] memo.subrange(note_off(n, i), note_off(n, i) + 108)
                    == note_record(params, notes[i], scalars[i])
        }),
{
    let memo = memo_bytes(params, account_key, scalars, shared, eta, account, notes);
    let n = notes.len();
    let a = le_bytes(n + 1, 4);
    let b = le_bytes(account.hash(params), 32);
    let c = note_hashes_bytes(params, notes);
    let d = le_bytes(spec_derive_key_a(params, shared).0, 32);
    let text = account_key + note_keys_bytes(notes, scalars);
    let e = chacha20poly1305_seal(shared_key(params, shared, eta), encryption_nonce(), text);
    let f = chacha20poly1305_seal(account_key, encryption_nonce(), account_bytes(account));
    let g = note_records(params, notes, scalars);
    lemma2_to64();
    crate::circuit::bitify::lemma_modulus_bits();
    vstd::arithmetic::power2::lemma_pow2_adds(254, 2);
    crate::native::borsh::lemma_account_len(account);
    if n > 0 {
        lemma_note_hashes_bytes(params, notes, 0);
        lemma_note_keys_bytes(params, notes, scalars, 0);
        lemma_note_records(params, notes, scalars, 0);
    } else {
        reveal_with_fuel(note_hashes_bytes, 1);
        reveal_with_fuel(note_keys_bytes, 1);
        reveal_with_fuel(note_records, 1);
    }
    assert(memo =~= a + b + c + d + e + f + g);
    assert(memo.subrange(0, 4) =~= a);
    lemma_le_value_of_bytes(n + 1, 4);
    lemma_small_mod(n + 1, pow2(32));
    assert(memo.subrange(4, 36) =~= b);
    lemma_le_value_of_bytes(account.hash(params), 32);
    lemma_small_mod(account.hash(params), pow2(256));
    assert(memo.subrange(shared_off(n), shared_off(n) + 32) =~= d);
    lemma_le_value_of_bytes(spec_derive_key_a(params, shared).0, 32);
    lemma_small_mod(spec_derive_key_a(params, shared).0, pow2(256));
    assert(memo.subrange(shared_off(n) + 32, account_off(n)) =~= e);
    assert(memo.subrange(account_off(n), note_off(n, 0)) =~= f);
    assert forall|i: int| 0 <= i < n implies #[trigger] num_at(memo, 36 + 32 * i) == Some(
        notes[i].hash(params),
    ) by {
        lemma_note_hashes_bytes(params, notes, i);
        assert(memo.subrange(36 + 32 * i, 36 + 32 * i + 32) =~= c.subrange(32 * i, 32 * i + 32));
        assert(note_sealed(params, notes[i], scalars[i]));
        lemma_le_value_of_bytes(notes[i].hash(params), 32);
        lemma_small_mod(notes[i].hash(params), pow2(256));
    }
    assert forall|i: int| 0 <= i < n implies #[trigger] memo.subrange(
        note_off(n, i),
        note_off(n, i) + 108,
    ) == note_record(params, notes[i], scalars[i]) by {
        lemma_note_records(params, notes, scalars, i);
        assert(memo.subrange(note_off(n, i), note_off(n, i) + 108) =~= g.subrange(
            108 * i,
            108 * i + 108,
        ));
    }
}

/// The sender reads back what it has sealed: where the one-time point of
/// the sender is read back from its first coordinate, `decrypt_out` gives
/// the account and the notes that `encrypt_with_keys` was given.
pub proof fn lemma_decrypt_out_of_encrypt(
    params: &PoolBN256,
    account_key: Seq<u8>,
    scalars: Seq<nat>,
    shared: nat,
    eta: nat,
    account: AccountV,
    notes: Seq<NoteV>,
)
    requires
        memo_sealed(params, account_key, scalars, shared, eta, account, notes),
        account.in_range(),
        notes_in_range(notes),
        point_decompress(spec_derive_key_a(params, shared).0) == Some(
            spec_derive_key_a(params, shared),
        ),
    ensures
        spec_decrypt_out(
            params,
            eta,
            memo_bytes(params, account_key, scalars, shared, eta, account, notes),
        ) == Some((account, notes)),
{
    let memo = memo_bytes(params, account_key, scalars, shared, eta, account, notes);
    let n = notes.len();
    let text = account_key + note_keys_bytes(notes, scalars);
    lemma_memo_layout(params, account_key, scalars, shared, eta, account, notes);
    assert(note_hashes_ok(memo, n));
    assert(memo_head_ok(memo));
    assert(sender_keys(params, eta, memo, n) == Some(text));
    if n > 0 {
        lemma_note_keys_bytes(params, notes, scalars, 0);
    } else {
        reveal_with_fuel(note_keys_bytes, 1);
    }
    assert(text.subrange(0, 32) =~= account_key);
    lemma_account_round_trip(account);
    assert(open_account(
        params,
        text.subrange(0, 32),
        memo.subrange(account_off(n), note_off(n, 0)),
        num_at(memo, 4).unwrap(),
    ) == Some(account));
    assert forall|i: int| 0 <= i < n implies #[trigger] spec_decrypt_out_note(
        params,
        text,
        memo,
        n,
        i,
    ) == Some(notes[i]) by {
        lemma_note_keys_bytes(params, notes, scalars, i);
        assert(text.subrange(32 * (i + 1), 32 * (i + 2)) =~= note_keys_bytes(
            notes,
            scalars,
        ).subrange(32 * i, 32 * i + 32));
        let record = memo.subrange(note_off(n, i), note_off(n, i) + 108);
        assert(record == note_record(params, notes[i], scalars[i]));
        assert(memo.subrange(note_off(n, i) + 32, note_off(n, i) + 108) =~= record.subrange(
            32,
            108,
        ));
        assert(note_sealed(params, notes[i], scalars[i]));
        assert(record.subrange(32, 108) =~= chacha20poly1305_seal(
            note_key(notes[i], scalars[i]),
            encryption_nonce(),
            note_bytes(notes[i]),
        ));
        assert(notes[i].in_range());
        lemma_note_round_trip(notes[i]);
        assert(num_at(memo, 36 + 32 * i) == Some(notes[i].hash(params)));
    }
    assert(Seq::new(n, |i: int| spec_decrypt_out_note(params, text, memo, n, i).unwrap())
        =~= notes);
}

/// Whether the owner of the view key `eta` shares the key of the note
/// sealed with the one-time scalar `a`: the one-time public key is read back
/// from its first coordinate, and its multiple by the view key is the
/// multiple of the point of the note by the scalar.
pub open spec fn keys_agree(params: &PoolBN256, note: NoteV, a: nat, eta: nat) -> bool {
    let base = spec_diversified_base(params, note.d);
    let a_pub = point_mul(base.0, base.1, a);
    point_decompress(a_pub.0) == Some(a_pub) && ecdh_key(a_pub, eta % scalar_modulus())
        == note_key(note, a)
}

/// A recipient reads the note sealed for it: where the note `i` is addressed
/// to the recipient and the keys of the two sides agree on it, `decrypt_in`
/// gives that note at `i`.
pub proof fn lemma_decrypt_in_of_encrypt(
    params: &PoolBN256,
    account_key: Seq<u8>,
    scalars: Seq<nat>,
    shared: nat,
    eta: nat,
    account: AccountV,
    notes: Seq<NoteV>,
    recipient: nat,
    i: int,
)
    requires
        memo_sealed(params, account_key, scalars, shared, eta, account, notes),
        0 <= i < notes.len(),
        notes[i].in_range(),
        note_owned(params, notes[i], recipient),
        keys_agree(params, notes[i], scalars[i], recipient),
    ensures
        spec_decrypt_in(
            params,
            recipient,
            memo_bytes(params, account_key, scalars, shared, eta, account, notes),
        ).len() == notes.len(),
        spec_decrypt_in(
            params,
            recipient,
            memo_bytes(params, account_key, scalars, shared, eta, account, notes),
        )[i] == Some(notes[i]),
{
    let memo = memo_bytes(params, account_key, scalars, shared, eta, account, notes);
    let n = notes.len();
    lemma_memo_layout(params, account_key, scalars, shared, eta, account, notes);
    assert(note_hashes_ok(memo, n));
    assert(memo_head_ok(memo));
    let off = note_off(n, i);
    let record = memo.subrange(off, off + 108);
    assert(record == note_record(params, notes[i], scalars[i]));
    assert(note_sealed(params, notes[i], scalars[i]));
    crate::native::borsh::lemma_note_len(notes[i]);
    assert(memo.subrange(off, off + 32) =~= record.subrange(0, 32));
    assert(record.subrange(0, 32) =~= le_bytes(note_a_pub(params, notes[i], scalars[i]), 32));
    lemma2_to64();
    crate::circuit::bitify::lemma_modulus_bits();
    vstd::arithmetic::power2::lemma_pow2_adds(254, 2);
    lemma_le_value_of_bytes(note_a_pub(params, notes[i], scalars[i]), 32);
    lemma_small_mod(note_a_pub(params, notes[i], scalars[i]), pow2(256));
    assert(memo.subrange(off + 32, off + 108) =~= record.subrange(32, 108));
    assert(record.subrange(32, 108) =~= chacha20poly1305_seal(
        note_key(notes[i], scalars[i]),
        encryption_nonce(),
        note_bytes(notes[i]),
    ));
    lemma_note_round_trip(notes[i]);
    assert(num_at(memo, 36 + 32 * i) == Some(notes[i].hash(params)));
    assert(spec_decrypt_in_note(params, recipient, memo, n, i) == Some(notes[i]));
}

/// Whatever the memo, a note that `decrypt_in` gives is addressed to the
/// reader and has the commitment that the memo announces for it: for a key
/// that the note is not addressed to, there is nothing to read.
pub proof fn lemma_decrypt_in_sound(params: &PoolBN256, eta: nat, memo: Seq<u8>, i: int)
    requires
        0 <= i < spec_decrypt_in(params, eta, memo).len(),
        spec_decrypt_in(params, eta, memo)[i].is_some(),
    ensures
        note_owned(params, spec_decrypt_in(params, eta, memo)[i].unwrap(), eta),
        spec_decrypt_in(params, eta, memo)[i].unwrap().hash(params) == note_hash_at(memo, i),
{
}

} // verus!

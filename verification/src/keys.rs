//! The AEAD key schedule: extract-then-expand with HMAC-SHA-256, domain
//! separated by the step labels `"SessCreateHeader"`, `"SessionConfirmed"`
//! and `"HKDFSSU2DataKeys"`.
//!
//! Each handshake step consumes the previous chaining key plus a fresh DH
//! shared secret and produces a new chaining key and a message cipher key;
//! both peers compute the same values from the same transcript, and every
//! intermediate buffer is wiped before the deriving function returns.

use vstd::prelude::*;

use crate::crypto::{hmac_sha256, hmac_sha256_of, wipe};
use crate::wire::push_all;

verus! {

/// The next chaining key: `HMAC(HMAC(ck, input), 0x01)`.
pub open spec fn spec_kdf_ck(ck: Seq<u8>, input: Seq<u8>) -> Seq<u8> {
    hmac_sha256_of(hmac_sha256_of(ck, input), seq![1u8])
}

/// The message cipher key: `HMAC(temp, ck' || 0x02)` with
/// `temp = HMAC(ck, input)` and `ck'` the next chaining key.
pub open spec fn spec_kdf_k(ck: Seq<u8>, input: Seq<u8>) -> Seq<u8> {
    hmac_sha256_of(hmac_sha256_of(ck, input), spec_kdf_ck(ck, input) + seq![2u8])
}

/// A label-expanded key: `HMAC(HMAC(ck, ""), label || 0x01)`.
pub open spec fn spec_kdf_label(ck: Seq<u8>, label: Seq<u8>) -> Seq<u8> {
    hmac_sha256_of(hmac_sha256_of(ck, Seq::empty()), label + seq![1u8])
}

/// The second label-expanded key:
/// `HMAC(HMAC(ck, ""), first || label || 0x02)`.
pub open spec fn spec_kdf_label_second(ck: Seq<u8>, label: Seq<u8>) -> Seq<u8> {
    hmac_sha256_of(
        hmac_sha256_of(ck, Seq::empty()),
        spec_kdf_label(ck, label) + label + seq![2u8],
    )
}

/// The label of the header key protecting `SessionCreated`.
pub open spec fn spec_label_create(i: int) -> u8 {
    seq![
        83u8,
        101u8,
        115u8,
        115u8,
        67u8,
        114u8,
        101u8,
        97u8,
        116u8,
        101u8,
        72u8,
        101u8,
        97u8,
        100u8,
        101u8,
        114u8,
    ][i]
}

/// `"SessCreateHeader"` as bytes.
pub open spec fn spec_label_create_seq() -> Seq<u8> {
    Seq::new(16, |i: int| spec_label_create(i))
}

/// The label of the header key protecting `SessionConfirmed`.
pub open spec fn spec_label_confirmed(i: int) -> u8 {
    seq![
        83u8,
        101u8,
        115u8,
        115u8,
        105u8,
        111u8,
        110u8,
        67u8,
        111u8,
        110u8,
        102u8,
        105u8,
        114u8,
        109u8,
        101u8,
        100u8,
    ][i]
}

/// `"SessionConfirmed"` as bytes.
pub open spec fn spec_label_confirmed_seq() -> Seq<u8> {
    Seq::new(16, |i: int| spec_label_confirmed(i))
}

/// The label of the data-phase keys.
pub open spec fn spec_label_data(i: int) -> u8 {
    seq![
        72u8,
        75u8,
        68u8,
        70u8,
        83u8,
        83u8,
        85u8,
        50u8,
        68u8,
        97u8,
        116u8,
        97u8,
        75u8,
        101u8,
        121u8,
        115u8,
    ][i]
}

/// `"HKDFSSU2DataKeys"` as bytes.
pub open spec fn spec_label_data_seq() -> Seq<u8> {
    Seq::new(16, |i: int| spec_label_data(i))
}

/// `"SessCreateHeader"` as a byte vector.
pub fn label_create() -> (r: Vec<u8>)
    ensures
        r@ == spec_label_create_seq(),
{
    let v: Vec<u8> = vec![83, 101, 115, 115, 67, 114, 101, 97, 116, 101, 72, 101, 97, 100, 101, 114];
    assert(v@ =~= spec_label_create_seq());
    v
}

/// `"SessionConfirmed"` as a byte vector.
pub fn label_confirmed() -> (r: Vec<u8>)
    ensures
        r@ == spec_label_confirmed_seq(),
{
    let v: Vec<u8> = vec![
        83,
        101,
        115,
        115,
        105,
        111,
        110,
        67,
        111,
        110,
        102,
        105,
        114,
        109,
        101,
        100,
    ];
    assert(v@ =~= spec_label_confirmed_seq());
    v
}

/// `"HKDFSSU2DataKeys"` as a byte vector.
pub fn label_data() -> (r: Vec<u8>)
    ensures
        r@ == spec_label_data_seq(),
{
    let v: Vec<u8> = vec![72, 75, 68, 70, 83, 83, 85, 50, 68, 97, 116, 97, 75, 101, 121, 115];
    assert(v@ =~= spec_label_data_seq());
    v
}

/// One extract-then-expand step: consume the previous chaining key and a
/// fresh shared secret, produce the next chaining key and the message cipher
/// key. The shared secret and the intermediate extraction key are wiped
/// before this returns.
pub fn kdf_step(ck: &Vec<u8>, shared: &mut Vec<u8>) -> (r: (Vec<u8>, Vec<u8>))
    ensures
        r.0@ == spec_kdf_ck(ck@, old(shared)@),
        r.1@ == spec_kdf_k(ck@, old(shared)@),
        r.0@.len() == 32,
        r.1@.len() == 32,
        final(shared)@.len() == 0,
{
    let mut temp_key = hmac_sha256(ck, shared);
    let mut one: Vec<u8> = Vec::new();
    one.push(1u8);
    let next_ck = hmac_sha256(&temp_key, &one);
    assert(one@ =~= seq![1u8]);
    let mut data: Vec<u8> = Vec::new();
    push_all(&mut data, &next_ck);
    data.push(2u8);
    assert(data@ =~= spec_kdf_ck(ck@, shared@) + seq![2u8]);
    let cipher_key = hmac_sha256(&temp_key, &data);
    wipe(&mut temp_key);
    wipe(shared);
    (next_ck, cipher_key)
}

/// Derive a label-separated header key from a chaining key.
pub fn kdf_label(ck: &Vec<u8>, label: &Vec<u8>) -> (r: Vec<u8>)
    ensures
        r@ == spec_kdf_label(ck@, label@),
        r@.len() == 32,
{
    let empty: Vec<u8> = Vec::new();
    let mut temp_key = hmac_sha256(ck, &empty);
    let mut data: Vec<u8> = Vec::new();
    push_all(&mut data, label);
    data.push(1u8);
    assert(data@ =~= label@ + seq![1u8]);
    let key = hmac_sha256(&temp_key, &data);
    wipe(&mut temp_key);
    key
}

/// Derive the second label-separated key from a chaining key.
pub fn kdf_label_second(ck: &Vec<u8>, label: &Vec<u8>) -> (r: Vec<u8>)
    ensures
        r@ == spec_kdf_label_second(ck@, label@),
        r@.len() == 32,
{
    let empty: Vec<u8> = Vec::new();
    let mut temp_key = hmac_sha256(ck, &empty);
    let first = kdf_label(ck, label);
    let mut data: Vec<u8> = Vec::new();
    push_all(&mut data, &first);
    push_all(&mut data, label);
    data.push(2u8);
    assert(data@ =~= spec_kdf_label(ck@, label@) + label@ + seq![2u8]);
    let key = hmac_sha256(&temp_key, &data);
    wipe(&mut temp_key);
    key
}

/// The two direction roots of the data phase: `k_ab = HMAC(HMAC(ck,""), 1)`
/// and `k_ba = HMAC(HMAC(ck,""), k_ab || 2)`.
pub open spec fn spec_data_root_ab(ck: Seq<u8>) -> Seq<u8> {
    hmac_sha256_of(hmac_sha256_of(ck, Seq::empty()), seq![1u8])
}

/// See [`spec_data_root_ab`].
pub open spec fn spec_data_root_ba(ck: Seq<u8>) -> Seq<u8> {
    hmac_sha256_of(hmac_sha256_of(ck, Seq::empty()), spec_data_root_ab(ck) + seq![2u8])
}

/// The AEAD key of one data-phase direction.
pub open spec fn spec_data_key(root: Seq<u8>) -> Seq<u8> {
    spec_kdf_label(root, spec_label_data_seq())
}

/// The header key of one data-phase direction.
pub open spec fn spec_data_header_key(root: Seq<u8>) -> Seq<u8> {
    spec_kdf_label_second(root, spec_label_data_seq())
}

/// The four data-phase keys a completed handshake yields.
pub struct DataPhaseKeys {
    /// AEAD key, initiator to responder.
    pub k_data_ab: Vec<u8>,
    /// Header key, initiator to responder.
    pub k_header_2_ab: Vec<u8>,
    /// AEAD key, responder to initiator.
    pub k_data_ba: Vec<u8>,
    /// Header key, responder to initiator.
    pub k_header_2_ba: Vec<u8>,
}

impl DataPhaseKeys {
    /// All four keys, derived from the final chaining key.
    pub open spec fn is_derived_from(&self, ck: Seq<u8>) -> bool {
        &&& self.k_data_ab@ == spec_data_key(spec_data_root_ab(ck))
        &&& self.k_header_2_ab@ == spec_data_header_key(spec_data_root_ab(ck))
        &&& self.k_data_ba@ == spec_data_key(spec_data_root_ba(ck))
        &&& self.k_header_2_ba@ == spec_data_header_key(spec_data_root_ba(ck))
        &&& self.k_data_ab@.len() == 32 && self.k_header_2_ab@.len() == 32
        &&& self.k_data_ba@.len() == 32 && self.k_header_2_ba@.len() == 32
    }
}

/// Derive the data-phase keys from the final chaining key.
pub fn kdf_data_phase(ck: &Vec<u8>) -> (r: DataPhaseKeys)
    ensures
        r.is_derived_from(ck@),
{
    let empty: Vec<u8> = Vec::new();
    let mut temp_key = hmac_sha256(ck, &empty);
    let mut one: Vec<u8> = Vec::new();
    one.push(1u8);
    assert(one@ =~= seq![1u8]);
    let k_ab = hmac_sha256(&temp_key, &one);
    let mut data: Vec<u8> = Vec::new();
    push_all(&mut data, &k_ab);
    data.push(2u8);
    assert(data@ =~= spec_data_root_ab(ck@) + seq![2u8]);
    let k_ba = hmac_sha256(&temp_key, &data);
    wipe(&mut temp_key);

    let label = label_data();
    let k_data_ab = kdf_label(&k_ab, &label);
    let k_header_2_ab = kdf_label_second(&k_ab, &label);
    let k_data_ba = kdf_label(&k_ba, &label);
    let k_header_2_ba = kdf_label_second(&k_ba, &label);
    DataPhaseKeys { k_data_ab, k_header_2_ab, k_data_ba, k_header_2_ba }
}

/// Transcript agreement: the key schedule is a function of the transcript
/// alone. Two peers that start from equal chaining keys and transcript
/// hashes and feed in equal shared secrets derive byte-equal chaining keys,
/// cipher keys, header keys and data-phase keys — so the first AEAD
/// mismatch, not a silent divergence, is where a disagreeing handshake
/// fails.
pub proof fn lemma_transcript_agreement(
    ck_a: Seq<u8>,
    ck_b: Seq<u8>,
    shared_a: Seq<u8>,
    shared_b: Seq<u8>,
    label: Seq<u8>,
)
    requires
        ck_a == ck_b,
        shared_a == shared_b,
    ensures
        spec_kdf_ck(ck_a, shared_a) == spec_kdf_ck(ck_b, shared_b),
        spec_kdf_k(ck_a, shared_a) == spec_kdf_k(ck_b, shared_b),
        spec_kdf_label(spec_kdf_ck(ck_a, shared_a), label) == spec_kdf_label(
            spec_kdf_ck(ck_b, shared_b),
            label,
        ),
        spec_data_key(spec_data_root_ab(spec_kdf_ck(ck_a, shared_a))) == spec_data_key(
            spec_data_root_ab(spec_kdf_ck(ck_b, shared_b)),
        ),
        spec_data_key(spec_data_root_ba(spec_kdf_ck(ck_a, shared_a))) == spec_data_key(
            spec_data_root_ba(spec_kdf_ck(ck_b, shared_b)),
        ),
        spec_data_header_key(spec_data_root_ab(spec_kdf_ck(ck_a, shared_a)))
            == spec_data_header_key(spec_data_root_ab(spec_kdf_ck(ck_b, shared_b))),
        spec_data_header_key(spec_data_root_ba(spec_kdf_ck(ck_a, shared_a)))
            == spec_data_header_key(spec_data_root_ba(spec_kdf_ck(ck_b, shared_b))),
{
}

} // verus!

//! Cryptographic primitives behind trusted wrappers: fixed-output hash,
//! keyed hash, AEAD, header-keystream cipher, X25519 key agreement, secure
//! randomness and key zeroization.
//!
//! The primitives themselves are outside code; each wrapper's contract names
//! its result so that the packet and key-schedule logic built on top can be
//! verified exactly.

use vstd::prelude::*;

use chacha20::cipher::KeyIvInit;
use sha2::Digest;
use chacha20::cipher::StreamCipher;
use chacha20poly1305::aead::Aead;
use chacha20poly1305::KeyInit;
use hmac::Mac;
use rand_core::RngCore;
use zeroize::Zeroize;

verus! {

/// The SHA-256 digest of `data`: a fixed function of the input alone.
pub uninterp spec fn sha256_of(data: Seq<u8>) -> Seq<u8>;

/// The HMAC-SHA-256 tag of `data` under `key`: a fixed function of both.
pub uninterp spec fn hmac_sha256_of(key: Seq<u8>, data: Seq<u8>) -> Seq<u8>;

/// The X25519 scalar multiplication of (clamped) `scalar` and `point`.
pub uninterp spec fn x25519_of(scalar: Seq<u8>, point: Seq<u8>) -> Seq<u8>;

/// The ChaCha20-Poly1305 sealing of `plain` under `key`, `nonce` and `aad`:
/// ciphertext with the 16-byte authentication tag appended.
pub uninterp spec fn chacha_seal_of(key: Seq<u8>, nonce: u64, aad: Seq<u8>, plain: Seq<u8>) -> Seq<
    u8,
>;

/// The first eight ChaCha20 keystream bytes under `key` and the 12-byte
/// `sample`: the header-obfuscation mask.
pub uninterp spec fn hdr_mask_of(key: Seq<u8>, sample: Seq<u8>) -> Seq<u8>;

/// Relies on sha2's `Sha256::digest`: the 32-byte digest depends on the
/// input bytes alone.
#[verifier::external_body]
pub fn sha256(data: &Vec<u8>) -> (r: Vec<u8>)
    ensures
        r@ == sha256_of(data@),
        r@.len() == 32,
{
    sha2::Sha256::digest(data.as_slice()).to_vec()
}

/// Relies on hmac's `Hmac::<Sha256>`: the 32-byte tag depends on the key and
/// input bytes alone; every key length is accepted.
#[verifier::external_body]
pub fn hmac_sha256(key: &Vec<u8>, data: &Vec<u8>) -> (r: Vec<u8>)
    ensures
        r@ == hmac_sha256_of(key@, data@),
        r@.len() == 32,
{
    let mut mac = <hmac::Hmac<sha2::Sha256> as hmac::Mac>::new_from_slice(key.as_slice()).expect(
        "any length",
    );
    mac.update(data.as_slice());
    mac.finalize().into_bytes().to_vec()
}

/// Relies on x25519-dalek's `x25519`: clamped scalar multiplication on
/// Curve25519, a fixed 32-byte function of scalar and point.
#[verifier::external_body]
pub fn x25519_dh(scalar: &Vec<u8>, point: &Vec<u8>) -> (r: Vec<u8>)
    requires
        scalar@.len() == 32,
        point@.len() == 32,
    ensures
        r@ == x25519_of(scalar@, point@),
        r@.len() == 32,
{
    let k: [u8; 32] = scalar.as_slice().try_into().expect("scalar is 32 bytes");
    let u: [u8; 32] = point.as_slice().try_into().expect("point is 32 bytes");
    x25519_dalek::x25519(k, u).to_vec()
}

/// Relies on chacha20poly1305's `encrypt`: deterministic in key, nonce, aad
/// and plaintext; the ciphertext carries a postfix 16-byte tag. The 12-byte
/// AEAD nonce is the 64-bit value big-endian, zero-padded on the left.
#[verifier::external_body]
pub fn chacha_seal(key: &Vec<u8>, nonce: u64, aad: &Vec<u8>, plain: &Vec<u8>) -> (r: Vec<u8>)
    requires
        key@.len() == 32,
    ensures
        r@ == chacha_seal_of(key@, nonce, aad@, plain@),
        r@.len() == plain@.len() + 16,
{
    let cipher = chacha20poly1305::ChaCha20Poly1305::new(key.as_slice().into());
    let mut n = [0u8; 12];
    n[4..].copy_from_slice(&nonce.to_be_bytes());
    let payload = chacha20poly1305::aead::Payload { msg: plain.as_slice(), aad: aad.as_slice() };
    cipher.encrypt((&n).into(), payload).expect("sealing never fails")
}

/// Relies on chacha20poly1305's `decrypt`: it returns the plaintext exactly
/// when the ciphertext was sealed under the same key, nonce and aad, and a
/// ciphertext authenticates at most one plaintext.
#[verifier::external_body]
pub fn chacha_open(key: &Vec<u8>, nonce: u64, aad: &Vec<u8>, ct: &Vec<u8>) -> (r: Option<Vec<u8>>)
    requires
        key@.len() == 32,
    ensures
        match r {
            Some(p) => ct@ == chacha_seal_of(key@, nonce, aad@, p@) && p@.len() + 16 == ct@.len()
                && (forall|q: Seq<u8>| ct@ == chacha_seal_of(key@, nonce, aad@, q) ==> q == p@),
            None => forall|q: Seq<u8>| ct@ != chacha_seal_of(key@, nonce, aad@, q),
        },
{
    let cipher = chacha20poly1305::ChaCha20Poly1305::new(key.as_slice().into());
    let mut n = [0u8; 12];
    n[4..].copy_from_slice(&nonce.to_be_bytes());
    let payload = chacha20poly1305::aead::Payload { msg: ct.as_slice(), aad: aad.as_slice() };
    cipher.decrypt((&n).into(), payload).ok()
}

/// Relies on chacha20's `apply_keystream`: the keystream is a fixed function
/// of key and nonce; the first eight bytes mask one header half.
#[verifier::external_body]
pub fn hdr_mask(key: &Vec<u8>, sample: &Vec<u8>) -> (r: Vec<u8>)
    requires
        key@.len() == 32,
        sample@.len() == 12,
    ensures
        r@ == hdr_mask_of(key@, sample@),
        r@.len() == 8,
{
    let mut cipher = chacha20::ChaCha20::new(key.as_slice().into(), sample.as_slice().into());
    let mut buf = [0u8; 8];
    cipher.apply_keystream(&mut buf);
    buf.to_vec()
}

/// Relies on rand_core's `OsRng::next_u64`: nothing is promised of the value.
#[verifier::external_body]
pub fn rng_u64() -> u64 {
    rand_core::OsRng.next_u64()
}

/// Relies on rand_core's `OsRng::fill_bytes`: only the length is promised.
#[verifier::external_body]
pub fn rng_bytes32() -> (r: Vec<u8>)
    ensures
        r@.len() == 32,
{
    let mut buf = [0u8; 32];
    rand_core::OsRng.fill_bytes(&mut buf);
    buf.to_vec()
}

/// Relies on zeroize's `Vec::zeroize`: every element is overwritten with
/// zeros and the vector is cleared.
#[verifier::external_body]
pub fn wipe(v: &mut Vec<u8>)
    ensures
        final(v)@.len() == 0,
{
    v.zeroize();
}

/// The canonical Curve25519 base point, little-endian.
pub open spec fn spec_basepoint() -> Seq<u8> {
    seq![
        9u8,
        0u8,
        0u8,
        0u8,
        0u8,
        0u8,
        0u8,
        0u8,
        0u8,
        0u8,
        0u8,
        0u8,
        0u8,
        0u8,
        0u8,
        0u8,
        0u8,
        0u8,
        0u8,
        0u8,
        0u8,
        0u8,
        0u8,
        0u8,
        0u8,
        0u8,
        0u8,
        0u8,
        0u8,
        0u8,
        0u8,
        0u8,
    ]
}

/// The Curve25519 base point as a byte vector.
pub fn basepoint() -> (r: Vec<u8>)
    ensures
        r@ == spec_basepoint(),
        r@.len() == 32,
{
    let mut v: Vec<u8> = Vec::new();
    v.push(9u8);
    let mut i: usize = 0;
    while i < 31
        invariant
            i <= 31,
            v@.len() == i + 1,
            v@[0] == 9u8,
            forall|j: int| 1 <= j < v@.len() ==> v@[j] == 0u8,
        decreases 31 - i,
    {
        v.push(0u8);
        i = i + 1;
    }
    assert(v@ =~= spec_basepoint());
    v
}

/// An X25519 ephemeral private key: 32 random bytes, wiped by the key
/// agreement that consumes them.
pub struct EphemeralPrivateKey {
    bytes: Vec<u8>,
}

impl EphemeralPrivateKey {
    /// The scalar bytes the key currently holds.
    pub closed spec fn view(&self) -> Seq<u8> {
        self.bytes@
    }

    /// A live key: 32 scalar bytes, not yet wiped.
    pub open spec fn is_live(&self) -> bool {
        self@.len() == 32
    }

    /// A wiped key: nothing left to read.
    pub open spec fn is_wiped(&self) -> bool {
        self@.len() == 0
    }

    /// Draw a fresh ephemeral key from the system RNG.
    pub fn random() -> (r: Self)
        ensures
            r.is_live(),
    {
        EphemeralPrivateKey { bytes: rng_bytes32() }
    }

    /// The matching public key.
    pub fn public(&self) -> (r: Vec<u8>)
        requires
            self.is_live(),
        ensures
            r@ == x25519_of(self@, spec_basepoint()),
            r@.len() == 32,
    {
        x25519_dh(&self.bytes, &basepoint())
    }

    /// Perform the key agreement that consumes this key: the shared secret
    /// is returned and the private scalar is wiped before this returns.
    pub fn dh_and_wipe(&mut self, point: &Vec<u8>) -> (r: Vec<u8>)
        requires
            old(self).is_live(),
            point@.len() == 32,
        ensures
            r@ == x25519_of(old(self)@, point@),
            r@.len() == 32,
            final(self).is_wiped(),
    {
        let shared = x25519_dh(&self.bytes, point);
        wipe(&mut self.bytes);
        shared
    }

    /// Wipe the private scalar without using it: for the paths that abandon
    /// a handshake before its last key agreement.
    pub fn wipe_key(&mut self)
        ensures
            final(self).is_wiped(),
    {
        wipe(&mut self.bytes);
    }

    /// Perform a key agreement that this key survives: a later step will
    /// consume and wipe it.
    pub fn dh(&self, point: &Vec<u8>) -> (r: Vec<u8>)
        requires
            self.is_live(),
            point@.len() == 32,
        ensures
            r@ == x25519_of(self@, point@),
            r@.len() == 32,
    {
        x25519_dh(&self.bytes, point)
    }
}

} // verus!

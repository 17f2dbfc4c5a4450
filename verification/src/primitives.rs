//! The cryptographic operations of `ring`. Everything in this module is trusted:
//! it states what the functions of `ring` do, and proves nothing of them.
use vstd::prelude::*;

use crate::crypto::{Algorithm, Mask, Nonce, SAMPLE_LEN, TAG_LEN};

verus! {

/// The mask that `ring::aead::quic::HeaderProtectionKey::new_mask` makes of a
/// sample.
pub uninterp spec fn header_mask(alg: Algorithm, key: Seq<u8>, sample: Seq<u8>) -> Seq<u8>;

/// The ciphertext, with its tag behind it, that
/// `ring::aead::LessSafeKey::seal_in_place_separate_tag` makes of `plain`.
pub uninterp spec fn aead_sealed(
    alg: Algorithm,
    key: Seq<u8>,
    nonce: Seq<u8>,
    ad: Seq<u8>,
    plain: Seq<u8>,
) -> Seq<u8>;

/// The plaintext that `ring::aead::LessSafeKey::open_in_place` finds in `sealed`,
/// if `sealed` is authentic.
pub uninterp spec fn aead_opened(
    alg: Algorithm,
    key: Seq<u8>,
    nonce: Seq<u8>,
    ad: Seq<u8>,
    sealed: Seq<u8>,
) -> Option<Seq<u8>>;

/// The first block of what `ring::hkdf::Prk::expand` makes, with SHA-256, of the
/// pseudorandom key that `ring::hkdf::Salt::extract` makes of `secret`.
pub uninterp spec fn hkdf_derived(salt: Seq<u8>, secret: Seq<u8>, info: Seq<u8>) -> Seq<u8>;

/// The first block of what `ring::hkdf::Prk::expand` makes, with SHA-256, of the
/// pseudorandom key `prk`.
pub uninterp spec fn hkdf_expanded(prk: Seq<u8>, info: Seq<u8>) -> Seq<u8>;

/// Calls `ring::aead::quic::HeaderProtectionKey::new` and, on the key that it
/// makes, `new_mask`. The first fails if and only if the key does not have the
/// length that the algorithm asks for, the second if and only if the sample does
/// not have [`SAMPLE_LEN`] bytes; the mask depends on the algorithm, the key and
/// the sample alone.
#[verifier::external_body]
pub(crate) fn quic_header_mask(alg: Algorithm, key: &[u8], sample: &[u8]) -> (res: Option<Mask>)
    ensures
        match res {
            Some(mask) => {
                &&& key@.len() == alg.spec_key_len()
                &&& sample@.len() == SAMPLE_LEN
                &&& mask@ == header_mask(alg, key@, sample@)
            },
            None => key@.len() != alg.spec_key_len() || sample@.len() != SAMPLE_LEN,
        },
{
    let cipher = match alg {
        Algorithm::AES128_GCM => &ring::aead::quic::AES_128,
        Algorithm::AES256_GCM => &ring::aead::quic::AES_256,
        Algorithm::ChaCha20_Poly1305 => &ring::aead::quic::CHACHA20,
    };
    match ring::aead::quic::HeaderProtectionKey::new(cipher, key) {
        Ok(key) => key.new_mask(sample).ok(),
        Err(_) => None,
    }
}

/// Calls `ring::aead::UnboundKey::new` and, on the key that it makes,
/// `LessSafeKey::open_in_place`. Where `buf` is authentic, its plaintext is put
/// at the start of `buf`, the tag behind it stays, and the length of the
/// plaintext is returned. Where it is not, nothing is claimed of what is in `buf`
/// afterwards: `ring` leaves that open.
///
/// Plaintexts longer than [`Algorithm::max_plain_len`] are left out. `ring` refuses
/// all of them but one: with AES it takes one that is longer by a single byte, and
/// its block counter, a `u32`, then overflows.
#[verifier::external_body]
pub(crate) fn aead_open(
    alg: Algorithm,
    key: &[u8],
    nonce: Nonce,
    ad: &[u8],
    buf: &mut [u8],
) -> (res: Option<usize>)
    requires
        old(buf)@.len() <= TAG_LEN + alg.spec_max_plain_len(),
    ensures
        final(buf)@.len() == old(buf)@.len(),
        match aead_opened(alg, key@, nonce@, ad@, old(buf)@) {
            Some(plain) => {
                &&& plain.len() + TAG_LEN == old(buf)@.len()
                &&& res == Some(plain.len() as usize)
                &&& final(buf)@ == plain + old(buf)@.skip(plain.len() as int)
            },
            None => res is None,
        },
{
    let cipher = match alg {
        Algorithm::AES128_GCM => &ring::aead::AES_128_GCM,
        Algorithm::AES256_GCM => &ring::aead::AES_256_GCM,
        Algorithm::ChaCha20_Poly1305 => &ring::aead::CHACHA20_POLY1305,
    };
    let key = ring::aead::LessSafeKey::new(ring::aead::UnboundKey::new(cipher, key).ok()?);
    let nonce = ring::aead::Nonce::assume_unique_for_key(nonce);
    let plain = key.open_in_place(nonce, ring::aead::Aad::from(ad), buf).ok()?;
    Some(plain.len())
}

/// Calls `ring::aead::UnboundKey::new` and, on the key that it makes,
/// `LessSafeKey::seal_in_place_separate_tag`, and returns the tag. The first
/// fails if and only if the key does not have the length that the algorithm asks
/// for, and `buf` is then not touched; the second does not fail. What was sealed is
/// opened again by `open_in_place` under the same key, nonce and associated data.
///
/// Plaintexts longer than [`Algorithm::max_plain_len`] are left out. `ring` refuses
/// all of them but one: with AES it takes one that is longer by a single byte, and
/// its block counter, a `u32`, then overflows.
#[verifier::external_body]
pub(crate) fn aead_seal(
    alg: Algorithm,
    key: &[u8],
    nonce: Nonce,
    ad: &[u8],
    buf: &mut [u8],
) -> (res: Option<Vec<u8>>)
    requires
        old(buf)@.len() <= alg.spec_max_plain_len(),
    ensures
        final(buf)@.len() == old(buf)@.len(),
        match res {
            Some(tag) => {
                let sealed = final(buf)@ + tag@;
                &&& key@.len() == alg.spec_key_len()
                &&& tag@.len() == TAG_LEN
                &&& sealed == aead_sealed(alg, key@, nonce@, ad@, old(buf)@)
                &&& aead_opened(alg, key@, nonce@, ad@, sealed) == Some(old(buf)@)
            },
            None => {
                &&& key@.len() != alg.spec_key_len()
                &&& final(buf)@ == old(buf)@
            },
        },
{
    let cipher = match alg {
        Algorithm::AES128_GCM => &ring::aead::AES_128_GCM,
        Algorithm::AES256_GCM => &ring::aead::AES_256_GCM,
        Algorithm::ChaCha20_Poly1305 => &ring::aead::CHACHA20_POLY1305,
    };
    let key = ring::aead::LessSafeKey::new(ring::aead::UnboundKey::new(cipher, key).ok()?);
    let nonce = ring::aead::Nonce::assume_unique_for_key(nonce);
    let tag = key.seal_in_place_separate_tag(nonce, ring::aead::Aad::from(ad), buf).ok()?;
    Some(tag.as_ref().to_vec())
}

/// Calls `ring::hkdf::Salt::extract` and, on the pseudorandom key that it makes,
/// `Prk::expand` for as many bytes as SHA-256 makes, and `Okm::fill`. Neither
/// fails for so few bytes.
#[verifier::external_body]
pub(crate) fn hkdf_derive(salt: &[u8], secret: &[u8], info: &[u8]) -> (res: Option<Vec<u8>>)
    ensures
        res is Some,
        res->0@.len() == 32,
        res->0@ == hkdf_derived(salt@, secret@, info@),
{
    let prk = ring::hkdf::Salt::new(ring::hkdf::HKDF_SHA256, salt).extract(secret);
    let mut out: Vec<u8> = vec![0; 32];
    prk.expand(&[info], ring::hkdf::HKDF_SHA256).ok()?.fill(&mut out).ok()?;
    Some(out)
}

/// Calls `ring::hkdf::Prk::new_less_safe` and, on the pseudorandom key that it
/// makes, `expand` for as many bytes as SHA-256 makes, and `Okm::fill`. Neither
/// fails for so few bytes.
#[verifier::external_body]
pub(crate) fn hkdf_expand(prk: &[u8], info: &[u8]) -> (res: Option<Vec<u8>>)
    ensures
        res is Some,
        res->0@.len() == 32,
        res->0@ == hkdf_expanded(prk@, info@),
{
    let prk = ring::hkdf::Prk::new_less_safe(ring::hkdf::HKDF_SHA256, prk);
    let mut out: Vec<u8> = vec![0; 32];
    prk.expand(&[info], ring::hkdf::HKDF_SHA256).ok()?.fill(&mut out).ok()?;
    Some(out)
}

} // verus!

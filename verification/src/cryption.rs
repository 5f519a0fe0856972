//! The cryptor: AES-256-GCM sealing of file contents, under a fixed key
//! derived by SHA-256 from a process-wide secret. A sealed file is a single
//! self-framed blob `nonce || ciphertext || tag`, with a fresh random nonce
//! drawn for every encryption.

use vstd::prelude::*;

use aes_gcm::aead::Aead;
use aes_gcm::aead::Generate;
use aes_gcm::aead::KeyInit;
use aes_gcm::Aes256Gcm;
use sha2::Digest;
use sha2::Sha256;

verus! {

/// Number of nonce bytes that prefix every stored blob.
pub const NONCE_LEN: usize = 12;

/// Number of authentication-tag bytes that end every stored blob.
pub const TAG_LEN: usize = 16;

/// Total framing overhead of a stored blob: nonce plus tag.
pub const FRAME_OVERHEAD: usize = 28;

/// Failure of the authenticated encryption: a frame too short to carry a
/// nonce and a tag, a tag that does not verify, a plaintext over the
/// AES-GCM length bound, or a failed random-number source.
#[derive(Clone, Copy, PartialEq, Eq, Structural, Debug)]
pub struct CryptoError;

/// The SHA-256 digest of a byte string; determined by the input alone.
pub uninterp spec fn sha256_of(input: Seq<u8>) -> Seq<u8>;

/// What AES-256-GCM with empty associated data returns when opening `ct`
/// (ciphertext followed by its 16-byte tag) under `key` and `nonce`: the
/// sealed plaintext when the tag verifies, nothing otherwise. Determined
/// by the three arguments alone.
pub uninterp spec fn aead_plain_of(key: Seq<u8>, nonce: Seq<u8>, ct: Seq<u8>) -> Option<Seq<u8>>;

/// The plaintext a self-framed blob `nonce || ciphertext || tag` opens to
/// under `key`, if it opens at all.
pub open spec fn frame_plain_of(key: Seq<u8>, frame: Seq<u8>) -> Option<Seq<u8>> {
    if frame.len() >= FRAME_OVERHEAD {
        aead_plain_of(
            key,
            frame.subrange(0, NONCE_LEN as int),
            frame.subrange(NONCE_LEN as int, frame.len() as int),
        )
    } else {
        None
    }
}

/// The plaintext a stored blob stands for: the empty string for the empty
/// blob, else whatever the frame opens to under `key`.
pub open spec fn stored_plain(key: Seq<u8>, blob: Seq<u8>) -> Option<Seq<u8>> {
    if blob.len() == 0 {
        Some(Seq::empty())
    } else {
        frame_plain_of(key, blob)
    }
}

/// Relies on sha2's Sha256: a 32-byte digest of the input.
#[verifier::external_body]
fn sha256(input: &[u8]) -> (digest: Vec<u8>)
    ensures
        digest@ == sha256_of(input@),
        digest@.len() == 32,
{
    let mut hasher = Sha256::new();
    hasher.update(input);
    hasher.finalize().to_vec()
}

/// Derive the 32-byte AES-256 key by hashing the raw process secret.
pub fn hash_key_generator(secret: &[u8]) -> (key: Vec<u8>)
    ensures
        key@ == sha256_of(secret@),
        key@.len() == 32,
{
    sha256(secret)
}

/// Relies on aes_gcm's Aes256Gcm through the Aead and Generate traits: it
/// seals `plain_text` under `key` with a freshly drawn random 12-byte nonce
/// and a 16-byte tag, and opening the returned frame under the same key
/// yields `plain_text` again. Errs when the plaintext is over the AES-GCM
/// length bound or the system's random-number source fails.
#[verifier::external_body]
pub fn encrypt_message(key: &[u8], plain_text: &[u8]) -> (r: Result<Vec<u8>, CryptoError>)
    requires
        key@.len() == 32,
    ensures
        (match r {
            Ok(frame) => {
                &&& frame@.len() == plain_text@.len() + FRAME_OVERHEAD
                &&& frame_plain_of(key@, frame@) == Some(plain_text@)
            },
            Err(_) => true,
        }),
{
    let cipher = Aes256Gcm::new_from_slice(key).map_err(|_| CryptoError)?;
    let nonce = match aes_gcm::Nonce::<aes_gcm::aead::consts::U12>::try_generate() {
        Ok(n) => n,
        Err(_) => return Err(CryptoError),
    };
    let cipher_text = cipher.encrypt(&nonce, plain_text).map_err(|_| CryptoError)?;
    let mut frame = nonce.to_vec();
    frame.extend_from_slice(&cipher_text);
    Ok(frame)
}

/// Relies on aes_gcm's Aes256Gcm through the Aead trait: it opens a
/// ciphertext-with-tag under `key` and `nonce`; the outcome is determined
/// by the arguments alone, and is the sealed plaintext exactly when the
/// tag verifies.
#[verifier::external_body]
fn aead_decrypt(key: &[u8], nonce: &[u8], ct: &[u8]) -> (r: Result<Vec<u8>, CryptoError>)
    requires
        key@.len() == 32,
        nonce@.len() == NONCE_LEN,
    ensures
        (match r {
            Ok(plain) => aead_plain_of(key@, nonce@, ct@) == Some(plain@),
            Err(_) => aead_plain_of(key@, nonce@, ct@) is None,
        }),
{
    let cipher = Aes256Gcm::new_from_slice(key).map_err(|_| CryptoError)?;
    let nonce_arr = nonce.try_into().map_err(|_| CryptoError)?;
    match cipher.decrypt(nonce_arr, ct) {
        Ok(plain) => Ok(plain),
        Err(_) => Err(CryptoError),
    }
}

/// Open a self-framed blob: split off the 12-byte nonce and verify the
/// remainder. Errs on a frame too short to carry nonce and tag, and on a
/// tag that does not verify.
pub fn decrypt_message(key: &[u8], cipher_text: &[u8]) -> (r: Result<Vec<u8>, CryptoError>)
    requires
        key@.len() == 32,
    ensures
        (match r {
            Ok(plain) => frame_plain_of(key@, cipher_text@) == Some(plain@),
            Err(_) => frame_plain_of(key@, cipher_text@) is None,
        }),
{
    if cipher_text.len() < FRAME_OVERHEAD {
        return Err(CryptoError);
    }
    let nonce = &cipher_text[0..NONCE_LEN];
    let ct = &cipher_text[NONCE_LEN..cipher_text.len()];
    aead_decrypt(key, nonce, ct)
}

} // verus!

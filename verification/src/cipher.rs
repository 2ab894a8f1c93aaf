//! The cipher of the database file: AES-256-GCM, every blob under a nonce of
//! its own that is kept in front of the ciphertext.

use aes_gcm::aead::{Aead, KeyInit};
use aes_gcm::{Aes256Gcm, Nonce};
use rand::rngs::OsRng;
use rand::RngCore;
use vstd::prelude::*;
use crate::error::{EngineError, ErrorView};

verus! {

/// The number of bytes of a nonce.
pub const NONCE_LEN: usize = 12;

/// What AES-256-GCM makes of `plaintext` under `key` and `nonce`, with no
/// associated data: the ciphertext with its tag, or nothing where the cipher
/// refuses the plaintext.
pub uninterp spec fn sealed(key: Seq<u8>, nonce: Seq<u8>, plaintext: Seq<u8>) -> Option<Seq<u8>>;

/// What AES-256-GCM reads out of `ciphertext` under `key` and `nonce`, with
/// no associated data: the plaintext, or nothing where the tag does not fit.
pub uninterp spec fn opened(key: Seq<u8>, nonce: Seq<u8>, ciphertext: Seq<u8>) -> Option<Seq<u8>>;

/// Calls `Aes256Gcm::encrypt` of the crate `aes-gcm` on a cipher made of
/// `key`. Believed, not proved: the result is a function of the three
/// arguments, named [`sealed`], and what was encrypted decrypts, under the
/// same key and nonce, to the plaintext.
#[verifier::external_body]
fn aes_encrypt(key: &[u8; 32], nonce: &[u8; 12], plaintext: &[u8]) -> (out: Option<Vec<u8>>)
    ensures
        match out {
            Some(ciphertext) => sealed(key@, nonce@, plaintext@) == Some(ciphertext@),
            None => sealed(key@, nonce@, plaintext@) is None,
        },
        out matches Some(ciphertext) ==> opened(key@, nonce@, ciphertext@) == Some(plaintext@),
{
    let cipher = Aes256Gcm::new(key.into());
    match cipher.encrypt(Nonce::from_slice(nonce), plaintext) {
        Ok(ciphertext) => Some(ciphertext),
        Err(_) => None,
    }
}

/// Calls `Aes256Gcm::decrypt` of the crate `aes-gcm` on a cipher made of
/// `key`. Believed, not proved: the result is a function of the three
/// arguments, named [`opened`].
#[verifier::external_body]
fn aes_decrypt(key: &[u8; 32], nonce: &[u8; 12], ciphertext: &[u8]) -> (out: Option<Vec<u8>>)
    ensures
        match out {
            Some(plaintext) => opened(key@, nonce@, ciphertext@) == Some(plaintext@),
            None => opened(key@, nonce@, ciphertext@) is None,
        },
{
    let cipher = Aes256Gcm::new(key.into());
    match cipher.decrypt(Nonce::from_slice(nonce), ciphertext) {
        Ok(plaintext) => Some(plaintext),
        Err(_) => None,
    }
}

/// Calls `OsRng::try_fill_bytes` of the crate `rand`: twelve bytes from the
/// operating system's random source, or nothing where it fails. Nothing is
/// claimed of the bytes.
#[verifier::external_body]
fn random_nonce() -> (nonce: Option<[u8; 12]>)
{
    let mut nonce = [0u8; 12];
    match OsRng.try_fill_bytes(&mut nonce) {
        Ok(()) => Some(nonce),
        Err(_) => None,
    }
}

/// The blob that is written: the nonce, then the ciphertext.
pub open spec fn framed(nonce: Seq<u8>, ciphertext: Option<Seq<u8>>) -> Result<Seq<u8>, ErrorView> {
    match ciphertext {
        Some(ciphertext) => Ok(nonce + ciphertext),
        None => Err(ErrorView::Encryption),
    }
}

/// The plaintext of a blob under `key`: nothing if the blob is shorter than
/// a nonce, or if what follows the nonce does not open under it.
pub open spec fn unsealed(key: Seq<u8>, blob: Seq<u8>) -> Option<Seq<u8>> {
    if blob.len() < 12 {
        None
    } else {
        opened(key, blob.take(12), blob.skip(12))
    }
}

/// What a result that holds bytes means in contracts.
pub open spec fn bytes_view(outcome: Result<Vec<u8>, EngineError>) -> Result<Seq<u8>, ErrorView> {
    match outcome {
        Ok(bytes) => Ok(bytes@),
        Err(error) => Err(error@),
    }
}

/// Puts `nonce` in front of `ciphertext`; an error where the cipher gave none.
pub fn frame(nonce: &[u8; 12], ciphertext: Option<Vec<u8>>) -> (blob: Result<Vec<u8>, EngineError>)
    ensures
        bytes_view(blob) == framed(nonce@, ciphertext.deep_view()),
{
    match ciphertext {
        Some(ciphertext) => {
            let mut blob: Vec<u8> = Vec::new();
            let mut i: usize = 0;
            while i < 12
                invariant
                    i <= 12,
                    blob@ == nonce@.take(i as int),
                decreases 12 - i,
            {
                blob.push(nonce[i]);
                assert(blob@ =~= nonce@.take(i + 1));
                i += 1;
            }
            assert(nonce@.take(12) =~= nonce@);
            let mut k: usize = 0;
            while k < ciphertext.len()
                invariant
                    k <= ciphertext.len(),
                    blob@ == nonce@ + ciphertext@.take(k as int),
                decreases ciphertext.len() - k,
            {
                blob.push(ciphertext[k]);
                assert(blob@ =~= nonce@ + ciphertext@.take(k + 1));
                k += 1;
            }
            assert(ciphertext@.take(k as int) =~= ciphertext@);
            assert(ciphertext.deep_view() =~= ciphertext@);
            Ok(blob)
        },
        None => Err(EngineError::Encryption),
    }
}

/// Encrypts `plaintext` under `key` and `nonce`. The blob that comes back
/// starts with the nonce, and [`decrypt`] reads the plaintext out of it.
pub fn encrypt_with(key: &[u8; 32], nonce: &[u8; 12], plaintext: &[u8]) -> (blob: Result<Vec<u8>, EngineError>)
    ensures
        bytes_view(blob) == framed(nonce@, sealed(key@, nonce@, plaintext@)),
        blob matches Ok(bytes) ==> unsealed(key@, bytes@) == Some(plaintext@),
{
    let ciphertext = aes_encrypt(key, nonce, plaintext);
    proof {
        if let Some(c) = &ciphertext {
            assert(c.deep_view() =~= c@);
            assert((nonce@ + c@).take(12) =~= nonce@);
            assert((nonce@ + c@).skip(12) =~= c@);
        }
    }
    frame(nonce, ciphertext)
}

/// Encrypts `plaintext` under `key` and a nonce that is drawn for this one
/// call. Whatever nonce was drawn, [`decrypt`] reads the plaintext out of
/// the blob that comes back. Fails where no nonce can be drawn or the cipher
/// refuses the plaintext.
pub fn encrypt(key: &[u8; 32], plaintext: &[u8]) -> (blob: Result<Vec<u8>, EngineError>)
    ensures
        match blob {
            Ok(bytes) => unsealed(key@, bytes@) == Some(plaintext@) && exists|nonce: Seq<u8>|
                nonce.len() == 12 && #[trigger] framed(nonce, sealed(key@, nonce, plaintext@)) == Ok::<
                    Seq<u8>,
                    ErrorView,
                >(bytes@),
            Err(error) => error@ == ErrorView::Encryption,
        },
{
    match random_nonce() {
        Some(nonce) => encrypt_with(key, &nonce, plaintext),
        None => Err(EngineError::Encryption),
    }
}

/// Reads the plaintext out of a blob that [`encrypt`] made under `key`.
/// Fails if the blob is shorter than a nonce, was made under another key, or
/// was changed since.
pub fn decrypt(key: &[u8; 32], blob: &[u8]) -> (plaintext: Result<Vec<u8>, EngineError>)
    ensures
        bytes_view(plaintext) == match unsealed(key@, blob@) {
            Some(bytes) => Ok::<Seq<u8>, ErrorView>(bytes),
            None => Err(ErrorView::Decryption),
        },
{
    if blob.len() < 12 {
        return Err(EngineError::Decryption);
    }
    let mut nonce = [0u8; 12];
    let mut i: usize = 0;
    while i < 12
        invariant
            i <= 12,
            blob.len() >= 12,
            forall|k: int| 0 <= k < i ==> nonce@[k] == blob@[k],
        decreases 12 - i,
    {
        nonce[i] = blob[i];
        i += 1;
    }
    assert(nonce@ =~= blob@.take(12));
    let mut ciphertext: Vec<u8> = Vec::new();
    let mut k: usize = 12;
    while k < blob.len()
        invariant
            12 <= k <= blob.len(),
            ciphertext@ == blob@.subrange(12, k as int),
        decreases blob.len() - k,
    {
        ciphertext.push(blob[k]);
        assert(ciphertext@ =~= blob@.subrange(12, k + 1));
        k += 1;
    }
    assert(ciphertext@ =~= blob@.skip(12));
    match aes_decrypt(key, &nonce, ciphertext.as_slice()) {
        Some(plaintext) => Ok(plaintext),
        None => Err(EngineError::Decryption),
    }
}

} // verus!

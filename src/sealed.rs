//! The sealed form of an entry: `salt (32) ‖ nonce (12) ‖ AES-256-GCM
//! ciphertext and tag`, under a secret that the authenticator derives from
//! the salt. Every function that is handed the secret wipes it before it
//! returns, on success and on failure alike.

use crate::catalog::copy_range;
use aes_gcm::aead::Aead;
use aes_gcm::{Aes256Gcm, Key, KeyInit, Nonce};
use vstd::prelude::*;
use vstd::utf8::{decode_utf8, encode_utf8, valid_utf8};
use zeroize::Zeroize;

verus! {

broadcast use vstd::utf8::decode_utf8_encode_utf8;

/// Bytes of the salt that the secret is derived from.
pub const SALT_LEN: usize = 32;

/// Bytes of the AES-GCM nonce.
pub const NONCE_LEN: usize = 12;

/// Bytes before the ciphertext: salt and nonce.
pub const HEADER_LEN: usize = 44;

/// Longest plaintext that AES-GCM seals, in bytes.
pub const PLAINTEXT_LIMIT: u64 = 68719476736;

/// Longest ciphertext, tag included, that a sealed plaintext can have.
pub const CIPHERTEXT_LIMIT: u64 = 68719476752;

/// Why sealing or opening failed.
#[derive(Debug, Clone, Copy, PartialEq, Eq, Structural)]
pub enum SealError {
    /// Too short to hold a salt and a nonce.
    Format,
    /// The plaintext is longer than AES-GCM seals.
    Encryption,
    /// The tag does not match: a wrong secret or altered bytes.
    Decryption,
    /// The opened plaintext is not UTF-8 text.
    NotUtf8,
}

/// AES-256-GCM ciphertext and tag of `plaintext` under `key` and `nonce`,
/// with no associated data.
pub uninterp spec fn gcm_seal(key: Seq<u8>, nonce: Seq<u8>, plaintext: Seq<u8>) -> Seq<u8>;

/// A secret after wiping: 32 zero bytes.
pub open spec fn wiped() -> Seq<u8> {
    Seq::new(32, |i: int| 0u8)
}

/// The sealed bytes: salt, nonce, ciphertext.
pub open spec fn sealed_layout(salt: Seq<u8>, nonce: Seq<u8>, ciphertext: Seq<u8>) -> Seq<u8> {
    salt + nonce + ciphertext
}

pub open spec fn salt_part(sealed: Seq<u8>) -> Seq<u8> {
    sealed.subrange(0, SALT_LEN as int)
}

pub open spec fn nonce_part(sealed: Seq<u8>) -> Seq<u8> {
    sealed.subrange(SALT_LEN as int, HEADER_LEN as int)
}

pub open spec fn ciphertext_part(sealed: Seq<u8>) -> Seq<u8> {
    sealed.subrange(HEADER_LEN as int, sealed.len() as int)
}

/// `sealed` is `plaintext` sealed under `key` with the nonce that it carries,
/// its ciphertext no longer than a sealed plaintext can make.
pub open spec fn opens_to(key: Seq<u8>, sealed: Seq<u8>, plaintext: Seq<u8>) -> bool {
    &&& sealed.len() >= HEADER_LEN
    &&& ciphertext_part(sealed).len() <= CIPHERTEXT_LIMIT
    &&& gcm_seal(key, nonce_part(sealed), plaintext) == ciphertext_part(sealed)
}

/// What opening `sealed` under `key` gives: the text that it seals, or why
/// there is none.
pub open spec fn opened(key: Seq<u8>, sealed: Seq<u8>) -> Result<Seq<char>, SealError> {
    if sealed.len() < HEADER_LEN {
        Err(SealError::Format)
    } else if exists|p: Seq<u8>| opens_to(key, sealed, p) {
        let p = choose|p: Seq<u8>| opens_to(key, sealed, p);
        if valid_utf8(p) {
            Ok(decode_utf8(p))
        } else {
            Err(SealError::NotUtf8)
        }
    } else {
        Err(SealError::Decryption)
    }
}

/// Relies on aes-gcm's `Aes256Gcm::encrypt`, which fails only on a plaintext
/// over its limit and appends a 16-byte tag to a ciphertext as long as the
/// plaintext.
#[verifier::external_body]
fn gcm_encrypt(key: &[u8; 32], nonce: &[u8], plaintext: &[u8]) -> (r: Option<Vec<u8>>)
    requires
        nonce@.len() == NONCE_LEN,
    ensures
        plaintext@.len() <= PLAINTEXT_LIMIT ==> r is Some,
        plaintext@.len() > PLAINTEXT_LIMIT ==> r is None,
        r matches Some(c) ==> c@ == gcm_seal(key@, nonce@, plaintext@),
        r matches Some(c) ==> c@.len() == plaintext@.len() + 16,
{
    let cipher = Aes256Gcm::new(Key::<Aes256Gcm>::from_slice(key));
    cipher.encrypt(Nonce::from_slice(nonce), plaintext).ok()
}

/// Relies on aes-gcm's `Aes256Gcm::decrypt` (through aead's
/// `decrypt_in_place`): the 16-byte tag is split off the end and checked,
/// and the call succeeds exactly on a ciphertext that `encrypt` makes under
/// the same key and nonce, handing back the one plaintext that was sealed.
/// Within `CIPHERTEXT_LIMIT` no length check of aes-gcm refuses a ciphertext.
#[verifier::external_body]
fn gcm_decrypt(key: &[u8; 32], nonce: &[u8], ciphertext: &[u8]) -> (r: Option<Vec<u8>>)
    requires
        nonce@.len() == NONCE_LEN,
        ciphertext@.len() <= CIPHERTEXT_LIMIT,
    ensures
        r matches Some(p) ==> gcm_seal(key@, nonce@, p@) == ciphertext@,
        r matches Some(p) ==> p@.len() + 16 == ciphertext@.len(),
        r matches Some(p) ==> forall|q: Seq<u8>| #[trigger] gcm_seal(key@, nonce@, q) == ciphertext@ ==> q == p@,
        r is None ==> forall|q: Seq<u8>| #[trigger] gcm_seal(key@, nonce@, q) != ciphertext@,
{
    let cipher = Aes256Gcm::new(Key::<Aes256Gcm>::from_slice(key));
    cipher.decrypt(Nonce::from_slice(nonce), ciphertext).ok()
}

/// Relies on zeroize's `Zeroize` for byte arrays: every byte is overwritten
/// with zero.
#[verifier::external_body]
fn wipe(secret: &mut [u8; 32])
    ensures
        final(secret)@ == wiped(),
{
    secret.zeroize();
}

/// Relies on `String::from_utf8`: it succeeds exactly on valid UTF-8, and the
/// text then holds those bytes.
#[verifier::external_body]
fn utf8_text(bytes: Vec<u8>) -> (r: Option<String>)
    ensures
        r is Some <==> valid_utf8(bytes@),
        r matches Some(s) ==> s@ == decode_utf8(bytes@),
{
    String::from_utf8(bytes).ok()
}

/// The salt that a sealed entry carries, which the secret to open it is
/// derived from.
pub fn salt_of(sealed: &[u8]) -> (r: Result<Vec<u8>, SealError>)
    ensures
        sealed@.len() < HEADER_LEN ==> r == Err::<Vec<u8>, SealError>(SealError::Format),
        sealed@.len() >= HEADER_LEN ==> (r matches Ok(s) && s@ == salt_part(sealed@)),
{
    if sealed.len() < HEADER_LEN {
        return Err(SealError::Format);
    }
    Ok(copy_range(sealed, 0, SALT_LEN))
}

/// Seals `plaintext` under `secret`, the secret derived from `salt`: the
/// salt, the nonce, then the AES-256-GCM ciphertext. The secret is wiped.
pub fn encrypt_data(secret: &mut [u8; 32], salt: &[u8; 32], nonce: &[u8; 12], plaintext: &str) -> (r:
    Result<Vec<u8>, SealError>)
    ensures
        final(secret)@ == wiped(),
        encode_utf8(plaintext@).len() <= PLAINTEXT_LIMIT ==> (r matches Ok(v) && v@ == sealed_layout(
            salt@,
            nonce@,
            gcm_seal(old(secret)@, nonce@, encode_utf8(plaintext@)),
        )),
        r matches Ok(v) ==> v@.len() == HEADER_LEN + encode_utf8(plaintext@).len() + 16,
        encode_utf8(plaintext@).len() > PLAINTEXT_LIMIT ==> r == Err::<Vec<u8>, SealError>(
            SealError::Encryption,
        ),
{
    let bytes = plaintext.as_bytes();
    let sealed = gcm_encrypt(secret, nonce.as_slice(), bytes);
    wipe(secret);
    match sealed {
        None => Err(SealError::Encryption),
        Some(c) => {
            let mut out: Vec<u8> = Vec::new();
            out.extend_from_slice(salt.as_slice());
            out.extend_from_slice(nonce.as_slice());
            out.extend_from_slice(c.as_slice());
            assert(out@ =~= sealed_layout(salt@, nonce@, c@));
            Ok(out)
        },
    }
}

/// Opens a sealed entry with `secret`, the secret derived from its salt, and
/// reads the plaintext as text. The secret is wiped.
pub fn decrypt_data(secret: &mut [u8; 32], sealed: &[u8]) -> (r: Result<String, SealError>)
    ensures
        final(secret)@ == wiped(),
        sealed@.len() < HEADER_LEN ==> r == Err::<String, SealError>(SealError::Format),
        sealed@.len() >= HEADER_LEN && (forall|p: Seq<u8>| !#[trigger] opens_to(old(secret)@, sealed@, p))
            ==> r == Err::<String, SealError>(SealError::Decryption),
        forall|p: Seq<u8>|
            #[trigger] opens_to(old(secret)@, sealed@, p) ==> {
                &&& valid_utf8(p) ==> (r matches Ok(s) && s@ == decode_utf8(p))
                &&& !valid_utf8(p) ==> r == Err::<String, SealError>(SealError::NotUtf8)
            },
        r matches Ok(s) ==> opens_to(old(secret)@, sealed@, encode_utf8(s@)),
        r matches Ok(s) ==> opened(old(secret)@, sealed@) == Ok::<Seq<char>, SealError>(s@),
        r matches Err(e) ==> opened(old(secret)@, sealed@) == Err::<Seq<char>, SealError>(e),
{
    if sealed.len() < HEADER_LEN {
        wipe(secret);
        return Err(SealError::Format);
    }
    if (sealed.len() - HEADER_LEN) as u64 > CIPHERTEXT_LIMIT {
        wipe(secret);
        return Err(SealError::Decryption);
    }
    let ghost key = secret@;
    let nonce = copy_range(sealed, SALT_LEN, HEADER_LEN);
    let ciphertext = copy_range(sealed, HEADER_LEN, sealed.len());
    let opened = gcm_decrypt(secret, nonce.as_slice(), ciphertext.as_slice());
    wipe(secret);
    match opened {
        None => Err(SealError::Decryption),
        Some(p) => {
            assert(opens_to(key, sealed@, p@));
            let ghost q = choose|q: Seq<u8>| opens_to(key, sealed@, q);
            assert(opens_to(key, sealed@, q));
            assert(gcm_seal(key, nonce@, q) == ciphertext@);
            assert(q == p@);
            match utf8_text(p) {
                None => Err(SealError::NotUtf8),
                Some(s) => Ok(s),
            }
        },
    }
}

/// Round trip: the bytes that `encrypt_data` returns for a text, under a
/// secret, open under the same secret to that text's UTF-8 bytes, which
/// `decrypt_data` reads back as the same text.
pub proof fn lemma_round_trip(key: Seq<u8>, salt: Seq<u8>, nonce: Seq<u8>, text: Seq<char>, sealed: Seq<u8>)
    requires
        salt.len() == SALT_LEN,
        nonce.len() == NONCE_LEN,
        encode_utf8(text).len() <= PLAINTEXT_LIMIT,
        sealed == sealed_layout(salt, nonce, gcm_seal(key, nonce, encode_utf8(text))),
        sealed.len() == HEADER_LEN + encode_utf8(text).len() + 16,
    ensures
        opens_to(key, sealed, encode_utf8(text)),
        valid_utf8(encode_utf8(text)),
        decode_utf8(encode_utf8(text)) == text,
{
    let plain = encode_utf8(text);
    let c = gcm_seal(key, nonce, plain);
    assert(nonce_part(sealed) =~= nonce);
    assert(ciphertext_part(sealed) =~= c);
    vstd::utf8::encode_utf8_valid_utf8(text);
    vstd::utf8::encode_utf8_decode_utf8(text);
}

} // verus!

//! The key lifecycle: the public key of the chosen entry is kept; the
//! private key is opened for one operation at a time and dropped after it,
//! and the secret that opened it is wiped.

use crate::catalog::{
    has_payload, is_blank, listing, payload_ok, read_blob_entry_by_index, StoreError,
};
use crate::sealed::{decrypt_data, opened, wiped, SealError};
use nostr::key::Keys;
use vstd::prelude::*;
use zeroize::Zeroize;

verus! {

#[verifier::external_type_specification]
#[verifier::external_body]
pub struct ExKeys(Keys);

/// Whether `s` is a secret key that nostr accepts.
pub uninterp spec fn is_secret_key_text(s: Seq<char>) -> bool;

/// The 32-byte x-only public key of the secret key that `s` spells.
pub uninterp spec fn xonly_public_key_of(s: Seq<char>) -> Seq<u8>;

/// Relies on nostr's `Keys::parse`, which accepts a secret key in
/// hexadecimal or bech32 and depends on the text alone, and on
/// `PublicKey::to_bytes` of `Keys::public_key`, the x-only key of the parsed
/// keys.
#[verifier::external_body]
fn parse_keys(text: &str) -> (r: Option<(Keys, [u8; 32])>)
    ensures
        r is Some <==> is_secret_key_text(text@),
        r matches Some(pair) ==> pair.1@ == xonly_public_key_of(text@),
{
    match Keys::parse(text) {
        Ok(keys) => {
            let public_key = keys.public_key().to_bytes();
            Some((keys, public_key))
        },
        Err(_) => None,
    }
}

/// Relies on zeroize's `Zeroize` for `String`: its bytes are overwritten
/// with zero and it is left empty.
#[verifier::external_body]
fn wipe_text(text: &mut String)
    ensures
        final(text)@ == Seq::<char>::empty(),
{
    text.zeroize();
}

/// A private key opened from a catalog entry, with its public key; it
/// remembers the text it was parsed from. Dropping it erases the key.
pub struct SigningKey {
    keys: Keys,
    public_key: [u8; 32],
    text: Ghost<Seq<char>>,
}

impl SigningKey {
    /// The text that the key was parsed from.
    pub closed spec fn spec_text(&self) -> Seq<char> {
        self.text@
    }

    pub closed spec fn spec_public_key(&self) -> Seq<u8> {
        self.public_key@
    }

    /// The nostr keys parsed from `spec_text`, for signing and encryption.
    pub fn keys(&self) -> &Keys {
        &self.keys
    }

    /// The x-only public key of the key.
    pub fn public_key(&self) -> (r: [u8; 32])
        ensures
            r@ == self.spec_public_key(),
    {
        self.public_key
    }
}

/// Why a key could not be had.
#[derive(Debug, Clone, Copy, PartialEq, Eq, Structural)]
pub enum KeyError {
    /// The pinned position is no longer in the catalog.
    EntryVanished,
    /// The catalog could not be read.
    Store(StoreError),
    /// The entry did not open.
    Seal(SealError),
    /// The entry opened to text that is no secret key.
    InvalidKey,
}

/// What opening `sealed` under `secret` and reading it as a key gives.
pub open spec fn key_outcome(secret: Seq<u8>, sealed: Seq<u8>) -> Result<Seq<char>, KeyError> {
    match opened(secret, sealed) {
        Err(e) => Err(KeyError::Seal(e)),
        Ok(t) => if is_secret_key_text(t) {
            Ok(t)
        } else {
            Err(KeyError::InvalidKey)
        },
    }
}

/// The sealed record at a pinned position of a stored catalog.
pub open spec fn pinned_outcome(blob: Seq<u8>, index: int) -> Result<(), KeyError> {
    let listed = listing(blob);
    if is_blank(blob) {
        Err(KeyError::EntryVanished)
    } else if !vstd::utf8::valid_utf8(blob) {
        Err(KeyError::Store(StoreError::NotUtf8))
    } else if index >= listed.len() {
        Err(KeyError::EntryVanished)
    } else if !has_payload(listed[index]) {
        Err(KeyError::Store(StoreError::BadEncoding))
    } else {
        Ok(())
    }
}

/// The key opened from text `t`: parsed from it, with its public key.
pub open spec fn opened_from(k: SigningKey, t: Seq<char>) -> bool {
    k.spec_text() == t && k.spec_public_key() == xonly_public_key_of(t)
}

/// Opens the private key that `sealed` holds; the opened text is wiped
/// once parsed.
fn open_keys(secret: &mut [u8; 32], sealed: &[u8]) -> (r: Result<SigningKey, KeyError>)
    ensures
        final(secret)@ == wiped(),
        r is Ok <==> key_outcome(old(secret)@, sealed@) is Ok,
        r matches Err(e) ==> key_outcome(old(secret)@, sealed@) == Err::<Seq<char>, KeyError>(e),
        r matches Ok(k) ==> key_outcome(old(secret)@, sealed@) == Ok::<Seq<char>, KeyError>(
            k.spec_text(),
        ) && opened_from(k, k.spec_text()),
{
    let mut text = match decrypt_data(secret, sealed) {
        Ok(t) => t,
        Err(e) => {
            return Err(KeyError::Seal(e));
        },
    };
    let ghost t = text@;
    let parsed = parse_keys(text.as_str());
    wipe_text(&mut text);
    match parsed {
        Some((keys, public_key)) => Ok(SigningKey { keys, public_key, text: Ghost(t) }),
        None => Err(KeyError::InvalidKey),
    }
}

/// Holds the choice of one catalog entry and the public key that it was
/// validated with; never the private key.
pub struct YubikeyKeyManager {
    credential_id: Vec<u8>,
    selected_entry_index: usize,
    cached_public_key: [u8; 32],
}

impl YubikeyKeyManager {
    pub closed spec fn spec_credential_id(&self) -> Seq<u8> {
        self.credential_id@
    }

    pub closed spec fn spec_index(&self) -> usize {
        self.selected_entry_index
    }

    pub closed spec fn spec_public_key(&self) -> Seq<u8> {
        self.cached_public_key@
    }

    /// Pins the entry at 0-based `selected_entry_index` after one validation
    /// opening of its sealed bytes: only the public key is kept.
    pub fn new(
        credential_id: Vec<u8>,
        selected_entry_index: usize,
        secret: &mut [u8; 32],
        sealed: &[u8],
    ) -> (r: Result<Self, KeyError>)
        ensures
            final(secret)@ == wiped(),
            r is Ok <==> key_outcome(old(secret)@, sealed@) is Ok,
            r matches Err(e) ==> key_outcome(old(secret)@, sealed@) == Err::<Seq<char>, KeyError>(
                e,
            ),
            r matches Ok(m) ==> m.spec_credential_id() == credential_id@ && m.spec_index()
                == selected_entry_index,
            r matches Ok(m) ==> (key_outcome(old(secret)@, sealed@) matches Ok(t)
                && m.spec_public_key() == xonly_public_key_of(t)),
    {
        let key = match open_keys(secret, sealed) {
            Ok(k) => k,
            Err(e) => {
                return Err(e);
            },
        };
        let cached_public_key = key.public_key();
        Ok(YubikeyKeyManager { credential_id, selected_entry_index, cached_public_key })
    }

    /// The public key kept at validation; no hardware is involved.
    pub fn get_public_key(&self) -> (r: [u8; 32])
        ensures
            r@ == self.spec_public_key(),
    {
        self.cached_public_key
    }

    pub fn credential_id(&self) -> (r: &[u8])
        ensures
            r@ == self.spec_credential_id(),
    {
        self.credential_id.as_slice()
    }

    pub fn selected_entry_index(&self) -> (r: usize)
        ensures
            r == self.spec_index(),
    {
        self.selected_entry_index
    }

    /// The sealed bytes of the pinned entry in the catalog that `blob` holds.
    /// A catalog that no longer has the pinned position fails with
    /// `EntryVanished`; no other entry is ever taken in its place.
    pub fn pinned_record(&self, blob: &[u8]) -> (r: Result<Vec<u8>, KeyError>)
        ensures
            r is Ok <==> pinned_outcome(blob@, self.spec_index() as int) is Ok,
            r matches Err(e) ==> pinned_outcome(blob@, self.spec_index() as int) == Err::<
                (),
                KeyError,
            >(e),
            r matches Ok(v) ==> payload_ok(listing(blob@)[self.spec_index() as int], v@),
    {
        match read_blob_entry_by_index(blob, self.selected_entry_index) {
            Ok(v) => Ok(v),
            Err(StoreError::EmptyBlob) => Err(KeyError::EntryVanished),
            Err(StoreError::InvalidIndex) => Err(KeyError::EntryVanished),
            Err(e) => Err(KeyError::Store(e)),
        }
    }

    /// Opens the private key from the pinned entry's sealed bytes, with the
    /// secret derived from their salt. The secret is wiped.
    pub fn load_private_key(&self, secret: &mut [u8; 32], sealed: &[u8]) -> (r: Result<
        SigningKey,
        KeyError,
    >)
        ensures
            final(secret)@ == wiped(),
            r is Ok <==> key_outcome(old(secret)@, sealed@) is Ok,
            r matches Err(e) ==> key_outcome(old(secret)@, sealed@) == Err::<Seq<char>, KeyError>(
                e,
            ),
            r matches Ok(k) ==> key_outcome(old(secret)@, sealed@) == Ok::<Seq<char>, KeyError>(
                k.spec_text(),
            ) && opened_from(k, k.spec_text()),
    {
        open_keys(secret, sealed)
    }

    /// Runs `operation` once, with the private key opened from the pinned
    /// entry's sealed bytes, and hands back what it returned; the key is
    /// dropped after it, which erases it, and the secret is wiped whatever
    /// happens. When the entry does not open to a key, `operation` does not
    /// run. This is the one way to use the private key.
    pub fn with_key<F, R>(&self, secret: &mut [u8; 32], sealed: &[u8], operation: F) -> (r: Result<
        R,
        KeyError,
    >) where F: FnOnce(&SigningKey) -> R
        requires
            forall|k: &SigningKey| #[trigger] operation.requires((k,)),
        ensures
            final(secret)@ == wiped(),
            r is Ok <==> key_outcome(old(secret)@, sealed@) is Ok,
            r matches Err(e) ==> key_outcome(old(secret)@, sealed@) == Err::<Seq<char>, KeyError>(
                e,
            ),
            r matches Ok(v) ==> exists|k: &SigningKey|
                key_outcome(old(secret)@, sealed@) == Ok::<Seq<char>, KeyError>(k.spec_text())
                    && opened_from(*k, k.spec_text()) && #[trigger] operation.ensures((k,), v),
    {
        let key = match open_keys(secret, sealed) {
            Ok(k) => k,
            Err(e) => {
                return Err(e);
            },
        };
        let out = operation(&key);
        let r: Result<R, KeyError> = Ok(out);
        assert(operation.ensures((&key,), r->Ok_0));
        r
    }
}

/// A key opened from the validated entry, under the secret that validated
/// it, carries the public key that the manager cached: what `with_key` hands
/// its operation is the custodied key whose public key `get_public_key`
/// gives.
pub proof fn lemma_opened_key_matches_cache(
    m: YubikeyKeyManager,
    k: SigningKey,
    secret: Seq<u8>,
    sealed: Seq<u8>,
)
    requires
        key_outcome(secret, sealed) matches Ok(t) && m.spec_public_key() == xonly_public_key_of(t),
        key_outcome(secret, sealed) == Ok::<Seq<char>, KeyError>(k.spec_text()),
        opened_from(k, k.spec_text()),
    ensures
        k.spec_public_key() == m.spec_public_key(),
{
}

} // verus!

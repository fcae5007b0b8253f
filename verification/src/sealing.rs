//! Anonymous public-key sealing of secret values for one recipient.
//!
//! A value is sealed under the environment's public key with an ephemeral
//! per-message keypair; no sender identity is embedded, and only the holder
//! of the matching private key can open it. A malformed key from the remote
//! API is a configuration-level error, caught when the key is parsed.

use crate::encoding::{base64_decode, base64_encode, base64_decoded};
use vstd::prelude::*;

verus! {

/// Bytes in a recipient public key (and in its secret counterpart).
pub const KEY_BYTES: usize = 32;

/// Bytes a sealed box adds to its plaintext: the ephemeral public key and
/// the authenticator tag.
pub const SEAL_OVERHEAD: usize = 48;

/// What opening a sealed box yields for a ciphertext and a keypair: the
/// plaintext, or nothing when the ciphertext was not sealed for that key.
/// Opening is a function of its three inputs alone.
pub uninterp spec fn opened_seal(cipher: Seq<u8>, public_key: Seq<u8>, secret_key: Seq<u8>) -> Option<Seq<u8>>;

/// The two halves of one keypair belong together.
pub uninterp spec fn keypair_matched(public_key: Seq<u8>, secret_key: Seq<u8>) -> bool;

/// Relies on sodiumoxide's crypto::sealedbox::seal (and PublicKey::from_slice
/// to rebuild the key from its 32 bytes): the ciphertext is the plaintext
/// plus a fixed overhead, and opening it with the matching secret key gives
/// the plaintext back.
#[verifier::external_body]
fn seal_bytes(message: &[u8], recipient: &[u8]) -> (r: Vec<u8>)
    requires
        recipient@.len() == KEY_BYTES,
    ensures
        r@.len() == message@.len() + SEAL_OVERHEAD,
        forall|sk: Seq<u8>|
            #[trigger] keypair_matched(recipient@, sk) ==> opened_seal(r@, recipient@, sk)
                == Some(message@),
{
    let pk = sodiumoxide::crypto::box_::PublicKey::from_slice(recipient).unwrap();
    sodiumoxide::crypto::sealedbox::seal(message, &pk)
}

/// Relies on sodiumoxide's crypto::sealedbox::open (and the two from_slice
/// conversions): deterministic in its inputs, `None` exactly when the
/// ciphertext does not open under this keypair.
#[verifier::external_body]
fn open_bytes(cipher: &[u8], public_key: &[u8], secret_key: &[u8]) -> (r: Option<Vec<u8>>)
    requires
        public_key@.len() == KEY_BYTES,
        secret_key@.len() == KEY_BYTES,
    ensures
        match r {
            Some(v) => opened_seal(cipher@, public_key@, secret_key@) == Some(v@),
            None => opened_seal(cipher@, public_key@, secret_key@) is None,
        },
{
    let pk = sodiumoxide::crypto::box_::PublicKey::from_slice(public_key).unwrap();
    let sk = sodiumoxide::crypto::box_::SecretKey::from_slice(secret_key).unwrap();
    sodiumoxide::crypto::sealedbox::open(cipher, &pk, &sk).ok()
}

/// Relies on sodiumoxide's crypto::box_::gen_keypair: the two halves belong
/// together and have the fixed key length. The pair is random; nothing else
/// is assumed of it.
#[verifier::external_body]
fn generate_keypair_bytes() -> (r: (Vec<u8>, Vec<u8>))
    ensures
        r.0@.len() == KEY_BYTES,
        r.1@.len() == KEY_BYTES,
        keypair_matched(r.0@, r.1@),
{
    let (pk, sk) = sodiumoxide::crypto::box_::gen_keypair();
    (pk.0.to_vec(), sk.0.to_vec())
}

/// The recipient key of one environment, as the remote API hands it out:
/// an opaque identifier and the raw key bytes.
pub struct PublicKeyRecord {
    pub key_id: String,
    pub key: Vec<u8>,
}

impl PublicKeyRecord {
    pub open spec fn wf(&self) -> bool {
        self.key@.len() == KEY_BYTES
    }
}

/// Why a served public key was rejected.
#[derive(Clone, Copy, Debug, PartialEq, Eq, Structural)]
pub enum KeyParseError {
    /// The text was not valid base64.
    NotBase64,
    /// The decoded key had the wrong number of bytes.
    WrongLength,
}

/// Parses the base64-served recipient key; `Ok` exactly when the text
/// decodes to the fixed key length.
pub fn parse_public_key(key_id: String, encoded: &str) -> (r: Result<PublicKeyRecord, KeyParseError>)
    ensures
        match r {
            Ok(k) => k.wf() && k.key_id@ == key_id@ && base64_decoded(encoded@) == Some(k.key@),
            Err(e) => match e {
                KeyParseError::NotBase64 => base64_decoded(encoded@) is None,
                KeyParseError::WrongLength => base64_decoded(encoded@) matches Some(b)
                    && b.len() != KEY_BYTES,
            },
        },
{
    match base64_decode(encoded) {
        None => Err(KeyParseError::NotBase64),
        Some(key) => {
            if key.len() != KEY_BYTES {
                Err(KeyParseError::WrongLength)
            } else {
                Ok(PublicKeyRecord { key_id, key })
            }
        },
    }
}

/// A secret value sealed for one environment: the key identifier it was
/// sealed under, the raw ciphertext, and the ciphertext's transport
/// encoding for the upsert call.
pub struct SealedSecret {
    pub key_id: String,
    pub cipher: Vec<u8>,
    pub encrypted_value: String,
}

/// Seals one plaintext under the environment's key: the ciphertext opens to
/// the plaintext for the matching secret key, and travels base64-encoded
/// under the served key identifier.
pub fn seal_secret(key: &PublicKeyRecord, plaintext: &[u8]) -> (r: SealedSecret)
    requires
        key.wf(),
    ensures
        r.key_id@ == key.key_id@,
        r.cipher@.len() == plaintext@.len() + SEAL_OVERHEAD,
        base64_decoded(r.encrypted_value@) == Some(r.cipher@),
        forall|sk: Seq<u8>|
            #[trigger] keypair_matched(key.key@, sk) ==> opened_seal(r.cipher@, key.key@, sk)
                == Some(plaintext@),
{
    let cipher = seal_bytes(plaintext, key.key.as_slice());
    let encrypted_value = base64_encode(cipher.as_slice());
    SealedSecret { key_id: key.key_id.clone(), cipher, encrypted_value }
}

/// Opens a sealed ciphertext with a keypair; what comes back is determined
/// by the ciphertext and the keypair alone.
pub fn open_secret(cipher: &[u8], public_key: &[u8], secret_key: &[u8]) -> (r: Option<Vec<u8>>)
    requires
        public_key@.len() == KEY_BYTES,
        secret_key@.len() == KEY_BYTES,
    ensures
        match r {
            Some(v) => opened_seal(cipher@, public_key@, secret_key@) == Some(v@),
            None => opened_seal(cipher@, public_key@, secret_key@) is None,
        },
{
    open_bytes(cipher, public_key, secret_key)
}

/// A fresh keypair: both halves of the fixed key length, belonging together.
pub fn generate_keypair() -> (r: (Vec<u8>, Vec<u8>))
    ensures
        r.0@.len() == KEY_BYTES,
        r.1@.len() == KEY_BYTES,
        keypair_matched(r.0@, r.1@),
{
    generate_keypair_bytes()
}

/// Seal round trip: sealing any plaintext under a freshly generated public
/// key and opening with the matching secret key returns the plaintext
/// unchanged.
pub fn seal_round_trip(plaintext: &[u8]) -> (r: Option<Vec<u8>>)
    ensures
        r matches Some(v) && v@ == plaintext@,
{
    let (public_key, secret_key) = generate_keypair();
    let record = PublicKeyRecord { key_id: String::new(), key: public_key };
    let sealed = seal_secret(&record, plaintext);
    let opened = open_secret(sealed.cipher.as_slice(), record.key.as_slice(), secret_key.as_slice());
    opened
}

} // verus!

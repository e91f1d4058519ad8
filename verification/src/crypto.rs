//! Cryptographic primitives consumed by the library: content hashing,
//! checksums, asymmetric encryption and digital signatures. Each outside
//! call stands behind a trusted wrapper whose contract names what the
//! call returns; everything built on top of them is verified.

use crate::GeneralError;
use vstd::prelude::*;

verus! {

/// The size, in bytes, of a content digest.
pub const HASH_SIZE: usize = 32;

/// The size, in bytes, of a raw Ed25519 key.
pub const KEY_SIZE: usize = 32;

/// The digest that blake3::hash computes over a byte sequence.
pub uninterp spec fn hash_of(bytes: Seq<u8>) -> Seq<u8>;

/// The checksum that crc32fast::hash computes over a byte sequence.
pub uninterp spec fn crc32_of(bytes: Seq<u8>) -> u32;

/// What ecies_ed25519::decrypt returns for a secret key and a ciphertext
/// of at least the minimal length: the plaintext, or None where
/// decryption fails.
pub uninterp spec fn decrypt_of(sk: Seq<u8>, ciphertext: Seq<u8>) -> Option<Seq<u8>>;

/// The shortest byte string that can be an ECIES ciphertext: a 32-byte
/// ephemeral public key followed by a 12-byte nonce. The primitive
/// indexes the nonce unchecked, so the library rejects anything shorter
/// before calling it.
pub const MIN_CIPHERTEXT_LEN: usize = 44;

/// What decrypting a byte string yields: nothing where it is too short
/// to be a ciphertext, and otherwise whatever the decryption primitive
/// returns for it.
pub open spec fn spec_decrypt(sk: Seq<u8>, ciphertext: Seq<u8>) -> Option<Seq<u8>> {
    if ciphertext.len() < MIN_CIPHERTEXT_LEN {
        None
    } else {
        decrypt_of(sk, ciphertext)
    }
}

/// The encryption public key that ecies_ed25519::PublicKey::from_secret
/// derives from a secret key's bytes.
pub uninterp spec fn public_of(sk: Seq<u8>) -> Seq<u8>;

/// The verification key that ed25519_dalek derives from a secret key's
/// bytes.
pub uninterp spec fn sign_public_of(sk: Seq<u8>) -> Seq<u8>;

/// The signature that ed25519_dalek::Keypair::sign produces over a
/// message with a given secret and public key.
pub uninterp spec fn sign_of(sk: Seq<u8>, pk: Seq<u8>, msg: Seq<u8>) -> Seq<u8>;

/// Whether ed25519_dalek::PublicKey::verify accepts `sig` as a signature
/// on `msg` under the key `pk`.
pub uninterp spec fn sig_valid(pk: Seq<u8>, msg: Seq<u8>, sig: Seq<u8>) -> bool;

/// All of the errors that can be thrown by the crypto module.
#[derive(Debug)]
pub enum CryptoError {
    SerializationError,
    EncryptionError,
    IOError,
    InvalidKey(GeneralError),
}

/// Specify the type of key and the name of the key.
pub enum KeyType {
    Public(String),
    Private(String),
}

/// An Ed25519 public key used to encrypt a file's payload, held as its
/// 32 raw bytes.
#[derive(Debug)]
pub struct PublicKey {
    bytes: Vec<u8>,
}

impl View for PublicKey {
    type V = Seq<u8>;

    closed spec fn view(&self) -> Seq<u8> {
        self.bytes@
    }
}

impl PublicKey {
    /// A key is well-formed when it holds exactly the raw key bytes.
    pub open spec fn wf(&self) -> bool {
        self@.len() == KEY_SIZE
    }

    /// Wrap raw key bytes. Rejects byte strings of the wrong length.
    pub fn from_bytes(bytes: Vec<u8>) -> (r: Result<Self, CryptoError>)
        ensures
            match r {
                Ok(k) => k@ == bytes@ && k.wf(),
                Err(_) => bytes@.len() != KEY_SIZE,
            },
    {
        if bytes.len() == KEY_SIZE {
            Ok(PublicKey { bytes })
        } else {
            Err(CryptoError::InvalidKey(GeneralError::new("a public key must hold 32 bytes")))
        }
    }

    /// The raw bytes of the key.
    pub fn to_bytes(&self) -> (r: &Vec<u8>)
        ensures
            r@ == self@,
    {
        &self.bytes
    }
}

impl Clone for PublicKey {
    fn clone(&self) -> (r: Self)
        ensures
            r@ == self@,
    {
        PublicKey { bytes: self.bytes.clone() }
    }
}

/// An Ed25519 secret key, held as its 32 raw bytes.
#[derive(Debug)]
pub struct SecretKey {
    bytes: Vec<u8>,
}

impl View for SecretKey {
    type V = Seq<u8>;

    closed spec fn view(&self) -> Seq<u8> {
        self.bytes@
    }
}

impl SecretKey {
    /// A key is well-formed when it holds exactly the raw key bytes.
    pub open spec fn wf(&self) -> bool {
        self@.len() == KEY_SIZE
    }

    /// Wrap raw key bytes. Rejects byte strings of the wrong length.
    pub fn from_bytes(bytes: Vec<u8>) -> (r: Result<Self, CryptoError>)
        ensures
            match r {
                Ok(k) => k@ == bytes@ && k.wf(),
                Err(_) => bytes@.len() != KEY_SIZE,
            },
    {
        if bytes.len() == KEY_SIZE {
            Ok(SecretKey { bytes })
        } else {
            Err(CryptoError::InvalidKey(GeneralError::new("a secret key must hold 32 bytes")))
        }
    }

    /// The raw bytes of the key.
    pub fn to_bytes(&self) -> (r: &Vec<u8>)
        ensures
            r@ == self@,
    {
        &self.bytes
    }
}

impl Clone for SecretKey {
    fn clone(&self) -> (r: Self)
        ensures
            r@ == self@,
    {
        SecretKey { bytes: self.bytes.clone() }
    }
}

/// Relies on blake3::hash: a 32-byte digest computed from the input
/// bytes alone.
#[verifier::external_body]
pub fn hash_bytes(bytes: &Vec<u8>) -> (r: Vec<u8>)
    ensures
        r@ == hash_of(bytes@),
        r@.len() == HASH_SIZE,
{
    blake3::hash(bytes.as_slice()).as_bytes().to_vec()
}

/// Relies on crc32fast::hash: a CRC32 checksum computed from the input
/// bytes alone.
#[verifier::external_body]
pub fn crc32_bytes(bytes: &Vec<u8>) -> (r: u32)
    ensures
        r == crc32_of(bytes@),
{
    crc32fast::hash(bytes.as_slice())
}

/// The whole seconds since the Unix epoch, or None where the system
/// clock reads before the epoch. Relies on std::time::SystemTime; the
/// result depends on the clock, so nothing is promised of it.
#[verifier::external_body]
pub fn unix_time_secs() -> Option<u64> {
    std::time::SystemTime::now().duration_since(std::time::UNIX_EPOCH).ok().map(|d| d.as_secs())
}

/// Relies on ecies_ed25519::PublicKey::from_secret: the encryption
/// public key is derived from the secret key bytes alone. The byte
/// length is checked by `SecretKey::wf`, so parsing cannot fail.
#[verifier::external_body]
pub fn derive_public_key(sk: &SecretKey) -> (r: PublicKey)
    requires
        sk.wf(),
    ensures
        r.wf(),
        r@ == public_of(sk@),
{
    let parsed = ecies_ed25519::SecretKey::from_bytes(sk.bytes.as_slice()).unwrap();
    let pk = ecies_ed25519::PublicKey::from_secret(&parsed);
    PublicKey { bytes: pk.to_bytes().to_vec() }
}

/// Relies on ed25519_dalek::PublicKey::from(&SecretKey): the
/// verification key is derived from the secret key bytes alone. The
/// byte length is checked by `SecretKey::wf`, so parsing cannot fail.
#[verifier::external_body]
pub fn derive_sign_public_key(sk: &SecretKey) -> (r: Vec<u8>)
    requires
        sk.wf(),
    ensures
        r@ == sign_public_of(sk@),
        r@.len() == KEY_SIZE,
{
    let parsed = ed25519_dalek::SecretKey::from_bytes(sk.bytes.as_slice()).unwrap();
    let pk: ed25519_dalek::PublicKey = (&parsed).into();
    Vec::from(pk.to_bytes())
}

/// Relies on ecies_ed25519::encrypt: the ciphertext carries a 32-byte
/// ephemeral key, a 12-byte nonce and an authentication tag, and it
/// decrypts back to the message under any secret key whose derived
/// public key is the receiver's; encryption itself is randomized, so no
/// more is promised of the ciphertext.
#[verifier::external_body]
pub fn encrypt_bytes(key: &PublicKey, bytes: &Vec<u8>) -> (r: Result<Vec<u8>, CryptoError>)
    requires
        key.wf(),
    ensures
        match r {
            Ok(ct) => ct@.len() >= MIN_CIPHERTEXT_LEN && forall|sk: Seq<u8>|
                public_of(sk) == key@ ==> #[trigger] spec_decrypt(sk, ct@) == Some(bytes@),
            Err(_) => true,
        },
{
    let pk = match ecies_ed25519::PublicKey::from_bytes(key.bytes.as_slice()) {
        Ok(k) => k,
        Err(_) => {
            return Err(CryptoError::EncryptionError);
        },
    };
    let mut rng = rand::thread_rng();
    ecies_ed25519::encrypt(&pk, bytes.as_slice(), &mut rng).map_err(
        |_| CryptoError::EncryptionError,
    )
}

/// Relies on ecies_ed25519::decrypt: the plaintext is a function of the
/// secret key bytes and the ciphertext alone. The primitive indexes its
/// nonce unchecked, so byte strings shorter than a minimal ciphertext
/// are rejected before the call reaches it.
#[verifier::external_body]
pub fn decrypt_bytes(key: &SecretKey, bytes: &Vec<u8>) -> (r: Result<Vec<u8>, CryptoError>)
    requires
        key.wf(),
    ensures
        match r {
            Ok(p) => bytes@.len() >= MIN_CIPHERTEXT_LEN && decrypt_of(key@, bytes@) == Some(p@),
            Err(_) => spec_decrypt(key@, bytes@) is None,
        },
{
    if bytes.len() < MIN_CIPHERTEXT_LEN {
        return Err(CryptoError::EncryptionError);
    }
    let parsed = ecies_ed25519::SecretKey::from_bytes(key.bytes.as_slice()).unwrap();
    ecies_ed25519::decrypt(&parsed, bytes.as_slice()).map_err(|_| CryptoError::EncryptionError)
}

/// Relies on ed25519_dalek::Keypair::sign: the signature is a function
/// of the key pair and the message, and it verifies under the matching
/// public key. Signing itself never fails; the only failure is a public
/// key whose bytes do not parse, which a validly derived key always does.
#[verifier::external_body]
pub fn sign_bytes(sk: &SecretKey, pk: &Vec<u8>, msg: &Vec<u8>) -> (r: Result<Vec<u8>, CryptoError>)
    requires
        sk.wf(),
    ensures
        match r {
            Ok(sig) => sig@ == sign_of(sk@, pk@, msg@) && (pk@ == sign_public_of(sk@)
                ==> sig_valid(pk@, msg@, sig@)),
            Err(_) => pk@ != sign_public_of(sk@),
        },
{
    let secret = ed25519_dalek::SecretKey::from_bytes(sk.bytes.as_slice()).unwrap();
    let public = match ed25519_dalek::PublicKey::from_bytes(pk.as_slice()) {
        Ok(k) => k,
        Err(_) => {
            return Err(CryptoError::InvalidKey(GeneralError::new("invalid signing public key")));
        },
    };
    let keypair = ed25519_dalek::Keypair { secret, public };
    Ok(ed25519_dalek::Signer::sign(&keypair, msg.as_slice()).to_bytes().to_vec())
}

/// Relies on ed25519_dalek::PublicKey::verify: acceptance is a function
/// of the public key bytes, the message and the signature alone; bytes
/// that parse as no key or no signature verify nothing.
#[verifier::external_body]
pub fn verify_bytes(pk: &Vec<u8>, msg: &Vec<u8>, sig: &Vec<u8>) -> (r: bool)
    ensures
        r == sig_valid(pk@, msg@, sig@),
{
    let public = match ed25519_dalek::PublicKey::from_bytes(pk.as_slice()) {
        Ok(k) => k,
        Err(_) => {
            return false;
        },
    };
    let signature = match ed25519_dalek::Signature::try_from(sig.as_slice()) {
        Ok(s) => s,
        Err(_) => {
            return false;
        },
    };
    ed25519_dalek::Verifier::verify(&public, msg.as_slice(), &signature).is_ok()
}

/// Relies on ecies_ed25519::generate_keypair: a fresh random pair whose
/// public half is derived from its secret half. The pair is random, so
/// nothing more is promised of its bytes.
#[verifier::external_body]
pub fn gen_keypair() -> (r: (SecretKey, PublicKey))
    ensures
        r.0.wf(),
        r.1.wf(),
        r.1@ == public_of(r.0@),
{
    let mut rng = rand::thread_rng();
    let (sk, pk) = ecies_ed25519::generate_keypair(&mut rng);
    (
        SecretKey { bytes: sk.to_bytes().to_vec() },
        PublicKey { bytes: pk.to_bytes().to_vec() },
    )
}

} // verus!

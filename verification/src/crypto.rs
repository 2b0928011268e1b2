//! Key material and the cryptographic primitives: SHA-512 digests, RSA
//! PKCS#1 v1.5 signatures, and base64 encoding of signature blobs.
//!
//! Every call into the crypto crates stands behind a small trusted wrapper
//! whose contract states what the crate's own documentation promises; all
//! decisions about documents are made by verified code around them.

use vstd::prelude::*;
use sha2::Digest;
use crate::error::XmlSignError;

verus! {

#[verifier::external_type_specification]
#[verifier::external_body]
pub struct ExRsaPrivateKey(rsa::RsaPrivateKey);

#[verifier::external_type_specification]
#[verifier::external_body]
pub struct ExRsaPublicKey(rsa::RsaPublicKey);

#[verifier::external_type_specification]
#[verifier::external_body]
pub struct ExRsaError(rsa::Error);

#[verifier::external_type_specification]
#[verifier::external_body]
pub struct ExRsaSignatureError(rsa::signature::Error);

#[verifier::external_type_specification]
#[verifier::external_body]
pub struct ExBase64DecodeError(base64::DecodeError);

/// The SHA-512 digest of the UTF-8 bytes of a text: a value that depends
/// on the text alone.
pub uninterp spec fn sha512_of(s: Seq<char>) -> Seq<u8>;

/// The public half of an RSA private key: derived from the key alone.
pub uninterp spec fn pub_of(key: rsa::RsaPrivateKey) -> rsa::RsaPublicKey;

/// The bit length of an RSA private key's modulus.
pub uninterp spec fn modulus_bits_of(key: rsa::RsaPrivateKey) -> nat;

/// The PKCS#1 v1.5 signature blob over a message under a private key,
/// with SHA-512 as the digest: the scheme's padding is deterministic, so
/// the blob is a function of key and message alone.
pub uninterp spec fn sig_blob_of(key: rsa::RsaPrivateKey, message: Seq<u8>) -> Seq<u8>;

/// Whether a signature blob is a valid PKCS#1 v1.5 signature, with
/// SHA-512 as the digest, of a message under a public key: verification
/// is a pure computation over its three inputs.
pub uninterp spec fn rsa_verifies(
    key: rsa::RsaPublicKey,
    message: Seq<u8>,
    signature: Seq<u8>,
) -> bool;

/// The standard base64 encoding, with padding, of a byte sequence.
pub uninterp spec fn b64_of(bytes: Seq<u8>) -> Seq<char>;

/// What standard base64 decoding yields on a text: the decoded bytes, or
/// nothing when the text is not valid base64.
pub uninterp spec fn b64_decoded(s: Seq<char>) -> Option<Seq<u8>>;

/// Relies on sha2's `Sha512::digest`: a 64-byte digest that is a function
/// of the input bytes alone.
#[verifier::external_body]
pub fn sha512_str(s: &str) -> (r: Vec<u8>)
    ensures
        r@ == sha512_of(s@),
        r@.len() == 64,
{
    sha2::Sha512::digest(s.as_bytes()).to_vec()
}

/// Relies on base64's `Engine::encode` with the standard alphabet and
/// padding: the result is a function of the input bytes alone, and
/// decoding it yields the input bytes back.
#[verifier::external_body]
pub fn b64_encode(bytes: &[u8]) -> (r: String)
    ensures
        r@ == b64_of(bytes@),
        b64_decoded(r@) == Some(bytes@),
{
    base64::Engine::encode(&base64::engine::general_purpose::STANDARD, bytes)
}

/// Relies on base64's `Engine::decode` with the standard alphabet and
/// padding: the outcome is a function of the input text alone, and it
/// fails exactly on text that is not valid base64.
#[verifier::external_body]
pub fn b64_decode(s: &str) -> (r: Result<Vec<u8>, base64::DecodeError>)
    ensures
        r matches Ok(v) ==> b64_decoded(s@) == Some(v@),
        r is Err <==> b64_decoded(s@) is None,
{
    base64::Engine::decode(&base64::engine::general_purpose::STANDARD, s)
}

/// Relies on rsa's `RsaPrivateKey::new` with the operating-system entropy
/// source: a fresh private key whose modulus has exactly the asked-for
/// bit length (generation retries until it does), or an error for
/// parameters the crate rejects or on entropy failure.
#[verifier::external_body]
fn generate_private_key(bits: usize) -> (r: Result<rsa::RsaPrivateKey, rsa::Error>)
    ensures
        r matches Ok(k) ==> modulus_bits_of(k) == bits,
{
    rsa::RsaPrivateKey::new(&mut rsa::rand_core::OsRng, bits)
}

/// Relies on rsa's `RsaPublicKey::from`: the public half of a private
/// key, an infallible copy of the key's modulus and public exponent.
#[verifier::external_body]
fn public_key_of(private_key: &rsa::RsaPrivateKey) -> (r: rsa::RsaPublicKey)
    ensures
        r == pub_of(*private_key),
{
    rsa::RsaPublicKey::from(private_key)
}

/// Relies on rsa's PKCS#1 v1.5 `SigningKey` over SHA-512
/// (`try_sign_with_rng`): a signature blob for the given message, or an
/// error when the padded message does not fit the key's modulus.  The
/// random input only blinds the computation — the scheme's padding is
/// deterministic, so the blob is a function of key and message alone,
/// padded to the modulus size.
#[verifier::external_body]
pub fn rsa_sign(key: &rsa::RsaPrivateKey, message: &[u8]) -> (r: Result<
    Vec<u8>,
    rsa::signature::Error,
>)
    ensures
        r matches Ok(v) ==> v@ == sig_blob_of(*key, message@) && v@.len() == (modulus_bits_of(*key)
            + 7) / 8,
{
    let signing_key: rsa::pkcs1v15::SigningKey<sha2::Sha512> = rsa::pkcs1v15::SigningKey::new(
        key.clone(),
    );
    match rsa::signature::RandomizedSigner::try_sign_with_rng(
        &signing_key,
        &mut rsa::rand_core::OsRng,
        message,
    ) {
        Ok(sig) => Ok(rsa::signature::SignatureEncoding::to_bytes(&sig).to_vec()),
        Err(e) => Err(e),
    }
}

/// Relies on rsa's PKCS#1 v1.5 `VerifyingKey` over SHA-512 (`verify`):
/// true exactly when the signature bytes form a valid signature of the
/// message under the key — a pure computation over its three inputs.
/// Reading bytes into a signature value cannot fail in this crate, so a
/// malformed blob simply verifies as false.
#[verifier::external_body]
pub fn rsa_verify(key: &rsa::RsaPublicKey, message: &[u8], signature: &[u8]) -> (r: bool)
    ensures
        r == rsa_verifies(*key, message@, signature@),
{
    let sig = match rsa::pkcs1v15::Signature::try_from(signature) {
        Ok(s) => s,
        Err(_) => {
            return false;
        },
    };
    let verifying_key: rsa::pkcs1v15::VerifyingKey<sha2::Sha512> =
        rsa::pkcs1v15::VerifyingKey::new(key.clone());
    rsa::signature::Verifier::verify(&verifying_key, message, &sig).is_ok()
}

/// An RSA key pair: the private key signs, the public key verifies.
pub struct KeyPair {
    pub private_key: rsa::RsaPrivateKey,
    pub public_key: rsa::RsaPublicKey,
}

impl KeyPair {
    /// Generates a fresh RSA key pair: a private key whose modulus has
    /// exactly `bits` bits, and the public half of that same key.  Key
    /// generation draws on the system's entropy source; a failure of the
    /// generator is reported as `RsaError`.
    pub fn generate(bits: usize) -> (r: Result<KeyPair, XmlSignError>)
        ensures
            r matches Err(e) ==> e == XmlSignError::RsaError,
            r matches Ok(kp) ==> kp.public_key == pub_of(kp.private_key) && modulus_bits_of(
                kp.private_key,
            ) == bits,
    {
        match generate_private_key(bits) {
            Ok(private_key) => {
                let public_key = public_key_of(&private_key);
                Ok(KeyPair { private_key, public_key })
            },
            Err(_) => Err(XmlSignError::RsaError),
        }
    }
}

} // verus!

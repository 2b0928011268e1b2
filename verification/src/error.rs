//! The error kinds that signing and verification surface.

use vstd::prelude::*;

verus! {

/// What went wrong during parsing, signing, or verification.
///
/// A structurally valid but cryptographically mismatched signature is *not*
/// an error: verification reports it as a plain `false`.  These variants
/// cover the cases where an operation could not be carried out at all.
#[derive(Clone, Copy, PartialEq, Eq, Structural, Debug)]
pub enum XmlSignError {
    /// The input is not well-formed XML (unclosed tags, malformed
    /// attributes, invalid byte sequences).
    XmlError,
    /// A key operation failed (key generation or the signing primitive).
    RsaError,
    /// The stored signature bytes do not have the shape of an RSA
    /// signature blob.
    SignatureError,
    /// The stored signature string is not valid base64.
    Base64Error,
    /// The document offers no injection point for a signature element
    /// (no root element was found).
    SignatureNotFound,
    /// Reserved for callers that want an explicit failure value.
    InvalidSignature,
}

impl XmlSignError {
    /// A short human-readable description of the error kind.
    pub fn message(&self) -> (r: &'static str)
        ensures
            r@.len() > 0,
    {
        proof {
            reveal_strlit("XML parsing error");
            reveal_strlit("RSA error");
            reveal_strlit("Signature error");
            reveal_strlit("Base64 decode error");
            reveal_strlit("Signature not found");
            reveal_strlit("Invalid signature");
        }
        match self {
            XmlSignError::XmlError => "XML parsing error",
            XmlSignError::RsaError => "RSA error",
            XmlSignError::SignatureError => "Signature error",
            XmlSignError::Base64Error => "Base64 decode error",
            XmlSignError::SignatureNotFound => "Signature not found",
            XmlSignError::InvalidSignature => "Invalid signature",
        }
    }
}

} // verus!

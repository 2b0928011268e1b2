//! Signing and verification of XML documents through an embedded signature
//! element.
//!
//! A document is canonicalized into a deterministic text form, digested, and
//! signed with an RSA private key; the base64-encoded signature is injected
//! into the document as a `Signature` element.  Verification strips that
//! element, re-canonicalizes what remains, and checks the stored signature
//! against the matching public key.

pub mod crypto;
pub mod error;
pub mod events;
pub mod text;
pub mod xml;

//! The failures that the RSA operations report.

use vstd::prelude::*;

verus! {

/// What is wrong with a key component that an operation needs.
#[derive(Clone, Copy, Debug, PartialEq, Eq, Structural)]
pub enum KeyFault {
    /// The modulus `n` is zero.
    ZeroModulus,
    /// The public exponent `e` is zero.
    ZeroPublicExponent,
    /// The private exponent `d` is zero.
    ZeroPrivateExponent,
    /// The engine holds no public exponent.
    NoPublicExponent,
    /// The engine holds no private exponent.
    NoPrivateExponent,
}

/// A failed RSA operation. No operation that fails changes the engine it
/// was called on.
#[derive(Clone, Copy, Debug, PartialEq, Eq, Structural)]
pub enum RsaError {
    /// A key component that the operation needs is zero or absent.
    InvalidKeyMaterial(KeyFault),
    /// The encoded private key could not be read.
    KeyParseFailure,
    /// The big-integer machinery turned its inputs down.
    TransformFailure,
}

impl KeyFault {
    /// The text of [`KeyFault::message`].
    pub open spec fn message_text(self) -> Seq<char> {
        match self {
            KeyFault::ZeroModulus => "Invalid modulus (n): cannot be zero"@,
            KeyFault::ZeroPublicExponent => "Invalid public exponent (e): cannot be zero"@,
            KeyFault::ZeroPrivateExponent => "Invalid private exponent (d): cannot be zero"@,
            KeyFault::NoPublicExponent => "Invalid public exponent (e): not set"@,
            KeyFault::NoPrivateExponent => "Invalid private exponent (d): not set"@,
        }
    }

    /// A sentence for the person who supplied the key.
    pub fn message(&self) -> (text: String)
        ensures
            text@ == self.message_text(),
    {
        match self {
            KeyFault::ZeroModulus => "Invalid modulus (n): cannot be zero".to_owned(),
            KeyFault::ZeroPublicExponent => "Invalid public exponent (e): cannot be zero".to_owned(),
            KeyFault::ZeroPrivateExponent => "Invalid private exponent (d): cannot be zero".to_owned(),
            KeyFault::NoPublicExponent => "Invalid public exponent (e): not set".to_owned(),
            KeyFault::NoPrivateExponent => "Invalid private exponent (d): not set".to_owned(),
        }
    }
}

impl RsaError {
    /// The text of [`RsaError::message`].
    pub open spec fn message_text(self) -> Seq<char> {
        match self {
            RsaError::InvalidKeyMaterial(fault) => fault.message_text(),
            RsaError::KeyParseFailure => "Invalid private key: cannot be parsed"@,
            RsaError::TransformFailure => "Transform failed: inputs were rejected"@,
        }
    }

    /// A sentence that says what went wrong.
    pub fn message(&self) -> (text: String)
        ensures
            text@ == self.message_text(),
    {
        match self {
            RsaError::InvalidKeyMaterial(fault) => fault.message(),
            RsaError::KeyParseFailure => "Invalid private key: cannot be parsed".to_owned(),
            RsaError::TransformFailure => "Transform failed: inputs were rejected".to_owned(),
        }
    }
}

} // verus!

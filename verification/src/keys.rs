//! Key material from the `rsa` crate: fresh key pairs and encoded private
//! keys. Nothing in this file but [`PrivateKeyParts`] is proved: each
//! function hands its arguments to `rsa` and states what that crate shows.

use crate::big_endian::{be_value, has_bit_length};
use vstd::prelude::*;

verus! {

/// The numbers of a private key that this library works with, each as an
/// unsigned big-endian buffer.
pub struct PrivateKeyParts {
    /// The modulus `n`.
    pub modulus: Vec<u8>,
    /// The public exponent `e`.
    pub public_exponent: Vec<u8>,
    /// The private exponent `d`.
    pub private_exponent: Vec<u8>,
}

/// The key parts as plain byte strings.
pub struct PrivateKeyModel {
    pub modulus: Seq<u8>,
    pub public_exponent: Seq<u8>,
    pub private_exponent: Seq<u8>,
}

impl View for PrivateKeyParts {
    type V = PrivateKeyModel;

    open spec fn view(&self) -> PrivateKeyModel {
        PrivateKeyModel {
            modulus: self.modulus@,
            public_exponent: self.public_exponent@,
            private_exponent: self.private_exponent@,
        }
    }
}

/// `rsa::errors::Error`, taken as an opaque value.
#[verifier::external_type_specification]
#[verifier::external_body]
pub struct ExKeyGenerationError(rsa::errors::Error);

/// `rsa::pkcs1::Error`, taken as an opaque value.
#[verifier::external_type_specification]
#[verifier::external_body]
pub struct ExKeyEncodingError(rsa::pkcs1::Error);

/// What reading `der` as a PKCS#1 `RSAPrivateKey` structure gives: modulus,
/// public exponent and private exponent, or nothing where `rsa` turns the
/// bytes down.
pub uninterp spec fn pkcs1_private_key(der: Seq<u8>) -> Option<(Seq<u8>, Seq<u8>, Seq<u8>)>;

/// `RsaPrivateKey::new` with the thread's random number generator: a fresh
/// key pair of the given bit size, or the crate's refusal. Which key comes
/// out is random. All that is stated is what the crate promises of every
/// key it hands out: a modulus of exactly `bit_length` bits.
#[verifier::external_body]
pub(crate) fn generate_key_parts(bit_length: usize) -> (outcome: Result<
    PrivateKeyParts,
    rsa::errors::Error,
>)
    ensures
        outcome matches Ok(parts) ==> has_bit_length(be_value(parts@.modulus), bit_length as nat),
{
    let mut rng = rand::thread_rng();
    let key = rsa::RsaPrivateKey::new(&mut rng, bit_length)?;
    Ok(
        PrivateKeyParts {
            modulus: rsa::traits::PublicKeyParts::n(&key).to_bytes_be(),
            public_exponent: rsa::traits::PublicKeyParts::e(&key).to_bytes_be(),
            private_exponent: rsa::traits::PrivateKeyParts::d(&key).to_bytes_be(),
        },
    )
}

/// `DecodeRsaPrivateKey::from_pkcs1_der` for `RsaPrivateKey`: the key that
/// the DER bytes encode, or the crate's refusal. The outcome depends on the
/// bytes alone.
#[verifier::external_body]
pub(crate) fn parse_pkcs1_private_key(der: &[u8]) -> (outcome: Result<
    PrivateKeyParts,
    rsa::pkcs1::Error,
>)
    ensures
        match outcome {
            Ok(parts) => pkcs1_private_key(der@) == Some(
                (parts@.modulus, parts@.public_exponent, parts@.private_exponent),
            ),
            Err(_) => pkcs1_private_key(der@) is None,
        },
{
    let key = <rsa::RsaPrivateKey as rsa::pkcs1::DecodeRsaPrivateKey>::from_pkcs1_der(der)?;
    Ok(
        PrivateKeyParts {
            modulus: rsa::traits::PublicKeyParts::n(&key).to_bytes_be(),
            public_exponent: rsa::traits::PublicKeyParts::e(&key).to_bytes_be(),
            private_exponent: rsa::traits::PrivateKeyParts::d(&key).to_bytes_be(),
        },
    )
}

} // verus!

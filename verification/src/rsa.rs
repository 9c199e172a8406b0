//! Raw RSA on key components that the caller hands in with every call.
//!
//! A block is transformed by one modular exponentiation and nothing else:
//! no padding scheme, no chaining. The only bytes added are leading zeros,
//! and how many depends on the direction of the transform.

use crate::big_endian::{
    be_bytes, be_value, byte_len, is_minimal, left_pad, lemma_byte_len_monotonic,
    lemma_bytes_minimal, lemma_left_pad_restores, lemma_left_pad_value,
    lemma_minimal_is_bytes_of_value, lemma_value_of_bytes, pad_left,
};
use crate::bignum::{biguint_value, equal, from_bytes_be, from_u32, mod_exp, modpow, to_bytes_be};
use crate::error::{KeyFault, RsaError};
use crate::key_pair::{is_key_pair, lemma_key_pair_round_trip};
use num_bigint::BigUint;
use vstd::arithmetic::div_mod::lemma_mod_bound;
use vstd::arithmetic::power::pow;
use vstd::prelude::*;

verus! {

/// The transformed block as it comes out of the exponentiation: the shortest
/// spelling of `input^exponent mod modulus`.
pub open spec fn bare_block(input: Seq<u8>, exponent: nat, modulus: nat) -> Seq<u8> {
    be_bytes(mod_exp(be_value(input), exponent, modulus))
}

/// A block transformed in the encrypting direction: left-padded to the byte
/// length of the modulus.
pub open spec fn encrypt_block(input: Seq<u8>, exponent: nat, modulus: nat) -> Seq<u8> {
    left_pad(bare_block(input, exponent, modulus), byte_len(modulus))
}

/// A block transformed in the decrypting direction: left-padded to one byte
/// less than the byte length of the modulus.
pub open spec fn decrypt_block(input: Seq<u8>, exponent: nat, modulus: nat) -> Seq<u8> {
    left_pad(bare_block(input, exponent, modulus), (byte_len(modulus) - 1) as nat)
}

/// What [`RsaEncryptor::private_encrypt`] gives: a zero modulus is reported
/// first, then a zero exponent; otherwise the block encrypted with `d`.
pub open spec fn private_encrypt_outcome(data: Seq<u8>, n: Seq<u8>, d: Seq<u8>) -> Result<
    Seq<u8>,
    RsaError,
> {
    if be_value(n) == 0 {
        Err(RsaError::InvalidKeyMaterial(KeyFault::ZeroModulus))
    } else if be_value(d) == 0 {
        Err(RsaError::InvalidKeyMaterial(KeyFault::ZeroPrivateExponent))
    } else {
        Ok(encrypt_block(data, be_value(d), be_value(n)))
    }
}

/// What [`RsaEncryptor::public_decrypt`] gives: a zero modulus is reported
/// first, then a zero exponent; otherwise the block decrypted with `e`.
pub open spec fn public_decrypt_outcome(data: Seq<u8>, n: Seq<u8>, e: Seq<u8>) -> Result<
    Seq<u8>,
    RsaError,
> {
    if be_value(n) == 0 {
        Err(RsaError::InvalidKeyMaterial(KeyFault::ZeroModulus))
    } else if be_value(e) == 0 {
        Err(RsaError::InvalidKeyMaterial(KeyFault::ZeroPublicExponent))
    } else {
        Ok(decrypt_block(data, be_value(e), be_value(n)))
    }
}

/// Whether an operation returned what its outcome function says: the same
/// bytes, or the same error.
pub open spec fn outcome_matches(
    returned: Result<Vec<u8>, RsaError>,
    outcome: Result<Seq<u8>, RsaError>,
) -> bool {
    match (returned, outcome) {
        (Ok(bytes), Ok(expected)) => bytes@ == expected,
        (Err(error), Err(expected)) => error == expected,
        _ => false,
    }
}

/// A power taken modulo `modulus` lies below `modulus`.
pub proof fn lemma_mod_exp_below_modulus(base: nat, exponent: nat, modulus: nat)
    requires
        modulus > 0,
    ensures
        mod_exp(base, exponent, modulus) < modulus,
{
    lemma_mod_bound(pow(base as int, exponent), modulus as int);
}

/// A transformed block spells the power, whatever the padding, and its
/// shortest spelling is no longer than the modulus.
pub proof fn lemma_block_value(input: Seq<u8>, exponent: nat, modulus: nat)
    requires
        modulus > 0,
    ensures
        be_value(bare_block(input, exponent, modulus)) == mod_exp(
            be_value(input),
            exponent,
            modulus,
        ),
        be_value(encrypt_block(input, exponent, modulus)) == mod_exp(
            be_value(input),
            exponent,
            modulus,
        ),
        be_value(decrypt_block(input, exponent, modulus)) == mod_exp(
            be_value(input),
            exponent,
            modulus,
        ),
        1 <= bare_block(input, exponent, modulus).len() <= byte_len(modulus),
{
    let power = mod_exp(be_value(input), exponent, modulus);
    lemma_mod_exp_below_modulus(be_value(input), exponent, modulus);
    lemma_byte_len_monotonic(power, modulus);
    lemma_bytes_minimal(power);
    lemma_value_of_bytes(power);
    lemma_left_pad_value(be_bytes(power), byte_len(modulus));
    lemma_left_pad_value(be_bytes(power), (byte_len(modulus) - 1) as nat);
}

/// Encrypting pads to the modulus: an encrypted block is always exactly as
/// long as the shortest spelling of the modulus, also where the power itself
/// would take fewer bytes.
pub proof fn lemma_encrypt_block_len(input: Seq<u8>, exponent: nat, modulus: nat)
    requires
        modulus > 0,
    ensures
        encrypt_block(input, exponent, modulus).len() == byte_len(modulus),
{
    lemma_block_value(input, exponent, modulus);
}

/// Decrypting pads to one byte less than the modulus: a decrypted block is
/// that long whenever the power fits in that many bytes. A power that needs
/// every byte of the modulus is not cut: the block is then as long as the
/// modulus.
pub proof fn lemma_decrypt_block_len(input: Seq<u8>, exponent: nat, modulus: nat)
    requires
        modulus > 0,
    ensures
        byte_len(mod_exp(be_value(input), exponent, modulus)) < byte_len(modulus)
            ==> decrypt_block(input, exponent, modulus).len() == byte_len(modulus) - 1,
        byte_len(mod_exp(be_value(input), exponent, modulus)) >= byte_len(modulus)
            ==> decrypt_block(input, exponent, modulus).len() == byte_len(modulus),
{
    lemma_block_value(input, exponent, modulus);
}

/// With a key pair, what `private_encrypt` makes of a number below the
/// modulus, `public_decrypt` turns back into that number. The bytes are the
/// same too where the plaintext has the shape that decrypting restores: one
/// byte shorter than the modulus, or as long as the modulus without a
/// leading zero.
pub proof fn lemma_private_encrypt_then_public_decrypt(
    data: Seq<u8>,
    n: Seq<u8>,
    e: Seq<u8>,
    d: Seq<u8>,
)
    requires
        is_key_pair(be_value(n), be_value(e), be_value(d)),
        be_value(data) < be_value(n),
    ensures
        private_encrypt_outcome(data, n, d) matches Ok(cipher) && public_decrypt_outcome(
            cipher,
            n,
            e,
        ) matches Ok(plain) && {
            &&& be_value(plain) == be_value(data)
            &&& data.len() >= 1 && data.len() + 1 == byte_len(be_value(n)) ==> plain == data
            &&& is_minimal(data) && data.len() == byte_len(be_value(n)) ==> plain == data
        },
{
    let modulus = be_value(n);
    let message = be_value(data);
    let cipher = encrypt_block(data, be_value(d), modulus);
    lemma_block_value(data, be_value(d), modulus);
    lemma_key_pair_round_trip(message, modulus, be_value(e), be_value(d));
    lemma_block_value(cipher, be_value(e), modulus);
    if data.len() >= 1 && data.len() + 1 == byte_len(modulus) {
        lemma_left_pad_restores(data);
    }
    if is_minimal(data) && data.len() == byte_len(modulus) {
        lemma_minimal_is_bytes_of_value(data);
    }
}

/// Whether `number` is zero.
pub(crate) fn is_zero(number: &BigUint) -> (zero: bool)
    ensures
        zero == (biguint_value(*number) == 0),
{
    let nothing = from_u32(0);
    equal(number, &nothing)
}

/// Reads `input` as a number, raises it to `exponent` modulo `modulus` and
/// spells the result in as few bytes as it takes.
pub(crate) fn raw_transform(input: &[u8], exponent: &BigUint, modulus: &BigUint) -> (output: Vec<
    u8,
>)
    requires
        biguint_value(*modulus) != 0,
    ensures
        output@ == bare_block(input@, biguint_value(*exponent), biguint_value(*modulus)),
{
    let message = from_bytes_be(input);
    let power = modpow(&message, exponent, modulus);
    to_bytes_be(&power)
}

/// How many bytes the modulus takes.
pub(crate) fn modulus_len(modulus: &BigUint) -> (len: usize)
    ensures
        len == byte_len(biguint_value(*modulus)),
        len >= 1,
{
    let spelled = to_bytes_be(modulus);
    proof {
        lemma_bytes_minimal(biguint_value(*modulus));
    }
    spelled.len()
}

/// Raw RSA with the key handed in on every call.
pub struct RsaEncryptor;

impl RsaEncryptor {
    /// An encryptor. It holds no key.
    pub fn new() -> (encryptor: Self) {
        RsaEncryptor
    }

    /// Transforms `data` with the private exponent `d` modulo `n`, and pads
    /// the result with leading zeros to the byte length of `n`.
    ///
    /// All three buffers are unsigned big-endian numbers. A zero modulus or
    /// exponent is turned down before anything is computed.
    pub fn private_encrypt(&self, data: &[u8], n: &[u8], d: &[u8]) -> (result: Result<
        Vec<u8>,
        RsaError,
    >)
        ensures
            outcome_matches(result, private_encrypt_outcome(data@, n@, d@)),
            result matches Ok(block) ==> block@.len() == byte_len(be_value(n@)),
    {
        let modulus = from_bytes_be(n);
        if is_zero(&modulus) {
            return Err(RsaError::InvalidKeyMaterial(KeyFault::ZeroModulus));
        }
        let exponent = from_bytes_be(d);
        if is_zero(&exponent) {
            return Err(RsaError::InvalidKeyMaterial(KeyFault::ZeroPrivateExponent));
        }
        let block = raw_transform(data, &exponent, &modulus);
        let n_len: usize = modulus_len(&modulus);
        proof {
            lemma_encrypt_block_len(data@, be_value(d@), be_value(n@));
        }
        Ok(pad_left(block, n_len))
    }

    /// Transforms `encrypted_data` with the public exponent `e` modulo `n`,
    /// and pads the result with leading zeros to one byte less than the byte
    /// length of `n`.
    ///
    /// All three buffers are unsigned big-endian numbers. A zero modulus or
    /// exponent is turned down before anything is computed.
    pub fn public_decrypt(&self, encrypted_data: &[u8], n: &[u8], e: &[u8]) -> (result: Result<
        Vec<u8>,
        RsaError,
    >)
        ensures
            outcome_matches(result, public_decrypt_outcome(encrypted_data@, n@, e@)),
            result matches Ok(block) ==> byte_len(be_value(n@)) - 1 <= block@.len() <= byte_len(
                be_value(n@),
            ) && block@.len() >= 1,
    {
        let modulus = from_bytes_be(n);
        if is_zero(&modulus) {
            return Err(RsaError::InvalidKeyMaterial(KeyFault::ZeroModulus));
        }
        let exponent = from_bytes_be(e);
        if is_zero(&exponent) {
            return Err(RsaError::InvalidKeyMaterial(KeyFault::ZeroPublicExponent));
        }
        let block = raw_transform(encrypted_data, &exponent, &modulus);
        let n_len: usize = modulus_len(&modulus);
        proof {
            lemma_block_value(encrypted_data@, be_value(e@), be_value(n@));
        }
        Ok(pad_left(block, n_len - 1))
    }
}

} // verus!

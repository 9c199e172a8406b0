//! An RSA engine that keeps its key: modulus, exponents and the declared key
//! size.

use crate::big_endian::{
    be_bytes, be_value, byte_len, has_bit_length, is_minimal, lemma_byte_len_of_bit_length,
    lemma_minimal_is_bytes_of_value, lemma_value_bound, lemma_value_of_bytes, pad_left,
};
use crate::bignum::{biguint_value, from_bytes_be, to_bytes_be};
use crate::error::{KeyFault, RsaError};
use crate::key_pair::{is_key_pair, lemma_key_pair_round_trip};
use crate::keys::{
    generate_key_parts, parse_pkcs1_private_key, pkcs1_private_key, PrivateKeyParts,
};
use crate::rsa::{
    bare_block, encrypt_block, is_zero, lemma_block_value, lemma_encrypt_block_len,
    lemma_private_encrypt_then_public_decrypt, modulus_len, outcome_matches,
    private_encrypt_outcome, public_decrypt_outcome, raw_transform,
};
use num_bigint::BigUint;
use vstd::arithmetic::power::{lemma_pow_increases, lemma_pow_multiplies, pow};
use vstd::arithmetic::power2::{lemma2_to64, lemma_pow2};
use vstd::prelude::*;

verus! {

/// The key that an [`RsaEngine`] holds, as numbers.
pub struct KeyModel {
    /// The modulus `n`.
    pub modulus: nat,
    /// The public exponent `e`, where the engine has one.
    pub public_exponent: Option<nat>,
    /// The private exponent `d`, where the engine has one.
    pub private_exponent: Option<nat>,
    /// The declared key size in bits.
    pub bit_length: nat,
}

/// What is wrong with the components of a key under construction, if
/// anything: a zero modulus first, then a zero public exponent, then a zero
/// private exponent. An absent exponent is no fault.
pub open spec fn component_fault(
    modulus: nat,
    public_exponent: Option<nat>,
    private_exponent: Option<nat>,
) -> Option<KeyFault> {
    if modulus == 0 {
        Some(KeyFault::ZeroModulus)
    } else if public_exponent == Some(0nat) {
        Some(KeyFault::ZeroPublicExponent)
    } else if private_exponent == Some(0nat) {
        Some(KeyFault::ZeroPrivateExponent)
    } else {
        None
    }
}

impl KeyModel {
    /// The key that construction from components gives, or the fault that
    /// stops it.
    pub open spec fn from_components(
        modulus: nat,
        public_exponent: Option<nat>,
        private_exponent: Option<nat>,
        bit_length: nat,
    ) -> Result<KeyModel, RsaError> {
        match component_fault(modulus, public_exponent, private_exponent) {
            Some(fault) => Err(RsaError::InvalidKeyMaterial(fault)),
            None => Ok(KeyModel { modulus, public_exponent, private_exponent, bit_length }),
        }
    }

    /// The key that construction from the parts of a private key gives, or
    /// the fault that stops it.
    pub open spec fn from_parts(
        modulus: Seq<u8>,
        public_exponent: Seq<u8>,
        private_exponent: Seq<u8>,
        bit_length: nat,
    ) -> Result<KeyModel, RsaError> {
        KeyModel::from_components(
            be_value(modulus),
            Some(be_value(public_exponent)),
            Some(be_value(private_exponent)),
            bit_length,
        )
    }

    /// What keeps the key from public-exponent operations, if anything: a
    /// zero modulus first, then a missing exponent, then a zero one.
    pub open spec fn public_fault(self) -> Option<KeyFault> {
        if self.modulus == 0 {
            Some(KeyFault::ZeroModulus)
        } else if self.public_exponent is None {
            Some(KeyFault::NoPublicExponent)
        } else if self.public_exponent == Some(0nat) {
            Some(KeyFault::ZeroPublicExponent)
        } else {
            None
        }
    }

    /// What keeps the key from private-exponent operations, if anything: a
    /// zero modulus first, then a missing exponent, then a zero one.
    pub open spec fn private_fault(self) -> Option<KeyFault> {
        if self.modulus == 0 {
            Some(KeyFault::ZeroModulus)
        } else if self.private_exponent is None {
            Some(KeyFault::NoPrivateExponent)
        } else if self.private_exponent == Some(0nat) {
            Some(KeyFault::ZeroPrivateExponent)
        } else {
            None
        }
    }

    /// What [`RsaEngine::encrypt`] gives: the fault of the public key, or
    /// the block encrypted with `e`.
    pub open spec fn encrypt(self, data: Seq<u8>) -> Result<Seq<u8>, RsaError> {
        match self.public_fault() {
            Some(fault) => Err(RsaError::InvalidKeyMaterial(fault)),
            None => Ok(encrypt_block(data, self.public_exponent->0, self.modulus)),
        }
    }

    /// What [`RsaEngine::decrypt`] gives: the fault of the private key, or
    /// the block transformed with `d`, without padding.
    pub open spec fn decrypt(self, data: Seq<u8>) -> Result<Seq<u8>, RsaError> {
        match self.private_fault() {
            Some(fault) => Err(RsaError::InvalidKeyMaterial(fault)),
            None => Ok(bare_block(data, self.private_exponent->0, self.modulus)),
        }
    }

    /// The largest chunk, in bytes, that the declared key size allows.
    pub open spec fn max_chunk_size(self) -> int {
        self.bit_length / 8 - 1
    }

    /// The bytes that exporting the public key gives.
    pub open spec fn exported_public(self) -> Seq<u8> {
        be_bytes(self.modulus)
    }

    /// The bytes that exporting the private key gives, where there is one.
    pub open spec fn exported_private(self) -> Option<Seq<u8>> {
        match self.private_exponent {
            Some(d) => Some(be_bytes(d)),
            None => None,
        }
    }

    /// The key after a new modulus and a new private exponent are put in
    /// place.
    pub open spec fn swap(self, new_public: Seq<u8>, new_private: Seq<u8>) -> KeyModel {
        KeyModel {
            modulus: be_value(new_public),
            public_exponent: self.public_exponent,
            private_exponent: Some(be_value(new_private)),
            bit_length: self.bit_length,
        }
    }
}

/// The number that a supplied buffer spells; an absent buffer stays absent.
pub open spec fn optional_value(bytes: Option<&[u8]>) -> Option<nat> {
    match bytes {
        Some(buffer) => Some(be_value(buffer@)),
        None => None,
    }
}

/// Whether a constructor returned what the model says: an engine with that
/// key, or the same error.
pub open spec fn built_matches(
    returned: Result<RsaEngine, RsaError>,
    model: Result<KeyModel, RsaError>,
) -> bool {
    match (returned, model) {
        (Ok(engine), Ok(key)) => engine@ == key,
        (Err(error), Err(expected)) => error == expected,
        _ => false,
    }
}

/// What making an engine from an encoded private key gives once the
/// encoding has been read, or has been turned down.
pub open spec fn private_key_outcome(
    key: Option<(Seq<u8>, Seq<u8>, Seq<u8>)>,
    bit_length: nat,
) -> Result<KeyModel, RsaError> {
    match key {
        None => Err(RsaError::KeyParseFailure),
        Some(parts) => KeyModel::from_parts(parts.0, parts.1, parts.2, bit_length),
    }
}

/// What [`RsaEngine::encrypt_chunk`] gives once the encoded key has been
/// read, or has been turned down: the chunk transformed with the key's
/// modulus and public exponent, without padding.
pub open spec fn chunk_outcome(chunk: Seq<u8>, key: Option<(Seq<u8>, Seq<u8>, Seq<u8>)>) -> Result<
    Seq<u8>,
    RsaError,
> {
    match key {
        None => Err(RsaError::KeyParseFailure),
        Some(parts) => if be_value(parts.0) == 0 {
            Err(RsaError::InvalidKeyMaterial(KeyFault::ZeroModulus))
        } else if be_value(parts.1) == 0 {
            Err(RsaError::InvalidKeyMaterial(KeyFault::ZeroPublicExponent))
        } else {
            Ok(bare_block(chunk, be_value(parts.1), be_value(parts.0)))
        },
    }
}

/// With a key pair, what `encrypt` makes of a number below the modulus,
/// `decrypt` turns back into that number. The bytes are the same too where
/// the plaintext has no needless leading zero, since decrypting pads
/// nothing.
pub proof fn lemma_encrypt_then_decrypt(key: KeyModel, data: Seq<u8>)
    requires
        key.public_exponent is Some,
        key.private_exponent is Some,
        is_key_pair(key.modulus, key.public_exponent->0, key.private_exponent->0),
        be_value(data) < key.modulus,
    ensures
        key.encrypt(data) matches Ok(cipher) && key.decrypt(cipher) matches Ok(plain) && {
            &&& be_value(plain) == be_value(data)
            &&& is_minimal(data) ==> plain == data
        },
{
    let e = key.public_exponent->0;
    let d = key.private_exponent->0;
    let cipher = encrypt_block(data, e, key.modulus);
    lemma_block_value(data, e, key.modulus);
    lemma_key_pair_round_trip(be_value(data), key.modulus, e, d);
    lemma_block_value(cipher, d, key.modulus);
    if is_minimal(data) {
        lemma_minimal_is_bytes_of_value(data);
    }
}

/// A chunk no longer than the largest chunk size spells a number below the
/// modulus, provided the modulus has as many bits as declared. Such a chunk
/// is never turned down for its size: `encrypt` fails on a faulty key only.
pub proof fn lemma_chunk_below_modulus(key: KeyModel, chunk: Seq<u8>)
    requires
        key.bit_length >= 8,
        chunk.len() <= key.max_chunk_size(),
        has_bit_length(key.modulus, key.bit_length),
    ensures
        be_value(chunk) < key.modulus,
        key.public_fault() is None ==> key.encrypt(chunk) is Ok,
{
    let most = (key.bit_length / 8 - 1) as nat;
    let top = (key.bit_length - 1) as nat;
    lemma_value_bound(chunk);
    lemma_pow_increases(256, chunk.len(), most);
    assert(pow(256, most) == pow(2, 8 * most)) by {
        lemma2_to64();
        lemma_pow2(8);
        lemma_pow_multiplies(2, 8, most);
    }
    lemma_pow_increases(2, 8 * most, top);
    lemma_pow2(top);
}

/// Why decrypting pads to one byte less than the modulus: with a key pair
/// whose modulus takes a whole number of bytes, a chunk of exactly the
/// largest chunk size comes back from `private_encrypt` and `public_decrypt`
/// byte for byte, leading zeros included.
pub proof fn lemma_largest_chunk_round_trip(
    chunk: Seq<u8>,
    n: Seq<u8>,
    e: Seq<u8>,
    d: Seq<u8>,
    bit_length: nat,
)
    requires
        is_key_pair(be_value(n), be_value(e), be_value(d)),
        has_bit_length(be_value(n), bit_length),
        bit_length % 8 == 0,
        bit_length >= 16,
        chunk.len() == bit_length / 8 - 1,
    ensures
        private_encrypt_outcome(chunk, n, d) matches Ok(cipher) && cipher.len() == bit_length
            / 8 && public_decrypt_outcome(cipher, n, e) == Ok::<Seq<u8>, RsaError>(chunk),
{
    let key = KeyModel {
        modulus: be_value(n),
        public_exponent: None,
        private_exponent: None,
        bit_length,
    };
    lemma_chunk_below_modulus(key, chunk);
    lemma_byte_len_of_bit_length(be_value(n), bit_length);
    lemma_private_encrypt_then_public_decrypt(chunk, n, e, d);
    lemma_encrypt_block_len(chunk, be_value(d), be_value(n));
}

/// After a swap the engine exports the numbers that were put in, and exactly
/// the bytes that were put in where those have no needless leading zero. The
/// public exponent is the one from before, so encrypting goes on with it
/// against the new modulus.
pub proof fn lemma_swap_then_export(key: KeyModel, new_public: Seq<u8>, new_private: Seq<u8>)
    ensures
        ({
            let swapped = key.swap(new_public, new_private);
            &&& swapped.public_exponent == key.public_exponent
            &&& swapped.bit_length == key.bit_length
            &&& be_value(swapped.exported_public()) == be_value(new_public)
            &&& is_minimal(new_public) ==> swapped.exported_public() == new_public
            &&& swapped.exported_private() matches Some(exported) && {
                &&& be_value(exported) == be_value(new_private)
                &&& is_minimal(new_private) ==> exported == new_private
            }
            &&& key.public_exponent is Some && key.public_exponent != Some(0nat) && be_value(
                new_public,
            ) != 0 ==> forall|data: Seq<u8>| #[trigger]
                swapped.encrypt(data) == Ok::<Seq<u8>, RsaError>(
                    encrypt_block(data, key.public_exponent->0, be_value(new_public)),
                )
        }),
{
    lemma_value_of_bytes(be_value(new_public));
    lemma_value_of_bytes(be_value(new_private));
    if is_minimal(new_public) {
        lemma_minimal_is_bytes_of_value(new_public);
    }
    if is_minimal(new_private) {
        lemma_minimal_is_bytes_of_value(new_private);
    }
}

/// Raw RSA with a key that the engine keeps.
pub struct RsaEngine {
    n: BigUint,
    e: Option<BigUint>,
    d: Option<BigUint>,
    bit_length: usize,
}

impl View for RsaEngine {
    type V = KeyModel;

    closed spec fn view(&self) -> KeyModel {
        KeyModel {
            modulus: biguint_value(self.n),
            public_exponent: match self.e {
                Some(e) => Some(biguint_value(e)),
                None => None,
            },
            private_exponent: match self.d {
                Some(d) => Some(biguint_value(d)),
                None => None,
            },
            bit_length: self.bit_length as nat,
        }
    }
}

impl RsaEngine {
    /// An engine with a freshly generated key pair of `bit_length` bits.
    ///
    /// Whether a key comes out, and which, is up to the generator. A
    /// generator that gives up is reported as `TransformFailure`, and no
    /// engine is made. A key that does come out goes through
    /// [`RsaEngine::from_key_parts`] like any other, so the engine holds a
    /// modulus of the declared size and both exponents, none of them zero.
    pub fn new(bit_length: usize) -> (result: Result<RsaEngine, RsaError>)
        ensures
            match result {
                Ok(engine) => {
                    &&& engine@.bit_length == bit_length
                    &&& has_bit_length(engine@.modulus, bit_length as nat)
                    &&& engine@.public_fault() is None
                    &&& engine@.private_fault() is None
                },
                Err(error) => error == RsaError::TransformFailure || error
                    is InvalidKeyMaterial,
            },
    {
        match generate_key_parts(bit_length) {
            Ok(parts) => RsaEngine::from_key_parts(&parts, bit_length),
            Err(_) => Err(RsaError::TransformFailure),
        }
    }

    /// An engine with the given modulus and whichever exponents are given.
    ///
    /// The buffers are unsigned big-endian numbers. The only check is that
    /// none of them spells zero.
    pub fn from_components(
        n: &[u8],
        e: Option<&[u8]>,
        d: Option<&[u8]>,
        bit_length: usize,
    ) -> (result: Result<RsaEngine, RsaError>)
        ensures
            built_matches(
                result,
                KeyModel::from_components(
                    be_value(n@),
                    optional_value(e),
                    optional_value(d),
                    bit_length as nat,
                ),
            ),
    {
        let modulus = from_bytes_be(n);
        if is_zero(&modulus) {
            return Err(RsaError::InvalidKeyMaterial(KeyFault::ZeroModulus));
        }
        let public_exponent = match e {
            Some(bytes) => {
                let exponent = from_bytes_be(bytes);
                if is_zero(&exponent) {
                    return Err(RsaError::InvalidKeyMaterial(KeyFault::ZeroPublicExponent));
                }
                Some(exponent)
            },
            None => None,
        };
        let private_exponent = match d {
            Some(bytes) => {
                let exponent = from_bytes_be(bytes);
                if is_zero(&exponent) {
                    return Err(RsaError::InvalidKeyMaterial(KeyFault::ZeroPrivateExponent));
                }
                Some(exponent)
            },
            None => None,
        };
        Ok(RsaEngine { n: modulus, e: public_exponent, d: private_exponent, bit_length })
    }

    /// An engine with all three numbers of a private key that has been read
    /// already.
    pub fn from_key_parts(parts: &PrivateKeyParts, bit_length: usize) -> (result: Result<
        RsaEngine,
        RsaError,
    >)
        ensures
            built_matches(
                result,
                KeyModel::from_parts(
                    parts@.modulus,
                    parts@.public_exponent,
                    parts@.private_exponent,
                    bit_length as nat,
                ),
            ),
    {
        RsaEngine::from_components(
            parts.modulus.as_slice(),
            Some(parts.public_exponent.as_slice()),
            Some(parts.private_exponent.as_slice()),
            bit_length,
        )
    }

    /// An engine with the key that `private_key_der` encodes as a PKCS#1
    /// `RSAPrivateKey` structure in DER.
    pub fn from_private_key_der(private_key_der: &[u8], bit_length: usize) -> (result: Result<
        RsaEngine,
        RsaError,
    >)
        ensures
            built_matches(
                result,
                private_key_outcome(pkcs1_private_key(private_key_der@), bit_length as nat),
            ),
    {
        match parse_pkcs1_private_key(private_key_der) {
            Ok(parts) => RsaEngine::from_key_parts(&parts, bit_length),
            Err(_) => Err(RsaError::KeyParseFailure),
        }
    }

    /// The declared key size in bits.
    pub fn bit_length(&self) -> (bits: usize)
        ensures
            bits == self@.bit_length,
    {
        self.bit_length
    }

    /// The largest chunk, in bytes, that callers may hand to one transform:
    /// one byte less than the declared key size holds. Callers split longer
    /// messages and transform each chunk by itself.
    pub fn max_chunk_size(&self) -> (size: usize)
        requires
            self@.bit_length >= 8,
        ensures
            size == self@.bit_length / 8 - 1,
    {
        self.bit_length / 8 - 1
    }

    /// Transforms `data` with the public exponent, and pads the result with
    /// leading zeros to the byte length of the modulus.
    pub fn encrypt(&self, data: &[u8]) -> (result: Result<Vec<u8>, RsaError>)
        ensures
            outcome_matches(result, self@.encrypt(data@)),
            result matches Ok(block) ==> block@.len() == byte_len(self@.modulus),
    {
        if is_zero(&self.n) {
            return Err(RsaError::InvalidKeyMaterial(KeyFault::ZeroModulus));
        }
        match &self.e {
            None => Err(RsaError::InvalidKeyMaterial(KeyFault::NoPublicExponent)),
            Some(exponent) => {
                if is_zero(exponent) {
                    return Err(RsaError::InvalidKeyMaterial(KeyFault::ZeroPublicExponent));
                }
                let block = raw_transform(data, exponent, &self.n);
                let n_len: usize = modulus_len(&self.n);
                proof {
                    lemma_encrypt_block_len(data@, biguint_value(*exponent), self@.modulus);
                }
                Ok(pad_left(block, n_len))
            },
        }
    }

    /// Transforms `data` with the private exponent, and returns the result
    /// in as few bytes as it takes.
    pub fn decrypt(&self, data: &[u8]) -> (result: Result<Vec<u8>, RsaError>)
        ensures
            outcome_matches(result, self@.decrypt(data@)),
    {
        if is_zero(&self.n) {
            return Err(RsaError::InvalidKeyMaterial(KeyFault::ZeroModulus));
        }
        match &self.d {
            None => Err(RsaError::InvalidKeyMaterial(KeyFault::NoPrivateExponent)),
            Some(exponent) => {
                if is_zero(exponent) {
                    return Err(RsaError::InvalidKeyMaterial(KeyFault::ZeroPrivateExponent));
                }
                Ok(raw_transform(data, exponent, &self.n))
            },
        }
    }

    /// Transforms `chunk` with the modulus and the public exponent of the
    /// private key that `private_key_der` encodes as a PKCS#1
    /// `RSAPrivateKey` structure in DER, and returns the result in as few
    /// bytes as it takes. The engine's own key plays no part.
    pub fn encrypt_chunk(&self, chunk: &[u8], private_key_der: &[u8]) -> (result: Result<
        Vec<u8>,
        RsaError,
    >)
        ensures
            outcome_matches(result, chunk_outcome(chunk@, pkcs1_private_key(private_key_der@))),
    {
        match parse_pkcs1_private_key(private_key_der) {
            Ok(parts) => RsaEngine::encrypt_chunk_with(chunk, &parts),
            Err(_) => Err(RsaError::KeyParseFailure),
        }
    }

    /// Transforms `chunk` with the modulus and the public exponent of a
    /// private key that has been read already.
    pub fn encrypt_chunk_with(chunk: &[u8], key: &PrivateKeyParts) -> (result: Result<
        Vec<u8>,
        RsaError,
    >)
        ensures
            outcome_matches(
                result,
                chunk_outcome(
                    chunk@,
                    Some((key@.modulus, key@.public_exponent, key@.private_exponent)),
                ),
            ),
    {
        let modulus = from_bytes_be(key.modulus.as_slice());
        if is_zero(&modulus) {
            return Err(RsaError::InvalidKeyMaterial(KeyFault::ZeroModulus));
        }
        let exponent = from_bytes_be(key.public_exponent.as_slice());
        if is_zero(&exponent) {
            return Err(RsaError::InvalidKeyMaterial(KeyFault::ZeroPublicExponent));
        }
        Ok(raw_transform(chunk, &exponent, &modulus))
    }

    /// The modulus, in as few big-endian bytes as it takes.
    pub fn export_public_key(&self) -> (bytes: Vec<u8>)
        ensures
            bytes@ == self@.exported_public(),
    {
        to_bytes_be(&self.n)
    }

    /// The private exponent, in as few big-endian bytes as it takes, where
    /// the engine has one.
    pub fn export_private_key(&self) -> (bytes: Option<Vec<u8>>)
        ensures
            match bytes {
                Some(buffer) => self@.exported_private() == Some(buffer@),
                None => self@.exported_private() is None,
            },
    {
        match &self.d {
            Some(exponent) => Some(to_bytes_be(exponent)),
            None => None,
        }
    }

    /// Puts a new modulus and a new private exponent in place. The public
    /// exponent and the declared key size stay as they are. Nothing is
    /// checked here: a zero is reported by the transform that meets it.
    pub fn set_swapped_keys(&mut self, new_public: &[u8], new_private: &[u8])
        ensures
            final(self)@ == old(self)@.swap(new_public@, new_private@),
    {
        self.n = from_bytes_be(new_public);
        self.d = Some(from_bytes_be(new_private));
    }
}

} // verus!

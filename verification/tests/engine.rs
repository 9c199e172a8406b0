use crypto_primitives::engine::RsaEngine;
use crypto_primitives::error::{KeyFault, RsaError};
use crypto_primitives::keys::PrivateKeyParts;
use crypto_primitives::rsa::RsaEncryptor;

fn unhex(text: &str) -> Vec<u8> {
    let digits: Vec<u8> = text
        .bytes()
        .map(|c| match c {
            b'0'..=b'9' => c - b'0',
            b'a'..=b'f' => c - b'a' + 10,
            _ => panic!("not a hex digit"),
        })
        .collect();
    digits.chunks(2).map(|pair| pair[0] * 16 + pair[1]).collect()
}

// The textbook key: n = 3233 = 61 * 53, e = 17, d = 2753.
const N: [u8; 2] = [0x0c, 0xa1];
const E: [u8; 1] = [17];
const D: [u8; 2] = [0x0a, 0xc1];

// The textbook key as a PKCS#1 RSAPrivateKey structure in DER.
const TEXTBOOK_DER: &str = "301d02010002020ca102011102020ac102013d020135020135020131020126";

// A 512-bit key, and the same key in DER.
const N512: &str = "b522c1e998103947723647dea9c4932844e238f8a74ad4fe51dedcde46743a86\
                    91a8ed0666be61c33ba0aace597a66753c4b003e1e183214da105a3b182a0d2f";
const E512: &str = "010001";
const D512: &str = "979f87a88ce48fbdf1a9e4514bd4c3c6029b474b45664b92b35f958cee76de81\
                    5a3257073bb2b14a401dad87e9acfa04356cdce56e97f67e5076dc86c6ab6979";
const DER512: &str = "3082013c020100024100b522c1e998103947723647dea9c4932844e238f8a74ad4fe\
                      51dedcde46743a8691a8ed0666be61c33ba0aace597a66753c4b003e1e183214da10\
                      5a3b182a0d2f0203010001024100979f87a88ce48fbdf1a9e4514bd4c3c6029b474b\
                      45664b92b35f958cee76de815a3257073bb2b14a401dad87e9acfa04356cdce56e97\
                      f67e5076dc86c6ab6979022100c1f54b1cd641b93f2b529e0e00fb7addef5e4cb2dd\
                      e39ed2123245bc1eb1f373022100ef1378e088048019795cc170c317e6321757eae4\
                      5c33dc610c4381b53ebce855022100be170fa495801874069b93f819925e5ac0cc64\
                      d33090730963780dcc4f310c6d0221008e194bca60ee13d99049f26bfc79730828d9\
                      c7b26d9f2188c94a428920be157502201b0c27743eceda06b5c5ebbb59def3ce921b\
                      02f818ae0d407aaae228837b0566";

fn textbook() -> RsaEngine {
    RsaEngine::from_components(&N, Some(&E), Some(&D), 16).unwrap()
}

fn key512() -> RsaEngine {
    RsaEngine::from_components(
        &unhex(N512),
        Some(&unhex(E512)),
        Some(&unhex(D512)),
        512,
    )
    .unwrap()
}

#[test]
fn textbook_key_encrypts_65_to_2790_and_back() {
    let engine = textbook();
    let cipher = engine.encrypt(&[65]).unwrap();
    assert_eq!(cipher, vec![0x0a, 0xe6]);
    assert_eq!(engine.decrypt(&cipher), Ok(vec![65]));
    assert_eq!(engine.decrypt(&[0x0a, 0xe6]), Ok(vec![65]));
}

#[test]
fn encrypt_pads_and_decrypt_does_not() {
    let engine = textbook();
    // 1^17 = 1: padded to the two bytes of the modulus.
    assert_eq!(engine.encrypt(&[1]), Ok(vec![0, 1]));
    assert_eq!(engine.encrypt(&[]), Ok(vec![0, 0]));
    // 1^2753 = 1: spelled in one byte.
    assert_eq!(engine.decrypt(&[0, 1]), Ok(vec![1]));
    assert_eq!(engine.decrypt(&[]), Ok(vec![0]));
}

#[test]
fn decrypt_of_encrypt_drops_leading_zeros_of_the_plaintext() {
    let engine = textbook();
    let cipher = engine.encrypt(&[0, 65]).unwrap();
    assert_eq!(engine.decrypt(&cipher), Ok(vec![65]));
}

#[test]
fn key_of_512_bits_round_trips_and_matches_precomputed_ciphertext() {
    let engine = key512();
    let message: Vec<u8> = (1..=63).collect();
    let cipher = engine.encrypt(&message).unwrap();
    assert_eq!(
        cipher,
        unhex(
            "0a3ca6296b18a1a5c964b73dd73955562d210818805b07b926a4d752f7261eba\
             ac4a4a2d56bc22f9fcfc8fbc3f9839ad3e5bfa974d497f3251ebce0d26bda7e5"
        )
    );
    assert_eq!(engine.decrypt(&cipher), Ok(message));
}

#[test]
fn encrypt_pads_a_short_power_to_64_bytes() {
    let engine = key512();
    // The power of this message takes 63 bytes.
    let message = unhex("70726f62652d323835");
    let cipher = engine.encrypt(&message).unwrap();
    assert_eq!(cipher.len(), 64);
    assert_eq!(cipher[0], 0);
    assert_eq!(
        cipher[1..].to_vec(),
        unhex(
            "470e469f00ede124dcb361aa06fd261a2b2b2bc978e05b7cbe24fff54086a3\
             d43d2d6ac70ceed7a81becf1c55e48f2d34c14619db328fe517e0d0f15e0b7da"
        )
    );
    assert_eq!(engine.decrypt(&cipher), Ok(message));
}

#[test]
fn max_chunk_size_is_one_byte_less_than_the_key() {
    assert_eq!(key512().max_chunk_size(), 63);
    assert_eq!(textbook().max_chunk_size(), 1);
    let big = RsaEngine::from_components(&N, None, None, 2048).unwrap();
    assert_eq!(big.max_chunk_size(), 255);
    let odd = RsaEngine::from_components(&N, None, None, 1023).unwrap();
    assert_eq!(odd.max_chunk_size(), 126);
    let tiny = RsaEngine::from_components(&N, None, None, 8).unwrap();
    assert_eq!(tiny.max_chunk_size(), 0);
    assert_eq!(big.bit_length(), 2048);
}

#[test]
fn chunk_of_the_largest_size_round_trips() {
    let engine = key512();
    let chunk = vec![0xffu8; engine.max_chunk_size()];
    let cipher = engine.encrypt(&chunk).unwrap();
    assert_eq!(cipher.len(), 64);
    assert_eq!(engine.decrypt(&cipher), Ok(chunk));
}

#[test]
fn long_message_goes_chunk_by_chunk() {
    let engine = key512();
    let message: Vec<u8> = (0..200).map(|i| (i * 7 + 1) as u8).collect();
    let mut recovered = Vec::new();
    for chunk in message.chunks(engine.max_chunk_size()) {
        let cipher = engine.encrypt(chunk).unwrap();
        assert_eq!(cipher.len(), 64);
        recovered.extend(engine.decrypt(&cipher).unwrap());
    }
    assert_eq!(recovered, message);
}

#[test]
fn from_components_rejects_zero_modulus() {
    let expected = Some(RsaError::InvalidKeyMaterial(KeyFault::ZeroModulus));
    assert_eq!(RsaEngine::from_components(&[0], Some(&E), Some(&D), 16).err(), expected);
    assert_eq!(RsaEngine::from_components(&[], None, None, 16).err(), expected);
    assert_eq!(RsaEngine::from_components(&[0, 0], Some(&[0]), None, 16).err(), expected);
}

#[test]
fn from_components_rejects_zero_exponents() {
    assert_eq!(
        RsaEngine::from_components(&N, Some(&[0]), Some(&D), 16).err(),
        Some(RsaError::InvalidKeyMaterial(KeyFault::ZeroPublicExponent))
    );
    assert_eq!(
        RsaEngine::from_components(&N, Some(&E), Some(&[]), 16).err(),
        Some(RsaError::InvalidKeyMaterial(KeyFault::ZeroPrivateExponent))
    );
    assert_eq!(
        RsaEngine::from_components(&N, Some(&[0]), Some(&[0]), 16).err(),
        Some(RsaError::InvalidKeyMaterial(KeyFault::ZeroPublicExponent))
    );
}

#[test]
fn missing_exponent_makes_its_operation_unavailable() {
    let public_only = RsaEngine::from_components(&N, Some(&E), None, 16).unwrap();
    assert_eq!(public_only.encrypt(&[65]), Ok(vec![0x0a, 0xe6]));
    assert_eq!(
        public_only.decrypt(&[65]),
        Err(RsaError::InvalidKeyMaterial(KeyFault::NoPrivateExponent))
    );
    assert_eq!(public_only.export_private_key(), None);

    let private_only = RsaEngine::from_components(&N, None, Some(&D), 16).unwrap();
    assert_eq!(private_only.decrypt(&[0x0a, 0xe6]), Ok(vec![65]));
    assert_eq!(
        private_only.encrypt(&[65]),
        Err(RsaError::InvalidKeyMaterial(KeyFault::NoPublicExponent))
    );
}

#[test]
fn export_gives_the_components() {
    let engine = textbook();
    assert_eq!(engine.export_public_key(), N.to_vec());
    assert_eq!(engine.export_private_key(), Some(D.to_vec()));
    let big = key512();
    assert_eq!(big.export_public_key(), unhex(N512));
    assert_eq!(big.export_private_key(), Some(unhex(D512)));
}

#[test]
fn export_spells_without_leading_zeros() {
    let engine =
        RsaEngine::from_components(&[0, 0, 0x0c, 0xa1], Some(&E), Some(&[0, 0x0a, 0xc1]), 16)
            .unwrap();
    assert_eq!(engine.export_public_key(), N.to_vec());
    assert_eq!(engine.export_private_key(), Some(D.to_vec()));
}

#[test]
fn swapped_keys_are_exported_and_public_exponent_stays() {
    // n = 1022117 = 1009 * 1013, d = 180017.
    let n3 = [0x0f, 0x98, 0xa5];
    let d3 = [0x02, 0xbf, 0x31];
    let mut engine = key512();
    engine.set_swapped_keys(&n3, &d3);
    assert_eq!(engine.export_public_key(), n3.to_vec());
    assert_eq!(engine.export_private_key(), Some(d3.to_vec()));
    assert_eq!(engine.bit_length(), 512);
    // The public exponent is still 65537, now against the modulus 1022117:
    // 65^65537 mod 1022117 = 341568, whereas 65^17 mod 1022117 = 177101.
    assert_eq!(engine.encrypt(&[65]), Ok(vec![0x05, 0x36, 0x40]));
    assert_eq!(
        engine.encrypt(&[65]),
        RsaEncryptor::new().private_encrypt(&[65], &n3, &unhex(E512))
    );
    // The new private exponent undoes the exponent 17 that goes with it.
    assert_eq!(engine.decrypt(&[0x02, 0xb3, 0xcd]), Ok(vec![65]));
}

#[test]
fn swap_gives_a_private_exponent_to_an_engine_without_one() {
    let mut engine = RsaEngine::from_components(&N, Some(&E), None, 16).unwrap();
    engine.set_swapped_keys(&N, &D);
    assert_eq!(engine.decrypt(&[0x0a, 0xe6]), Ok(vec![65]));
    assert_eq!(engine.encrypt(&[65]), Ok(vec![0x0a, 0xe6]));
}

#[test]
fn swapped_in_zero_is_reported_by_the_transforms() {
    let mut engine = textbook();
    engine.set_swapped_keys(&[0], &D);
    assert_eq!(engine.export_public_key(), vec![0]);
    assert_eq!(
        engine.encrypt(&[65]),
        Err(RsaError::InvalidKeyMaterial(KeyFault::ZeroModulus))
    );
    assert_eq!(
        engine.decrypt(&[65]),
        Err(RsaError::InvalidKeyMaterial(KeyFault::ZeroModulus))
    );
    engine.set_swapped_keys(&N, &[]);
    assert_eq!(engine.encrypt(&[65]), Ok(vec![0x0a, 0xe6]));
    assert_eq!(
        engine.decrypt(&[65]),
        Err(RsaError::InvalidKeyMaterial(KeyFault::ZeroPrivateExponent))
    );
    assert_eq!(engine.export_private_key(), Some(vec![0]));
}

#[test]
fn encrypt_chunk_uses_the_public_exponent_of_the_encoded_key() {
    let engine = key512();
    assert_eq!(
        engine.encrypt_chunk(&[65], &unhex(TEXTBOOK_DER)),
        Ok(vec![0x0a, 0xe6])
    );
    assert_eq!(
        engine.encrypt_chunk(&[1, 2, 3], &unhex(DER512)),
        Ok(unhex(
            "209da03f56961c6c427dc991e012f8450889a48e09ada36d1657ca519af609d3\
             aa451b43a7add7f903140154ef801ec60ea6fe23417376d87706c53df951cc22"
        ))
    );
}

#[test]
fn encrypt_chunk_does_not_pad() {
    let engine = textbook();
    // 1^17 = 1, spelled in one byte although the modulus takes two.
    assert_eq!(engine.encrypt_chunk(&[1], &unhex(TEXTBOOK_DER)), Ok(vec![1]));
    assert_eq!(engine.encrypt_chunk(&[], &unhex(TEXTBOOK_DER)), Ok(vec![0]));
}

#[test]
fn encrypt_chunk_rejects_a_key_that_does_not_parse() {
    let engine = textbook();
    assert_eq!(
        engine.encrypt_chunk(&[65], &[1, 2, 3]),
        Err(RsaError::KeyParseFailure)
    );
    assert_eq!(engine.encrypt_chunk(&[65], &[]), Err(RsaError::KeyParseFailure));
    let mut damaged = unhex(TEXTBOOK_DER);
    damaged.pop();
    assert_eq!(
        engine.encrypt_chunk(&[65], &damaged),
        Err(RsaError::KeyParseFailure)
    );
}

#[test]
fn encrypt_chunk_with_parts_checks_the_components() {
    let parts = PrivateKeyParts {
        modulus: N.to_vec(),
        public_exponent: E.to_vec(),
        private_exponent: D.to_vec(),
    };
    assert_eq!(RsaEngine::encrypt_chunk_with(&[65], &parts), Ok(vec![0x0a, 0xe6]));
    let no_modulus = PrivateKeyParts {
        modulus: vec![0],
        public_exponent: E.to_vec(),
        private_exponent: D.to_vec(),
    };
    assert_eq!(
        RsaEngine::encrypt_chunk_with(&[65], &no_modulus),
        Err(RsaError::InvalidKeyMaterial(KeyFault::ZeroModulus))
    );
    let no_exponent = PrivateKeyParts {
        modulus: N.to_vec(),
        public_exponent: vec![],
        private_exponent: D.to_vec(),
    };
    assert_eq!(
        RsaEngine::encrypt_chunk_with(&[65], &no_exponent),
        Err(RsaError::InvalidKeyMaterial(KeyFault::ZeroPublicExponent))
    );
}

#[test]
fn engine_from_encoded_key_holds_its_numbers() {
    let engine = RsaEngine::from_private_key_der(&unhex(DER512), 512).unwrap();
    assert_eq!(engine.export_public_key(), unhex(N512));
    assert_eq!(engine.export_private_key(), Some(unhex(D512)));
    assert_eq!(engine.bit_length(), 512);
    let message: Vec<u8> = (1..=63).collect();
    let cipher = engine.encrypt(&message).unwrap();
    assert_eq!(Ok(cipher.clone()), key512().encrypt(&message));
    assert_eq!(engine.decrypt(&cipher), Ok(message));
}

#[test]
fn engine_from_encoded_key_rejects_bytes_that_do_not_parse() {
    assert_eq!(
        RsaEngine::from_private_key_der(&[0x30, 0x00], 512).err(),
        Some(RsaError::KeyParseFailure)
    );
}

#[test]
fn engine_from_parts_checks_the_components() {
    let parts = PrivateKeyParts {
        modulus: N.to_vec(),
        public_exponent: E.to_vec(),
        private_exponent: vec![0, 0],
    };
    assert_eq!(
        RsaEngine::from_key_parts(&parts, 16).err(),
        Some(RsaError::InvalidKeyMaterial(KeyFault::ZeroPrivateExponent))
    );
}

#[test]
fn generated_key_round_trips() {
    let engine = RsaEngine::new(512).unwrap();
    assert_eq!(engine.bit_length(), 512);
    assert_eq!(engine.max_chunk_size(), 63);
    let modulus = engine.export_public_key();
    assert_eq!(modulus.len(), 64);
    assert!(modulus[0] >= 0x80);
    let data: Vec<u8> = (1..=63).collect();
    let cipher = engine.encrypt(&data).unwrap();
    assert_eq!(cipher.len(), 64);
    assert_eq!(engine.decrypt(&cipher), Ok(data));
}

#[test]
fn generated_keys_differ() {
    let first = RsaEngine::new(256).unwrap();
    let second = RsaEngine::new(256).unwrap();
    assert_ne!(first.export_public_key(), second.export_public_key());
}

#[test]
fn generated_key_works_in_component_form() {
    let engine = RsaEngine::new(512).unwrap();
    let n = engine.export_public_key();
    let d = engine.export_private_key().unwrap();
    let rsa = RsaEncryptor::new();
    let message: Vec<u8> = (1..=63).rev().collect();
    let signed = rsa.private_encrypt(&message, &n, &d).unwrap();
    assert_eq!(signed.len(), n.len());
    // The generator's public exponent is 65537.
    assert_eq!(rsa.public_decrypt(&signed, &n, &[1, 0, 1]), Ok(message));
}

#[test]
fn generator_that_gives_up_is_a_transform_failure() {
    assert_eq!(RsaEngine::new(8).err(), Some(RsaError::TransformFailure));
    assert_eq!(RsaEngine::new(0).err(), Some(RsaError::TransformFailure));
}

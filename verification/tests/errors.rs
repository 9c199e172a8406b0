use crypto_primitives::{KeyFault, RsaError};

#[test]
fn zero_component_messages() {
    assert_eq!(
        RsaError::InvalidKeyMaterial(KeyFault::ZeroModulus).message(),
        "Invalid modulus (n): cannot be zero"
    );
    assert_eq!(
        RsaError::InvalidKeyMaterial(KeyFault::ZeroPrivateExponent).message(),
        "Invalid private exponent (d): cannot be zero"
    );
    assert_eq!(
        RsaError::InvalidKeyMaterial(KeyFault::ZeroPublicExponent).message(),
        "Invalid public exponent (e): cannot be zero"
    );
}

#[test]
fn missing_component_messages() {
    assert_eq!(
        KeyFault::NoPublicExponent.message(),
        "Invalid public exponent (e): not set"
    );
    assert_eq!(
        KeyFault::NoPrivateExponent.message(),
        "Invalid private exponent (d): not set"
    );
}

#[test]
fn other_failure_messages() {
    assert_eq!(
        RsaError::KeyParseFailure.message(),
        "Invalid private key: cannot be parsed"
    );
    assert_eq!(
        RsaError::TransformFailure.message(),
        "Transform failed: inputs were rejected"
    );
}

#[test]
fn errors_compare_by_variant_and_fault() {
    assert_eq!(
        RsaError::InvalidKeyMaterial(KeyFault::ZeroModulus),
        RsaError::InvalidKeyMaterial(KeyFault::ZeroModulus)
    );
    assert_ne!(
        RsaError::InvalidKeyMaterial(KeyFault::ZeroModulus),
        RsaError::InvalidKeyMaterial(KeyFault::ZeroPrivateExponent)
    );
    assert_ne!(RsaError::KeyParseFailure, RsaError::TransformFailure);
}

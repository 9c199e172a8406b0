//! Incremental SHA-2 digests and raw (unpadded) RSA transforms over
//! big-endian byte buffers.
//!
//! Every buffer that stands for a number is read most significant byte
//! first, without sign, length prefix or framing. The contracts speak of
//! such buffers through [`big_endian::be_value`] and
//! [`big_endian::be_bytes`].
//!
//! * [`digest`] holds the incremental digest engine, [`sha`] the `sha2`
//!   hashers under it.
//! * [`rsa`] holds raw RSA on key components handed in with every call,
//!   [`engine`] raw RSA with a key that the engine keeps, and [`error`] what
//!   both report.
//! * [`bignum`] holds the big integers of `num_bigint`, [`keys`] the key
//!   generator and the key decoder of `rsa`.
//! * [`key_pair`] says what a key pair is and proves that two-prime keys are
//!   key pairs, on the number theory of [`number_theory`].

pub mod big_endian;
pub mod bignum;
pub mod digest;
pub mod engine;
pub mod error;
pub mod key_pair;
pub mod keys;
pub mod number_theory;
pub mod rsa;
pub mod sha;

pub use digest::{HashType, Hasher};
pub use engine::RsaEngine;
pub use error::{KeyFault, RsaError};
pub use rsa::RsaEncryptor;

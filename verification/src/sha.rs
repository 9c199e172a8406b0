//! The running SHA-256 and SHA-384 computations of `sha2`. Nothing in this
//! file is proved: each function hands its arguments to `sha2` and states
//! what the `Digest` trait documents.
//!
//! `sha2` spells its hashers as instances of generic buffer types whose
//! bounds the verifier cannot take in, so each is kept behind a struct of
//! this crate that shows the verifier nothing of what it holds.

use vstd::prelude::*;

verus! {

/// A running SHA-256 computation.
#[verifier::external_body]
pub struct Sha256State {
    inner: sha2::Sha256,
}

/// A running SHA-384 computation.
#[verifier::external_body]
pub struct Sha384State {
    inner: sha2::Sha384,
}

/// The bytes that a SHA-256 computation has taken in since it was made or
/// last reset, in the order in which they came.
pub uninterp spec fn sha256_absorbed(state: Sha256State) -> Seq<u8>;

/// The bytes that a SHA-384 computation has taken in since it was made or
/// last reset, in the order in which they came.
pub uninterp spec fn sha384_absorbed(state: Sha384State) -> Seq<u8>;

/// The SHA-256 digest of `message`.
pub uninterp spec fn sha256_digest(message: Seq<u8>) -> Seq<u8>;

/// The SHA-384 digest of `message`.
pub uninterp spec fn sha384_digest(message: Seq<u8>) -> Seq<u8>;

/// `Digest::new` for `Sha256`: a hasher that has taken in nothing.
#[verifier::external_body]
pub(crate) fn sha256_new() -> (state: Sha256State)
    ensures
        sha256_absorbed(state) == Seq::<u8>::empty(),
{
    Sha256State { inner: <sha2::Sha256 as sha2::Digest>::new() }
}

/// `Digest::update` for `Sha256`: the hasher takes in `data` after what it
/// already holds.
#[verifier::external_body]
pub(crate) fn sha256_update(state: &mut Sha256State, data: &[u8])
    ensures
        sha256_absorbed(*final(state)) == sha256_absorbed(*old(state)) + data@,
{
    sha2::Digest::update(&mut state.inner, data)
}

/// `Digest::finalize_reset` for `Sha256`: the 32-byte digest of what the
/// hasher has taken in; afterwards the hasher is as if newly made.
#[verifier::external_body]
pub(crate) fn sha256_finalize_reset(state: &mut Sha256State) -> (digest: Vec<u8>)
    ensures
        digest@ == sha256_digest(sha256_absorbed(*old(state))),
        digest@.len() == 32,
        sha256_absorbed(*final(state)) == Seq::<u8>::empty(),
{
    sha2::Digest::finalize_reset(&mut state.inner).to_vec()
}

/// `Digest::new` for `Sha384`: a hasher that has taken in nothing.
#[verifier::external_body]
pub(crate) fn sha384_new() -> (state: Sha384State)
    ensures
        sha384_absorbed(state) == Seq::<u8>::empty(),
{
    Sha384State { inner: <sha2::Sha384 as sha2::Digest>::new() }
}

/// `Digest::update` for `Sha384`: the hasher takes in `data` after what it
/// already holds.
#[verifier::external_body]
pub(crate) fn sha384_update(state: &mut Sha384State, data: &[u8])
    ensures
        sha384_absorbed(*final(state)) == sha384_absorbed(*old(state)) + data@,
{
    sha2::Digest::update(&mut state.inner, data)
}

/// `Digest::finalize_reset` for `Sha384`: the 48-byte digest of what the
/// hasher has taken in; afterwards the hasher is as if newly made.
#[verifier::external_body]
pub(crate) fn sha384_finalize_reset(state: &mut Sha384State) -> (digest: Vec<u8>)
    ensures
        digest@ == sha384_digest(sha384_absorbed(*old(state))),
        digest@.len() == 48,
        sha384_absorbed(*final(state)) == Seq::<u8>::empty(),
{
    sha2::Digest::finalize_reset(&mut state.inner).to_vec()
}

} // verus!

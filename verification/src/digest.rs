//! Incremental digests: feed bytes in any number of pieces, take the digest,
//! and go on with a fresh computation on the same engine.

use crate::sha::{
    sha256_absorbed, sha256_digest, sha256_finalize_reset, sha256_new, sha256_update,
    sha384_absorbed, sha384_digest, sha384_finalize_reset, sha384_new, sha384_update,
    Sha256State, Sha384State,
};
use vstd::prelude::*;

verus! {

/// The digest algorithms on offer.
#[derive(Clone, Copy, Debug, PartialEq, Eq, Structural)]
pub enum HashType {
    SHA256,
    SHA384,
}

/// The digest of `message` under `algorithm`.
pub open spec fn digest_of(algorithm: HashType, message: Seq<u8>) -> Seq<u8> {
    match algorithm {
        HashType::SHA256 => sha256_digest(message),
        HashType::SHA384 => sha384_digest(message),
    }
}

/// The length in bytes of every digest under `algorithm`.
pub open spec fn digest_len(algorithm: HashType) -> nat {
    match algorithm {
        HashType::SHA256 => 32,
        HashType::SHA384 => 48,
    }
}

/// What a [`Hasher`] is, as far as its results go: its algorithm, fixed for
/// life, and the bytes fed since it was made or last finalized.
pub struct DigestModel {
    pub algorithm: HashType,
    pub pending: Seq<u8>,
}

impl DigestModel {
    /// A model with nothing fed.
    pub open spec fn fresh(algorithm: HashType) -> DigestModel {
        DigestModel { algorithm, pending: Seq::empty() }
    }

    /// The model after `data` is fed.
    pub open spec fn absorb(self, data: Seq<u8>) -> DigestModel {
        DigestModel { algorithm: self.algorithm, pending: self.pending + data }
    }

    /// The digest that finalizing gives.
    pub open spec fn output(self) -> Seq<u8> {
        digest_of(self.algorithm, self.pending)
    }

    /// The model after finalizing: same algorithm, nothing fed.
    pub open spec fn reset(self) -> DigestModel {
        DigestModel::fresh(self.algorithm)
    }
}

/// A digest depends on the algorithm and on the bytes fed, and on nothing
/// else: a fresh hasher fed `message` in one piece gives `digest_of` that
/// message, every time.
pub proof fn lemma_digest_is_function_of_input(algorithm: HashType, message: Seq<u8>)
    ensures
        DigestModel::fresh(algorithm).absorb(message).output() == digest_of(algorithm, message),
{
    assert(Seq::<u8>::empty() + message =~= message);
}

/// Finalizing starts over: straight after it, with nothing fed in between,
/// the next digest is that of the empty message.
pub proof fn lemma_finalize_resets(model: DigestModel)
    ensures
        model.reset() == DigestModel::fresh(model.algorithm),
        model.reset().output() == digest_of(model.algorithm, Seq::empty()),
        model.reset().reset() == model.reset(),
{
}

/// Feeding two pieces one after the other is feeding their concatenation:
/// the hasher is in the same state and gives the same digest.
pub proof fn lemma_chunked_feed(model: DigestModel, first: Seq<u8>, second: Seq<u8>)
    ensures
        model.absorb(first).absorb(second) == model.absorb(first + second),
        model.absorb(first).absorb(second).output() == model.absorb(first + second).output(),
{
    assert((model.pending + first) + second =~= model.pending + (first + second));
}

/// The one running computation of a hasher, under the algorithm it was made
/// for.
enum DigestState {
    Sha256(Sha256State),
    Sha384(Sha384State),
}

/// An incremental digest engine.
pub struct Hasher {
    state: DigestState,
}

impl View for Hasher {
    type V = DigestModel;

    closed spec fn view(&self) -> DigestModel {
        match self.state {
            DigestState::Sha256(running) => DigestModel {
                algorithm: HashType::SHA256,
                pending: sha256_absorbed(running),
            },
            DigestState::Sha384(running) => DigestModel {
                algorithm: HashType::SHA384,
                pending: sha384_absorbed(running),
            },
        }
    }
}

impl Hasher {
    /// A hasher for `hash_type` that has been fed nothing.
    pub fn new(hash_type: HashType) -> (hasher: Hasher)
        ensures
            hasher@ == DigestModel::fresh(hash_type),
    {
        match hash_type {
            HashType::SHA256 => Hasher { state: DigestState::Sha256(sha256_new()) },
            HashType::SHA384 => Hasher { state: DigestState::Sha384(sha384_new()) },
        }
    }

    /// Feeds `data` after everything fed so far.
    pub fn update(&mut self, data: &[u8])
        ensures
            final(self)@ == old(self)@.absorb(data@),
    {
        match &mut self.state {
            DigestState::Sha256(running) => sha256_update(running, data),
            DigestState::Sha384(running) => sha384_update(running, data),
        }
    }

    /// Returns the digest of everything fed since the hasher was made or
    /// last finalized, and leaves the hasher ready for a new message under
    /// the same algorithm.
    pub fn finalize(&mut self) -> (digest: Vec<u8>)
        ensures
            digest@ == old(self)@.output(),
            digest@.len() == digest_len(old(self)@.algorithm),
            final(self)@ == old(self)@.reset(),
    {
        match &mut self.state {
            DigestState::Sha256(running) => sha256_finalize_reset(running),
            DigestState::Sha384(running) => sha384_finalize_reset(running),
        }
    }
}

} // verus!

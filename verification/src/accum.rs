//! The running checksum state: a hash accumulator built from four fixed
//! seeds, fed one chunk of raw bytes per write call, in visitation order,
//! and finalized into one `u64`. The hasher folds each call's length into
//! its state, so the partition of the bytes into calls matters, not only
//! their concatenation; the model therefore keeps the calls apart.

use vstd::prelude::*;
use std::hash::{BuildHasher, Hasher};

verus! {

#[verifier::external_type_specification]
#[verifier::external_body]
pub struct ExAHasher(ahash::AHasher);

/// The value that a hasher built from the four given seeds yields once it
/// has been fed exactly the write calls `fed` — one element per call, each
/// holding that call's bytes — in that order, and is finalized.
pub uninterp spec fn seeded_digest(k0: u64, k1: u64, k2: u64, k3: u64, fed: Seq<Seq<u8>>) -> u64;

/// Relies on `ahash::RandomState::with_seeds` and its `BuildHasher` impl:
/// all states built with the same four seeds produce identical hashers, so
/// the digest is reproducible across runs.
#[verifier::external_body]
fn build_seeded_hasher(k0: u64, k1: u64, k2: u64, k3: u64) -> ahash::AHasher {
    ahash::RandomState::with_seeds(k0, k1, k2, k3).build_hasher()
}

/// A seeded hash state together with the write calls it has been fed so
/// far.
pub struct ChecksumAccumulator {
    inner: ahash::AHasher,
    seeds: Ghost<(u64, u64, u64, u64)>,
    fed: Ghost<Seq<Seq<u8>>>,
}

impl ChecksumAccumulator {
    /// The seeds this accumulator was built from.
    pub closed spec fn seeds(&self) -> (u64, u64, u64, u64) {
        self.seeds@
    }

    /// The write calls fed to this accumulator so far, in feed order: one
    /// element per call, holding that call's bytes.
    pub closed spec fn fed(&self) -> Seq<Seq<u8>> {
        self.fed@
    }

    /// A fresh accumulator built from the four given seeds, with nothing
    /// fed yet.
    pub(crate) fn with_seeds(k0: u64, k1: u64, k2: u64, k3: u64) -> (r: Self)
        ensures
            r.seeds() == (k0, k1, k2, k3),
            r.fed() == Seq::<Seq<u8>>::empty(),
    {
        ChecksumAccumulator {
            inner: build_seeded_hasher(k0, k1, k2, k3),
            seeds: Ghost((k0, k1, k2, k3)),
            fed: Ghost(Seq::empty()),
        }
    }

    /// Relies on `std::hash::Hasher::write` for `ahash::AHasher`: each call
    /// folds its byte count and then its bytes into the state, which
    /// afterwards depends only on the seeds and the sequence of calls made
    /// so far. A call is one more element of `fed`: even an empty one
    /// changes the state.
    #[verifier::external_body]
    pub(crate) fn write_bytes(&mut self, bytes: &[u8])
        ensures
            final(self).seeds() == old(self).seeds(),
            final(self).fed() == old(self).fed().push(bytes@),
    {
        self.inner.write(bytes);
    }

    /// Relies on `std::hash::Hasher::finish` for `ahash::AHasher`: the
    /// digest is a function of the seeds and of the sequence of write calls
    /// made, in order and with their boundaries, and finishing does not
    /// consume the state.
    #[verifier::external_body]
    pub(crate) fn digest(&self) -> (r: u64)
        ensures
            r == seeded_digest(
                self.seeds().0,
                self.seeds().1,
                self.seeds().2,
                self.seeds().3,
                self.fed(),
            ),
    {
        self.inner.finish()
    }
}

} // verus!

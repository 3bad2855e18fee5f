//! The engine's hashing utility: the Fowler–Noll–Vo hasher, wrapped.
//!
//! Request deduplication keys and plan caches hash small keys; the FNV
//! function suits them. The wrapper tracks, as ghost state, the bytes
//! written so far, so what `finish` returns can be named as a function of
//! exactly those bytes.

use vstd::prelude::*;

verus! {

#[verifier::external_type_specification]
#[verifier::external_body]
pub struct ExFnvHasher(fnv::FnvHasher);

/// The FNV-1a hash of a byte sequence. The value is a pure function of the
/// bytes alone, the same in every process and on every machine.
pub uninterp spec fn fnv_of(bytes: Seq<u8>) -> u64;

/// A hasher over the FNV algorithm, tracking the bytes written so far.
pub struct TailcallHasher {
    pub hasher: fnv::FnvHasher,
    pub written: Ghost<Seq<u8>>,
}

/// Relies on `fnv::FnvHasher::default`: the standard FNV offset basis, the
/// fixed state in which no bytes have been folded.
#[verifier::external_body]
fn fnv_default() -> fnv::FnvHasher {
    fnv::FnvHasher::default()
}

impl TailcallHasher {
    /// A hasher that has seen no bytes.
    pub fn new() -> (r: TailcallHasher)
        ensures
            r.written@ == Seq::<u8>::empty(),
    {
        TailcallHasher { hasher: fnv_default(), written: Ghost(Seq::empty()) }
    }

    /// Feeds bytes to the hasher.
    ///
    /// Relies on `fnv::FnvHasher::write` (via std's `Hasher` trait): folds
    /// each byte into the state, so the state after the call is determined
    /// by all bytes written so far.
    #[verifier::external_body]
    pub fn write(&mut self, bytes: &[u8])
        ensures
            final(self).written@ == old(self).written@ + bytes@,
    {
        std::hash::Hasher::write(&mut self.hasher, bytes);
    }

    /// The hash of everything written so far.
    ///
    /// Relies on `fnv::FnvHasher::finish`: returns the accumulated FNV-1a
    /// state, a pure function of the bytes written.
    #[verifier::external_body]
    pub fn finish(&self) -> (r: u64)
        ensures
            r == fnv_of(self.written@),
    {
        std::hash::Hasher::finish(&self.hasher)
    }
}

/// Builds [`TailcallHasher`]s for hash containers kept by the surrounding
/// application.
#[derive(Debug, Clone, PartialEq, Eq, Structural)]
pub struct TailcallBuildHasher;

impl TailcallBuildHasher {
    /// A fresh hasher, no bytes seen.
    pub fn build_hasher(&self) -> (r: TailcallHasher)
        ensures
            r.written@ == Seq::<u8>::empty(),
    {
        TailcallHasher::new()
    }
}

} // verus!

//! Provider-neutral interfaces for standardized cryptographic primitives.

use vstd::prelude::*;

use crate::transcript::TranscriptSink;

verus! {

/// SHA-384 digest size.
pub const SHA384_OUTPUT_LEN: usize = 48;

/// One SHA-384 digest.
pub type Sha384Digest = [u8; 48];

/// Streaming SHA-384 operations shared by transcript, identity, and Merkle code.
///
/// A context receives canonical bytes through [`TranscriptSink`]. Providers may wrap software
/// hashes, hardware engines, or opaque cryptographic handles.
pub trait Sha384Provider {
    type Context: TranscriptSink;

    type Error;

    /// The digest of a message.
    ///
    /// An implementation that is verified with this library defines it.
    closed spec fn sha384(&self, message: Seq<u8>) -> Sha384Digest {
        vstd::pervasive::arbitrary()
    }

    /// Starts one independent SHA-384 operation.
    ///
    /// # Errors
    ///
    /// Returns a provider-specific error when a context cannot be created.
    fn start_sha384(&self) -> (started: Result<Self::Context, Self::Error>)
        ensures
            started matches Ok(context) ==> context.fed() == Seq::<u8>::empty(),
    ;

    /// Finalizes one SHA-384 operation and returns exactly 48 bytes.
    ///
    /// # Errors
    ///
    /// Returns a provider-specific error when hashing cannot be completed.
    fn finish_sha384(&self, context: Self::Context) -> (finished: Result<Sha384Digest, Self::Error>)
        ensures
            finished matches Ok(digest) ==> digest@ == self.sha384(context.fed())@,
    ;
}

/// Whether a provider fails with `error` to finish an operation that has absorbed exactly `message`.
pub open spec fn finishing_fails_with<P: Sha384Provider + ?Sized>(
    provider: &P,
    message: Seq<u8>,
    error: P::Error,
) -> bool {
    exists|context: P::Context|
        context.fed() == message && #[trigger] call_ensures(
            P::finish_sha384,
            (provider, context),
            Err::<Sha384Digest, P::Error>(error),
        )
}

/// Whether a provider fails with `error` to hash `message`: to start the operation, or to finish it
/// once it has absorbed exactly the message.
pub open spec fn hashing_fails_with<P: Sha384Provider>(
    provider: &P,
    message: Seq<u8>,
    error: P::Error,
) -> bool {
    ||| call_ensures(P::start_sha384, (provider,), Err::<P::Context, P::Error>(error))
    ||| finishing_fails_with(provider, message, error)
}

/// SHA-384 provider whose running contexts can be forked transactionally.
///
/// Handshake transcript state uses a fork as a candidate update and commits it only after every
/// required snapshot succeeds.
pub trait ForkableSha384Provider: Sha384Provider {
    /// Creates an independent context with exactly the same running hash state.
    ///
    /// # Errors
    ///
    /// Returns a provider-specific error when the context cannot be cloned or exported safely.
    fn fork_sha384(&self, context: &Self::Context) -> (forked: Result<Self::Context, Self::Error>)
        ensures
            forked matches Ok(copy) ==> copy.fed() == context.fed(),
    ;

    /// Returns the current digest without consuming or modifying `context`.
    ///
    /// # Errors
    ///
    /// Returns a provider-specific fork or finalization error.
    fn snapshot_sha384(&self, context: &Self::Context) -> (taken: Result<Sha384Digest, Self::Error>)
        ensures
            taken matches Ok(digest) ==> digest@ == self.sha384(context.fed())@,
            taken matches Err(error) ==> {
                ||| call_ensures(
                    Self::fork_sha384,
                    (self, context),
                    Err::<Self::Context, Self::Error>(error),
                )
                ||| finishing_fails_with(self, context.fed(), error)
            },
    {
        match self.fork_sha384(context) {
            Ok(copy) => self.finish_sha384(copy),
            Err(error) => Err(error),
        }
    }
}

/// Whether a provider fails with `error` to fork a context that has absorbed exactly `message`.
pub open spec fn forking_fails_with<P: ForkableSha384Provider>(
    provider: &P,
    message: Seq<u8>,
    error: P::Error,
) -> bool {
    exists|context: &P::Context|
        context.fed() == message && #[trigger] call_ensures(
            P::fork_sha384,
            (provider, context),
            Err::<P::Context, P::Error>(error),
        )
}

/// Whether a provider fails with `error` to take the digest of a context that has absorbed exactly
/// `message`.
pub open spec fn snapshot_fails_with<P: ForkableSha384Provider>(
    provider: &P,
    message: Seq<u8>,
    error: P::Error,
) -> bool {
    exists|context: &P::Context|
        context.fed() == message && #[trigger] call_ensures(
            P::snapshot_sha384,
            (provider, context),
            Err::<Sha384Digest, P::Error>(error),
        )
}

} // verus!

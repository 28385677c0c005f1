use vstd::prelude::*;

verus! {

/// Failure taxonomy of the codec.
///
/// Encoding-invariant violations and key-size mismatches abort the pass at
/// the operation that detects them; authentication mismatches abort a whole
/// parse; key exhaustion is a hard stop for the signing attempt.
#[derive(Clone, Copy, Debug, PartialEq, Eq, Structural)]
pub enum Error {
    /// A trit length that must be a multiple of 3 is not.
    LengthNotMultipleOf3,
    /// A public key or secret does not have the scheme's fixed size.
    KeySizeMismatch,
    /// A hash handed to the signer does not have the scheme's hash size.
    HashSizeMismatch,
    /// Every one-time key of the signer's tree has been consumed.
    MssExhausted,
    /// A size does not fit the machine word, or its encoding claims to.
    SizeOverflow,
    /// The wire ended before the operation could read its trits.
    StreamTooShort,
    /// A squeezed tag or a signature does not match the wire: tampering.
    AuthMismatch,
    /// A joined link is not present in the store.
    LinkNotFound,
}

} // verus!

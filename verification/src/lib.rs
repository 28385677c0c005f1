//! A three-pass interpreter for a trinary message layout.
//!
//! A message layout is a sequence of abstract operations (absorb, squeeze,
//! mask, skip, commit, sign, encapsulate, fork, repeat, join).  The same
//! layout is executed by three interchangeable contexts: a size-counting
//! pass ([`sizeof`]), a writing pass ([`wrap`]) that serializes values and
//! drives a cryptographic sponge, and a reading pass ([`unwrap`]) that
//! parses the wire, reconstructs the sponge evolution and rejects tampered
//! input.  The central correctness property, proved in [`ops`], is that the
//! three passes agree: the size pass predicts exactly how many trits the
//! writing pass emits, and the reading pass recovers exactly the values the
//! writing pass consumed.

pub mod errors;
pub mod trits;
pub mod types;
pub mod spongos;
pub mod mss;
pub mod ntru;
pub mod link;
pub mod sizeof;
pub mod wrap;
pub mod unwrap;
pub mod ops;
pub mod laws;

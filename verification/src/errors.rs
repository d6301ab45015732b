use vstd::prelude::*;

verus! {

/// Every failure the library can report.
///
/// `InsufficientFunds` carries the amount that was actually available,
/// so a caller can report how far short the spender fell.
#[derive(Debug, Clone, PartialEq, Eq, Structural)]
pub enum Error {
    /// A disk or socket operation failed.
    Io,
    /// Stored or received bytes do not decode to the expected shape.
    Serialization,
    /// A malformed address or public key was supplied.
    MalformedInput,
    /// A spend asked for more than the spendable balance; holds that balance.
    InsufficientFunds(i32),
    /// An input references a transaction the chain does not contain.
    MissingPrevTx,
    /// No chain exists in the store and none was asked to be created.
    NoChain,
    /// A transaction failed signature verification while mining.
    InvalidTransaction,
    /// A peer could not be reached.
    PeerUnreachable,
    /// A message violates the wire protocol.
    Protocol,
}

} // verus!

//! Errors surfaced by the library's decision functions.

use vstd::prelude::*;

verus! {

/// Failure cases of the library's own logic. Transport failures stay with
/// the caller; these cover rejected inputs and fatal protocol states.
#[derive(Clone, Copy, Debug, PartialEq, Eq, Structural)]
pub enum Error {
    /// A network name other than `mainnet`, `testnet` or `regtest`.
    InvalidBitcoinNetwork,
    /// A byte string that is not a sequence of ASCII hex digit pairs.
    InvalidHex,
    /// A decoded address whose length is not 20 bytes.
    InvalidAddressLength,
    /// A byte string of the wrong length for a 32-byte identifier.
    InvalidIdLength,
    /// An input stream of the scheduler closed: fatal for the task.
    ChannelClosed,
}

} // verus!

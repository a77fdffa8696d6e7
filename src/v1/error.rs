//! Errors for the text proxy protocol.
use vstd::prelude::*;

verus! {

/// An error in parsing a text PROXY protocol header.
#[derive(Copy, Clone, Debug, PartialEq, Eq)]
pub enum ParseError {
    /// The input does not start with `PROXY`.
    InvalidPrefix,
    /// The protocol is none of `UNKNOWN`, `TCP4` and `TCP6`.
    InvalidProtocol,
    /// An address is not a literal of the protocol's IP version.
    InvalidAddress,
    /// A port is not a decimal number up to 65535 without leading zeros.
    InvalidPort,
    /// A single space is missing between two parts of the header.
    MissingSeparator,
    /// The header line does not end with `\r\n`.
    MissingTerminator,
}

} // verus!

//! Errors for the binary proxy protocol.
use vstd::prelude::*;

verus! {

/// An error in parsing a binary PROXY protocol header.
///
/// Each variant carries the facts needed to describe the failure: the
/// offending nibble, or the declared and available lengths.
#[derive(Copy, Clone, Debug, PartialEq, Eq)]
pub enum ParseError {
    /// Fewer bytes than the signature plus the four fixed bytes (the length held).
    Incomplete(usize),
    /// The input does not start with the signature.
    Prefix,
    /// The version nibble is not 2 (the nibble held).
    Version(u8),
    /// The command nibble is neither Local nor Proxy (the nibble held).
    Command(u8),
    /// The address family nibble is unknown (the nibble held).
    AddressFamily(u8),
    /// The protocol nibble is unknown (the nibble held).
    Protocol(u8),
    /// Fewer bytes follow the fixed header than it declares (available, declared).
    Partial(usize, usize),
    /// The declared length cannot hold the address block (declared, required).
    InvalidAddresses(usize, usize),
    /// A record runs past the declared region (type, length).
    InvalidTLV(u8, u16),
    /// Bytes at the end of the declared region that do not form a record (their count).
    Leftovers(usize),
}

} // verus!

//! Models for storing IP v4 and v6 addresses and ports.
use vstd::prelude::*;

verus! {

/// An IPv4 address as its four octets, in network order.
pub type Ipv4Octets = [u8; 4];

/// An IPv6 address as its eight 16-bit segments, in network order.
pub type Ipv6Segments = [u16; 8];

/// The source and destination IPv4 addresses and TCP ports of a header.
#[derive(Copy, Clone, Debug, PartialEq, Eq)]
pub struct IPv4 {
    pub source_address: Ipv4Octets,
    pub source_port: u16,
    pub destination_address: Ipv4Octets,
    pub destination_port: u16,
}

impl IPv4 {
    /// Create a new IPv4 addresses.
    pub fn new(
        source_address: Ipv4Octets,
        destination_address: Ipv4Octets,
        source_port: u16,
        destination_port: u16,
    ) -> (r: Self)
        ensures
            r.source_address == source_address,
            r.destination_address == destination_address,
            r.source_port == source_port,
            r.destination_port == destination_port,
    {
        IPv4 { source_address, source_port, destination_address, destination_port }
    }
}

/// The source and destination IPv6 addresses and TCP ports of a header.
#[derive(Copy, Clone, Debug, PartialEq, Eq)]
pub struct IPv6 {
    pub source_address: Ipv6Segments,
    pub source_port: u16,
    pub destination_address: Ipv6Segments,
    pub destination_port: u16,
}

impl IPv6 {
    /// Create a new IPv6 addresses.
    pub fn new(
        source_address: Ipv6Segments,
        destination_address: Ipv6Segments,
        source_port: u16,
        destination_port: u16,
    ) -> (r: Self)
        ensures
            r.source_address == source_address,
            r.destination_address == destination_address,
            r.source_port == source_port,
            r.destination_port == destination_port,
    {
        IPv6 { source_address, source_port, destination_address, destination_port }
    }
}

} // verus!

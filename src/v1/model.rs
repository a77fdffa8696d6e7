//! The text header, which borrows the input, and its addresses.
use vstd::prelude::*;
use crate::ip::{Ipv4Octets, Ipv6Segments};
use crate::v1::text::{address_part, protocol_text};

verus! {

/// The end of a text header.
pub const PROTOCOL_SUFFIX: &'static str = "\r\n";

/// The start of a text header.
pub const PROTOCOL_PREFIX: &'static str = "PROXY";

/// The protocol of a header with IPv4 addresses.
pub const TCP4: &'static str = "TCP4";

/// The protocol of a header with IPv6 addresses.
pub const TCP6: &'static str = "TCP6";

/// The protocol of a header without addresses.
pub const UNKNOWN: &'static str = "UNKNOWN";

/// The separator of the header parts.
pub const SEPARATOR: char = ' ';

/// The source and destination IPv4 addresses and TCP ports of a header.
#[derive(Copy, Clone, Debug, PartialEq, Eq)]
pub struct Tcp4 {
    pub source_address: Ipv4Octets,
    pub source_port: u16,
    pub destination_address: Ipv4Octets,
    pub destination_port: u16,
}

/// The source and destination IPv6 addresses and TCP ports of a header.
#[derive(Copy, Clone, Debug, PartialEq, Eq)]
pub struct Tcp6 {
    pub source_address: Ipv6Segments,
    pub source_port: u16,
    pub destination_address: Ipv6Segments,
    pub destination_port: u16,
}

/// The source and destination of a header.
#[derive(Copy, Clone, Debug, PartialEq, Eq)]
pub enum Addresses {
    Tcp4(Tcp4),
    Tcp6(Tcp6),
    Unknown,
}

/// The mathematical value of the addresses: each address as the sequence of
/// its octets (IPv4) or segments (IPv6).
pub enum AddressesView {
    Tcp4(Seq<int>, Seq<int>, u16, u16),
    Tcp6(Seq<int>, Seq<int>, u16, u16),
    Unknown,
}

impl View for Addresses {
    type V = AddressesView;

    open spec fn view(&self) -> AddressesView {
        match self {
            Addresses::Tcp4(a) => AddressesView::Tcp4(
                a.source_address@.map_values(|x: u8| x as int),
                a.destination_address@.map_values(|x: u8| x as int),
                a.source_port,
                a.destination_port,
            ),
            Addresses::Tcp6(a) => AddressesView::Tcp6(
                a.source_address@.map_values(|x: u16| x as int),
                a.destination_address@.map_values(|x: u16| x as int),
                a.source_port,
                a.destination_port,
            ),
            Addresses::Unknown => AddressesView::Unknown,
        }
    }
}

impl Addresses {
    /// Create a new IPv4 TCP address.
    pub fn new_tcp4(
        source_address: Ipv4Octets,
        destination_address: Ipv4Octets,
        source_port: u16,
        destination_port: u16,
    ) -> (r: Self)
        ensures
            r == Addresses::Tcp4(
                Tcp4 { source_address, source_port, destination_address, destination_port },
            ),
    {
        Addresses::Tcp4(Tcp4 { source_address, source_port, destination_address, destination_port })
    }

    /// Create a new IPv6 TCP address.
    pub fn new_tcp6(
        source_address: Ipv6Segments,
        destination_address: Ipv6Segments,
        source_port: u16,
        destination_port: u16,
    ) -> (r: Self)
        ensures
            r == Addresses::Tcp6(
                Tcp6 { source_address, source_port, destination_address, destination_port },
            ),
    {
        Addresses::Tcp6(Tcp6 { source_address, source_port, destination_address, destination_port })
    }
}

impl Default for Addresses {
    fn default() -> (r: Self)
        ensures
            r == Addresses::Unknown,
    {
        Addresses::Unknown
    }
}

/// A text PROXY protocol header that borrows the input string.
#[derive(Debug, PartialEq, Eq)]
pub struct Header<'a> {
    pub header: &'a str,
    pub addresses: Addresses,
}

impl<'a> Header<'a> {
    /// Creates a new `Header` with the given addresses and a reference to the input it was read from.
    pub fn new(header: &'a str, addresses: Addresses) -> (r: Self)
        ensures
            r.header == header,
            r.addresses == addresses,
    {
        Header { header, addresses }
    }

    /// The text of the header, as it stood in the input.
    pub fn to_string(&self) -> (r: String)
        ensures
            r@ == self.header@,
    {
        self.header.to_owned()
    }

    /// The text starts with `PROXY`, a space and the protocol of the
    /// addresses, and ends with `\r\n`.
    pub open spec fn wf(&self) -> bool {
        let t = self.header@;
        let p = protocol_text(self.addresses@);
        &&& t.len() >= 8 + p.len()
        &&& t.subrange(0, 6 + p.len() as int) == seq!['P', 'R', 'O', 'X', 'Y', ' '] + p
        &&& t.subrange(t.len() - 2, t.len() as int) == seq!['\r', '\n']
    }

    /// The protocol portion of this `Header`: on a well-formed header, the
    /// text right after `PROXY `.
    pub fn protocol(&self) -> (r: &'static str)
        ensures
            r@ == protocol_text(self.addresses@),
            self.wf() ==> r@ == self.header@.subrange(6, 6 + r@.len() as int),
    {
        proof {
            reveal_strlit("TCP4");
            reveal_strlit("TCP6");
            reveal_strlit("UNKNOWN");
        }
        let r = match self.addresses {
            Addresses::Tcp4(..) => "TCP4",
            Addresses::Tcp6(..) => "TCP6",
            Addresses::Unknown => "UNKNOWN",
        };
        proof {
            if self.wf() {
                let t = self.header@;
                let start = seq!['P', 'R', 'O', 'X', 'Y', ' '] + r@;
                let n = 6 + r@.len() as int;
                let head = t.subrange(0, n);
                assert(head == start);
                assert forall|k: int| 6 <= k < n implies t[k] == start[k] by {
                    assert(head[k] == t[k]);
                }
                assert(t.subrange(6, n) =~= r@);
            }
        }
        r
    }

    /// The source and destination addresses portion of this `Header`: the
    /// text between the protocol and `\r\n`, without the space that
    /// separates it from the protocol.
    pub fn addresses(&self) -> (r: &'a str)
        requires
            self.wf(),
        ensures
            r@ == address_part(self.header@, protocol_text(self.addresses@).len()),
    {
        let protocol = self.protocol();
        let start = 6 + protocol.unicode_len();
        let end = self.header.unicode_len() - 2;
        let addresses = self.header.substring_char(start, end);
        if addresses.unicode_len() > 0 && addresses.get_char(0) == ' ' {
            addresses.substring_char(1, addresses.unicode_len())
        } else {
            addresses
        }
    }
}

} // verus!

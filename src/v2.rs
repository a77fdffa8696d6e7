//! The binary form (version 2) of the PROXY protocol header.
pub mod error;
pub mod model;
pub mod codec;

pub use codec::{decode, encode, parse_version_command};

pub use error::ParseError;
pub use model::{AddressFamily, Addresses, Command, Header, Protocol, TypeLengthValue, Unix};

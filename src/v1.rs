//! The text form (version 1) of the PROXY protocol header.
pub mod codec;
pub mod error;
pub mod laws;
pub mod model;
pub mod text;

pub use codec::{encode, parse};

pub use error::ParseError;
pub use model::{
    Addresses, Header, Tcp4, Tcp6, PROTOCOL_PREFIX, PROTOCOL_SUFFIX, SEPARATOR, TCP4, TCP6, UNKNOWN,
};

//! Decoding and encoding of the PROXY protocol headers, in the text form
//! (version 1) and in the binary form (version 2).
pub mod ip;
pub mod v1;
pub mod v2;

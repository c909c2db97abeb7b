//! Transaction data of the chain (outputs, deposit transactions, their
//! attributes) with their binary SCALE encoding, and client-side key handling.

pub mod address;
pub mod attribute;
pub mod codec;
pub mod coin;
pub mod deposit;
pub mod error;
pub mod input;
pub mod key;
pub mod output;
pub mod witness;

pub use error::{Error, ErrorKind};

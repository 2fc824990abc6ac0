//! SOCKS6 wire codec, request/reply framing, proxy chaining and the
//! decisions of a SOCKS6 client and handler, with their contracts.
use vstd::prelude::*;

pub mod address;
pub mod bytes;
pub mod chain;
pub mod client;
pub mod constants;
pub mod error;
pub mod handler;
pub mod options;
pub mod reply;
pub mod request;
pub mod text;

pub use address::{read_address, Address};
pub use chain::{Credentials, ProxyAddress, SocksChain};
pub use client::connect_request;
pub use error::Socks6Error;
pub use handler::{error_response, success_response, NextHop, Socks6Handler};
pub use options::{read_options, SocksOption};
pub use reply::{read_no_authentication, read_reply, write_no_authentication, write_reply, Socks6Reply};
pub use request::{read_request, AuthMethod, Socks6Command, Socks6Request};

verus! {

} // verus!

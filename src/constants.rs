use vstd::prelude::*;

verus! {

pub const SOCKS_VER_6: u8 = 0x06;
pub const SOCKS_CMD_CONNECT: u8 = 0x01;
pub const SOCKS_PADDING: u8 = 0x00;
pub const SOCKS_ATYP_IPV4: u8 = 0x01;
pub const SOCKS_ATYP_DOMAINNAME: u8 = 0x03;
pub const SOCKS_ATYP_IPV6: u8 = 0x04;
pub const SOCKS_AUTH_SUCCESS: u8 = 0x00;
pub const SOCKS_AUTH_USERNAME_PASSWORD: u8 = 0x02;
pub const SOCKS_REP_SUCCEEDED: u8 = 0x00;
pub const SOCKS_OKIND_AUTH_METH_ADV: u16 = 0x0002;
pub const SOCKS_OKIND_AUTH_METH_SEL: u16 = 0x0003;
pub const SOCKS_OKIND_METADATA: u16 = 0xFDE8;

/// Metadata key that holds the chain's traversal index.
pub const CHAIN_INDEX_KEY: u16 = 998;
/// Metadata key that holds the chain's length.
pub const CHAIN_LENGTH_KEY: u16 = 999;
/// Metadata key of the chain's first link; the others follow it.
pub const CHAIN_LINKS_KEY: u16 = 1000;

} // verus!

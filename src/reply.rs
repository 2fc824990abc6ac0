use vstd::prelude::*;
use vstd::utf8::*;

use crate::address::{Address, AddressView};
use crate::bytes::{be16, copy_range, read_u16, string_from_utf8};
use crate::constants::{
    SOCKS_ATYP_DOMAINNAME, SOCKS_ATYP_IPV4, SOCKS_ATYP_IPV6, SOCKS_AUTH_SUCCESS, SOCKS_PADDING,
    SOCKS_REP_SUCCEEDED, SOCKS_VER_6,
};
use crate::error::Socks6Error;
use crate::options::{options_view, parse_options, read_options, OptionView, SocksOption};

verus! {

/// Operation reply codes.
#[derive(Clone, Copy, Debug, PartialEq, Eq, Structural)]
pub enum Socks6Reply {
    Success,
    GeneralFailure,
    ConnectionNotAllowed,
    NetworkUnreachable,
    HostUnreachable,
    ConnectionRefused,
    TTLExpired,
    CommandNotSupported,
    AddressTypeNotSupported,
    ConnectionAttemptTimeOut,
}

impl Socks6Reply {
    pub open spec fn spec_code(self) -> u8 {
        match self {
            Socks6Reply::Success => 0,
            Socks6Reply::GeneralFailure => 1,
            Socks6Reply::ConnectionNotAllowed => 2,
            Socks6Reply::NetworkUnreachable => 3,
            Socks6Reply::HostUnreachable => 4,
            Socks6Reply::ConnectionRefused => 5,
            Socks6Reply::TTLExpired => 6,
            Socks6Reply::CommandNotSupported => 7,
            Socks6Reply::AddressTypeNotSupported => 8,
            Socks6Reply::ConnectionAttemptTimeOut => 9,
        }
    }

    /// The reply's byte on the wire.
    pub fn code(&self) -> (r: u8)
        ensures
            r == self.spec_code(),
    {
        match self {
            Socks6Reply::Success => 0,
            Socks6Reply::GeneralFailure => 1,
            Socks6Reply::ConnectionNotAllowed => 2,
            Socks6Reply::NetworkUnreachable => 3,
            Socks6Reply::HostUnreachable => 4,
            Socks6Reply::ConnectionRefused => 5,
            Socks6Reply::TTLExpired => 6,
            Socks6Reply::CommandNotSupported => 7,
            Socks6Reply::AddressTypeNotSupported => 8,
            Socks6Reply::ConnectionAttemptTimeOut => 9,
        }
    }

    /// The reply with the given byte, if there is one.
    pub fn from_u8(v: u8) -> (r: Option<Socks6Reply>)
        ensures
            r is Some <==> v <= 9,
            r matches Some(c) ==> c.spec_code() == v,
    {
        match v {
            0 => Some(Socks6Reply::Success),
            1 => Some(Socks6Reply::GeneralFailure),
            2 => Some(Socks6Reply::ConnectionNotAllowed),
            3 => Some(Socks6Reply::NetworkUnreachable),
            4 => Some(Socks6Reply::HostUnreachable),
            5 => Some(Socks6Reply::ConnectionRefused),
            6 => Some(Socks6Reply::TTLExpired),
            7 => Some(Socks6Reply::CommandNotSupported),
            8 => Some(Socks6Reply::AddressTypeNotSupported),
            9 => Some(Socks6Reply::ConnectionAttemptTimeOut),
            _ => None,
        }
    }
}

/// The authentication reply a handler sends: version, success, no options.
pub fn write_no_authentication() -> (r: Vec<u8>)
    ensures
        r@ == seq![SOCKS_VER_6, SOCKS_AUTH_SUCCESS, 0u8, 0u8],
{
    let r = vec![SOCKS_VER_6, SOCKS_AUTH_SUCCESS, 0x00u8, 0x00u8];
    assert(r@ =~= seq![SOCKS_VER_6, SOCKS_AUTH_SUCCESS, 0u8, 0u8]);
    r
}

/// Reads an authentication reply: version, status, then options.
pub open spec fn parse_auth_reply(s: Seq<u8>) -> Result<(Seq<OptionView>, int), Socks6Error> {
    if s.len() < 1 {
        Err(Socks6Error::Incomplete)
    } else if s[0] != SOCKS_VER_6 {
        Err(Socks6Error::VersionMismatch)
    } else if s.len() < 2 {
        Err(Socks6Error::Incomplete)
    } else if s[1] != SOCKS_AUTH_SUCCESS {
        Err(Socks6Error::AuthFailed(s[1]))
    } else {
        match parse_options(s.subrange(2, s.len() as int)) {
            Ok((os, n)) => Ok((os, 2 + n)),
            Err(e) => Err(e),
        }
    }
}

/// Reads the authentication reply at the front of `buf`; on success returns its
/// options and the bytes it took.
pub fn read_no_authentication(buf: &[u8]) -> (r: Result<(Vec<SocksOption>, usize), Socks6Error>)
    ensures
        match (r, parse_auth_reply(buf@)) {
            (Ok((os, n)), Ok((v, m))) => options_view(os@) == v && n == m,
            (Err(e), Err(f)) => e == f,
            _ => false,
        },
{
    if buf.len() < 1 {
        return Err(Socks6Error::Incomplete);
    }
    if buf[0] != SOCKS_VER_6 {
        return Err(Socks6Error::VersionMismatch);
    }
    if buf.len() < 2 {
        return Err(Socks6Error::Incomplete);
    }
    if buf[1] != SOCKS_AUTH_SUCCESS {
        return Err(Socks6Error::AuthFailed(buf[1]));
    }
    read_options(buf, 2)
}

/// The operation reply a handler sends: an IPv4 placeholder binding of zeros
/// on port zero, and no options.
pub open spec fn reply_bytes(reply: Socks6Reply) -> Seq<u8> {
    seq![SOCKS_VER_6, reply.spec_code(), 0u8, 0u8, SOCKS_PADDING, SOCKS_ATYP_IPV4, 0u8, 0u8, 0u8, 0u8, 0u8, 0u8]
}

/// Encodes the operation reply a handler sends.
pub fn write_reply(reply: Socks6Reply) -> (r: Vec<u8>)
    ensures
        r@ == reply_bytes(reply),
{
    let r = vec![
        SOCKS_VER_6,
        reply.code(),
        0x00u8,
        0x00u8,
        SOCKS_PADDING,
        SOCKS_ATYP_IPV4,
        0x00u8,
        0x00u8,
        0x00u8,
        0x00u8,
        0x00u8,
        0x00u8,
    ];
    assert(r@ =~= seq![SOCKS_VER_6, reply.spec_code(), 0u8, 0u8, SOCKS_PADDING, SOCKS_ATYP_IPV4, 0u8, 0u8, 0u8, 0u8, 0u8, 0u8]);
    r
}

/// Reads a binding address of type `atyp` (its port given apart) from the front
/// of `s`: the address and the bytes it took.
pub open spec fn parse_host(atyp: u8, s: Seq<u8>, port: u16) -> Result<(AddressView, int), Socks6Error> {
    if atyp == SOCKS_ATYP_IPV4 {
        if s.len() < 4 {
            Err(Socks6Error::Incomplete)
        } else {
            Ok((AddressView::Ipv4(s.subrange(0, 4), port), 4))
        }
    } else if atyp == SOCKS_ATYP_IPV6 {
        if s.len() < 16 {
            Err(Socks6Error::Incomplete)
        } else {
            Ok((AddressView::Ipv6(s.subrange(0, 16), port), 16))
        }
    } else if atyp == SOCKS_ATYP_DOMAINNAME {
        if s.len() < 1 {
            Err(Socks6Error::Incomplete)
        } else if s[0] == 0 {
            Err(Socks6Error::MalformedAddress)
        } else if s.len() < s[0] + 1 {
            Err(Socks6Error::Incomplete)
        } else if !valid_utf8(s.subrange(1, s[0] + 1)) {
            Err(Socks6Error::MalformedAddress)
        } else {
            Ok((AddressView::Domain(decode_utf8(s.subrange(1, s[0] + 1)), port), s[0] + 1))
        }
    } else {
        Err(Socks6Error::MalformedAddress)
    }
}

/// Reads an operation reply: version, code, binding port, padding, address
/// type, binding address, options.
pub open spec fn parse_operation_reply(s: Seq<u8>) -> Result<(AddressView, Seq<OptionView>, int), Socks6Error> {
    if s.len() < 1 {
        Err(Socks6Error::Incomplete)
    } else if s[0] != SOCKS_VER_6 {
        Err(Socks6Error::VersionMismatch)
    } else if s.len() < 2 {
        Err(Socks6Error::Incomplete)
    } else if s[1] != SOCKS_REP_SUCCEEDED {
        Err(Socks6Error::ReplyError(s[1]))
    } else if s.len() < 6 {
        Err(Socks6Error::Incomplete)
    } else {
        match parse_host(s[5], s.subrange(6, s.len() as int), be16(s[2], s[3])) {
            Err(e) => Err(e),
            Ok((a, n)) => match parse_options(s.subrange(6 + n, s.len() as int)) {
                Err(e) => Err(e),
                Ok((os, m)) => Ok((a, os, 6 + n + m)),
            },
        }
    }
}

/// Reads the operation reply at the front of `buf`; on success returns the
/// binding address, the options and the bytes it took.
pub fn read_reply(buf: &[u8]) -> (r: Result<(Address, Vec<SocksOption>, usize), Socks6Error>)
    ensures
        match (r, parse_operation_reply(buf@)) {
            (Ok((a, os, n)), Ok((av, ov, m))) => a@ == av && options_view(os@) == ov && n == m,
            (Err(e), Err(f)) => e == f,
            _ => false,
        },
{
    let ghost s = buf@;
    if buf.len() < 1 {
        return Err(Socks6Error::Incomplete);
    }
    if buf[0] != SOCKS_VER_6 {
        return Err(Socks6Error::VersionMismatch);
    }
    if buf.len() < 2 {
        return Err(Socks6Error::Incomplete);
    }
    if buf[1] != SOCKS_REP_SUCCEEDED {
        return Err(Socks6Error::ReplyError(buf[1]));
    }
    if buf.len() < 6 {
        return Err(Socks6Error::Incomplete);
    }
    let port = read_u16(buf, 2);
    let atyp = buf[5];
    let ghost t = s.subrange(6, s.len() as int);
    let avail = buf.len() - 6;
    let (binding, n) = if atyp == SOCKS_ATYP_IPV4 {
        if avail < 4 {
            return Err(Socks6Error::Incomplete);
        }
        let ip = copy_range(buf, 6, 10);
        assert(ip@ =~= t.subrange(0, 4));
        (Address::Ipv4 { ip, port }, 4usize)
    } else if atyp == SOCKS_ATYP_IPV6 {
        if avail < 16 {
            return Err(Socks6Error::Incomplete);
        }
        let ip = copy_range(buf, 6, 22);
        assert(ip@ =~= t.subrange(0, 16));
        (Address::Ipv6 { ip, port }, 16usize)
    } else if atyp == SOCKS_ATYP_DOMAINNAME {
        if avail < 1 {
            return Err(Socks6Error::Incomplete);
        }
        let len = buf[6] as usize;
        if len == 0 {
            return Err(Socks6Error::MalformedAddress);
        }
        if avail < len + 1 {
            return Err(Socks6Error::Incomplete);
        }
        let raw = copy_range(buf, 7, 7 + len);
        assert(raw@ =~= t.subrange(1, len + 1));
        match string_from_utf8(raw) {
            None => {
                return Err(Socks6Error::MalformedAddress);
            },
            Some(name) => (Address::Domain { name, port }, len + 1),
        }
    } else {
        return Err(Socks6Error::MalformedAddress);
    };
    match read_options(buf, 6 + n) {
        Err(e) => Err(e),
        Ok((options, end)) => {
            assert(s.subrange(6 + n, s.len() as int) =~= buf@.subrange((6 + n) as int, buf@.len() as int));
            Ok((binding, options, end))
        },
    }
}

} // verus!

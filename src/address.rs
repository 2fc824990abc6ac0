use vstd::prelude::*;
use vstd::utf8::*;

use crate::bytes::{be16, copy_range, push_all, push_u16, read_u16, string_bytes, string_from_utf8, u16_bytes};
use crate::constants::{SOCKS_ATYP_DOMAINNAME, SOCKS_ATYP_IPV4, SOCKS_ATYP_IPV6};
use crate::error::Socks6Error;
use crate::text::{all_digits, digits_value, find_first, index_of, parse_decimal};

verus! {

broadcast use {encode_utf8_valid_utf8, encode_utf8_decode_utf8};

/// A destination or binding address with its port.
#[derive(Clone, Debug)]
pub enum Address {
    Ipv4 { ip: Vec<u8>, port: u16 },
    Ipv6 { ip: Vec<u8>, port: u16 },
    Domain { name: String, port: u16 },
}

/// The mathematical value of an `Address`.
pub enum AddressView {
    Ipv4(Seq<u8>, u16),
    Ipv6(Seq<u8>, u16),
    Domain(Seq<char>, u16),
}

impl View for Address {
    type V = AddressView;

    open spec fn view(&self) -> AddressView {
        match self {
            Address::Ipv4 { ip, port } => AddressView::Ipv4(ip@, *port),
            Address::Ipv6 { ip, port } => AddressView::Ipv6(ip@, *port),
            Address::Domain { name, port } => AddressView::Domain(name@, *port),
        }
    }
}

/// An address that can be put on the wire: four or sixteen address bytes, or a
/// name of 1 to 255 UTF-8 bytes.
pub open spec fn address_wf(a: AddressView) -> bool {
    match a {
        AddressView::Ipv4(ip, _) => ip.len() == 4,
        AddressView::Ipv6(ip, _) => ip.len() == 16,
        AddressView::Domain(name, _) => 1 <= encode_utf8(name).len() <= 255,
    }
}

/// The wire form: type tag, address bytes (a name with its length first), port.
pub open spec fn address_bytes(a: AddressView) -> Seq<u8> {
    match a {
        AddressView::Ipv4(ip, port) => seq![SOCKS_ATYP_IPV4] + ip + u16_bytes(port),
        AddressView::Ipv6(ip, port) => seq![SOCKS_ATYP_IPV6] + ip + u16_bytes(port),
        AddressView::Domain(name, port) => seq![SOCKS_ATYP_DOMAINNAME, encode_utf8(name).len() as u8]
            + encode_utf8(name) + u16_bytes(port),
    }
}

/// Reads an address from the front of `s`: the address and the number of
/// bytes it took, `Incomplete` if `s` ends too early, or `MalformedAddress`.
pub open spec fn parse_address(s: Seq<u8>) -> Result<(AddressView, int), Socks6Error> {
    if s.len() < 1 {
        Err(Socks6Error::Incomplete)
    } else if s[0] == SOCKS_ATYP_IPV4 {
        if s.len() < 7 {
            Err(Socks6Error::Incomplete)
        } else {
            Ok((AddressView::Ipv4(s.subrange(1, 5), be16(s[5], s[6])), 7))
        }
    } else if s[0] == SOCKS_ATYP_IPV6 {
        if s.len() < 19 {
            Err(Socks6Error::Incomplete)
        } else {
            Ok((AddressView::Ipv6(s.subrange(1, 17), be16(s[17], s[18])), 19))
        }
    } else if s[0] == SOCKS_ATYP_DOMAINNAME {
        if s.len() < 2 {
            Err(Socks6Error::Incomplete)
        } else if s[1] == 0 {
            Err(Socks6Error::MalformedAddress)
        } else if s.len() < s[1] + 4 {
            Err(Socks6Error::Incomplete)
        } else if !valid_utf8(s.subrange(2, s[1] + 2)) {
            Err(Socks6Error::MalformedAddress)
        } else {
            let n = s[1] as int;
            Ok((AddressView::Domain(decode_utf8(s.subrange(2, n + 2)), be16(s[n + 2], s[n + 3])), n + 4))
        }
    } else {
        Err(Socks6Error::MalformedAddress)
    }
}

/// Decoding the encoding of a valid address gives the address back, whatever
/// follows it.
pub proof fn lemma_address_round_trip(a: AddressView, rest: Seq<u8>)
    requires
        address_wf(a),
    ensures
        parse_address(address_bytes(a) + rest) == Ok::<(AddressView, int), Socks6Error>(
            (a, address_bytes(a).len() as int),
        ),
{
    let s = address_bytes(a) + rest;
    match a {
        AddressView::Ipv4(ip, port) => {
            assert(s.subrange(1, 5) =~= ip);
        },
        AddressView::Ipv6(ip, port) => {
            assert(s.subrange(1, 17) =~= ip);
        },
        AddressView::Domain(name, port) => {
            let b = encode_utf8(name);
            assert(s.subrange(2, b.len() as int + 2) =~= b);
        },
    }
}

impl Address {
    pub closed spec fn wf(&self) -> bool {
        address_wf(self@)
    }

    /// The port of any kind of address.
    pub fn port(&self) -> (r: u16)
        ensures
            r == match self@ {
                AddressView::Ipv4(_, p) => p,
                AddressView::Ipv6(_, p) => p,
                AddressView::Domain(_, p) => p,
            },
    {
        match self {
            Address::Ipv4 { port, .. } => *port,
            Address::Ipv6 { port, .. } => *port,
            Address::Domain { port, .. } => *port,
        }
    }

    /// Encodes the address in its wire form.
    pub fn as_socks_bytes(&self) -> (r: Vec<u8>)
        requires
            address_wf(self@),
        ensures
            r@ == address_bytes(self@),
    {
        let mut out: Vec<u8> = Vec::new();
        match self {
            Address::Ipv4 { ip, port } => {
                out.push(SOCKS_ATYP_IPV4);
                push_all(&mut out, ip.as_slice());
                push_u16(&mut out, *port);
            },
            Address::Ipv6 { ip, port } => {
                out.push(SOCKS_ATYP_IPV6);
                push_all(&mut out, ip.as_slice());
                push_u16(&mut out, *port);
            },
            Address::Domain { name, port } => {
                let b = string_bytes(name);
                out.push(SOCKS_ATYP_DOMAINNAME);
                out.push(b.len() as u8);
                push_all(&mut out, b.as_slice());
                push_u16(&mut out, *port);
            },
        }
        assert(out@ =~= address_bytes(self@));
        out
    }
}

/// Reads an address from `buf` starting at `pos`; on success also returns the
/// position just after it.
pub fn read_address(buf: &[u8], pos: usize) -> (r: Result<(Address, usize), Socks6Error>)
    requires
        pos <= buf@.len(),
    ensures
        match (r, parse_address(buf@.subrange(pos as int, buf@.len() as int))) {
            (Ok((a, end)), Ok((v, n))) => a@ == v && end == pos + n && address_wf(a@),
            (Err(e), Err(f)) => e == f,
            _ => false,
        },
{
    let ghost s = buf@.subrange(pos as int, buf@.len() as int);
    if pos >= buf.len() {
        return Err(Socks6Error::Incomplete);
    }
    let tag = buf[pos];
    let avail = buf.len() - pos;
    if tag == SOCKS_ATYP_IPV4 {
        if avail < 7 {
            return Err(Socks6Error::Incomplete);
        }
        let ip = copy_range(buf, pos + 1, pos + 5);
        let port = read_u16(buf, pos + 5);
        assert(ip@ =~= s.subrange(1, 5));
        Ok((Address::Ipv4 { ip, port }, pos + 7))
    } else if tag == SOCKS_ATYP_IPV6 {
        if avail < 19 {
            return Err(Socks6Error::Incomplete);
        }
        let ip = copy_range(buf, pos + 1, pos + 17);
        let port = read_u16(buf, pos + 17);
        assert(ip@ =~= s.subrange(1, 17));
        Ok((Address::Ipv6 { ip, port }, pos + 19))
    } else if tag == SOCKS_ATYP_DOMAINNAME {
        if avail < 2 {
            return Err(Socks6Error::Incomplete);
        }
        let n = buf[pos + 1] as usize;
        if n == 0 {
            return Err(Socks6Error::MalformedAddress);
        }
        if avail < n + 4 {
            return Err(Socks6Error::Incomplete);
        }
        let raw = copy_range(buf, pos + 2, pos + 2 + n);
        assert(raw@ =~= s.subrange(2, n + 2));
        match string_from_utf8(raw) {
            None => Err(Socks6Error::MalformedAddress),
            Some(name) => {
                let port = read_u16(buf, pos + 2 + n);
                proof {
                    vstd::utf8::decode_utf8_encode_utf8(s.subrange(2, n + 2));
                }
                Ok((Address::Domain { name, port }, pos + n + 4))
            },
        }
    } else {
        Err(Socks6Error::MalformedAddress)
    }
}

pub const DOT: u8 = 46;

/// One to three decimal digits worth at most 255.
pub open spec fn octet(s: Seq<u8>) -> Option<u8> {
    if 1 <= s.len() <= 3 && all_digits(s) && digits_value(s) <= 255 {
        Some(digits_value(s) as u8)
    } else {
        None
    }
}

/// `n` octets separated by dots.
pub open spec fn dotted_octets(s: Seq<u8>, n: nat) -> Option<Seq<u8>>
    decreases n,
{
    if n <= 1 {
        match octet(s) {
            Some(x) => Some(seq![x]),
            None => None,
        }
    } else {
        match find_first(s, DOT) {
            None => None,
            Some(i) => match (octet(s.subrange(0, i)), dotted_octets(s.subrange(i + 1, s.len() as int), (n - 1) as nat)) {
                (Some(x), Some(rest)) => Some(seq![x] + rest),
                _ => None,
            },
        }
    }
}

/// The address a host text names: IPv4 when it is a dotted quad, else a
/// domain name.
pub open spec fn address_of_host(host: Seq<char>, port: u16) -> AddressView {
    match dotted_octets(encode_utf8(host), 4) {
        Some(ip) => AddressView::Ipv4(ip, port),
        None => AddressView::Domain(host, port),
    }
}

fn read_octet(b: &[u8], start: usize, end: usize) -> (r: Option<u8>)
    requires
        start <= end <= b@.len(),
    ensures
        r == octet(b@.subrange(start as int, end as int)),
{
    if end - start < 1 || end - start > 3 {
        return None;
    }
    match parse_decimal(b, start, end, 255) {
        None => None,
        Some(v) => Some(v as u8),
    }
}

fn read_dotted(b: &[u8], start: usize, end: usize, n: usize) -> (r: Option<Vec<u8>>)
    requires
        start <= end <= b@.len(),
    ensures
        match dotted_octets(b@.subrange(start as int, end as int), n as nat) {
            Some(v) => r matches Some(x) && x@ == v,
            None => r is None,
        },
    decreases n,
{
    let ghost s = b@.subrange(start as int, end as int);
    if n <= 1 {
        return match read_octet(b, start, end) {
            Some(x) => {
                let v = vec![x];
                assert(v@ =~= seq![x]);
                Some(v)
            },
            None => None,
        };
    }
    match index_of(b, start, end, DOT) {
        None => None,
        Some(i) => {
            assert(s.subrange(0, i as int) =~= b@.subrange(start as int, start + i));
            assert(s.subrange(i + 1, s.len() as int) =~= b@.subrange(start + i + 1, end as int));
            let first = read_octet(b, start, start + i);
            let rest = read_dotted(b, start + i + 1, end, n - 1);
            match (first, rest) {
                (Some(x), Some(r)) => {
                    let mut v = vec![x];
                    let mut r = r;
                    let ghost rv = r@;
                    v.append(&mut r);
                    assert(v@ =~= seq![x] + rv);
                    Some(v)
                },
                _ => None,
            }
        },
    }
}

fn bytes_equal(a: &[u8], b: &[u8]) -> (r: bool)
    ensures
        r == (a@ == b@),
{
    if a.len() != b.len() {
        return false;
    }
    let mut i: usize = 0;
    while i < a.len()
        invariant
            i <= a@.len() == b@.len(),
            forall|j: int| 0 <= j < i ==> a@[j] == b@[j],
        decreases a@.len() - i,
    {
        if a[i] != b[i] {
            return false;
        }
        i += 1;
    }
    assert(a@ =~= b@);
    true
}

impl Address {
    /// Whether the address can be put on the wire.
    pub fn is_sendable(&self) -> (r: bool)
        ensures
            r == address_wf(self@),
    {
        match self {
            Address::Ipv4 { ip, .. } => ip.len() == 4,
            Address::Ipv6 { ip, .. } => ip.len() == 16,
            Address::Domain { name, .. } => {
                let n = string_bytes(name).len();
                1 <= n && n <= 255
            },
        }
    }

    /// The address named by `host`: IPv4 for a dotted quad such as
    /// `192.168.1.1`, otherwise a domain name.
    pub fn new(host: &str, port: u16) -> (r: Address)
        ensures
            r@ == address_of_host(host@, port),
    {
        let b = host.as_bytes_vec();
        assert(b@.subrange(0, b@.len() as int) =~= b@);
        match read_dotted(b.as_slice(), 0, b.len(), 4) {
            Some(ip) => Address::Ipv4 { ip, port },
            None => Address::Domain { name: host.to_owned(), port },
        }
    }
}

impl PartialEq for Address {
    fn eq(&self, other: &Address) -> (r: bool)
        ensures
            r == (self@ == other@),
    {
        match (self, other) {
            (Address::Ipv4 { ip: a, port: p }, Address::Ipv4 { ip: b, port: q }) => *p == *q && bytes_equal(
                a.as_slice(),
                b.as_slice(),
            ),
            (Address::Ipv6 { ip: a, port: p }, Address::Ipv6 { ip: b, port: q }) => *p == *q && bytes_equal(
                a.as_slice(),
                b.as_slice(),
            ),
            (Address::Domain { name: a, port: p }, Address::Domain { name: b, port: q }) => {
                let x = string_bytes(a);
                let y = string_bytes(b);
                proof {
                    assert(decode_utf8(encode_utf8(a@)) == a@);
                    assert(decode_utf8(encode_utf8(b@)) == b@);
                }
                *p == *q && bytes_equal(x.as_slice(), y.as_slice())
            },
            _ => false,
        }
    }
}

impl vstd::std_specs::cmp::PartialEqSpecImpl for Address {
    open spec fn obeys_eq_spec() -> bool {
        true
    }

    open spec fn eq_spec(&self, other: &Address) -> bool {
        self@ == other@
    }
}

} // verus!

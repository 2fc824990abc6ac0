use std::collections::HashMap;
use vstd::prelude::*;

use crate::address::{address_bytes, address_wf, parse_address, read_address, Address, AddressView};
use crate::bytes::{push_all, push_u16, u16_bytes};
use crate::constants::{SOCKS_CMD_CONNECT, SOCKS_PADDING, SOCKS_VER_6};
use crate::error::Socks6Error;
use crate::options::{
    option_bytes, option_wf, options_bytes, options_view, parse_options, read_options, OptionView,
    SocksOption,
};

verus! {

broadcast use vstd::std_specs::hash::group_hash_axioms;

/// Authentication methods.
#[derive(Clone, Copy, Debug, PartialEq, Eq, Structural)]
pub enum AuthMethod {
    NoAuthentication,
    Gssapi,
    UsernamePassword,
    NoAcceptableMethods,
}

impl AuthMethod {
    pub open spec fn spec_code(self) -> u8 {
        match self {
            AuthMethod::NoAuthentication => 0x00,
            AuthMethod::Gssapi => 0x01,
            AuthMethod::UsernamePassword => 0x02,
            AuthMethod::NoAcceptableMethods => 0xFF,
        }
    }

    /// The method's byte on the wire.
    pub fn code(&self) -> (r: u8)
        ensures
            r == self.spec_code(),
    {
        match self {
            AuthMethod::NoAuthentication => 0x00,
            AuthMethod::Gssapi => 0x01,
            AuthMethod::UsernamePassword => 0x02,
            AuthMethod::NoAcceptableMethods => 0xFF,
        }
    }

    /// The method with the given byte, if there is one.
    pub fn from_u8(v: u8) -> (r: Option<AuthMethod>)
        ensures
            r is Some <==> (v <= 2 || v == 0xFF),
            r matches Some(m) ==> m.spec_code() == v,
    {
        if v == 0 {
            Some(AuthMethod::NoAuthentication)
        } else if v == 1 {
            Some(AuthMethod::Gssapi)
        } else if v == 2 {
            Some(AuthMethod::UsernamePassword)
        } else if v == 0xFF {
            Some(AuthMethod::NoAcceptableMethods)
        } else {
            None
        }
    }
}

/// Command types.
#[derive(Clone, Copy, Debug, PartialEq, Eq, Structural)]
pub enum Socks6Command {
    NoOp,
    Connect,
    Bind,
    UdpAssociate,
}

impl Socks6Command {
    pub open spec fn spec_code(self) -> u8 {
        match self {
            Socks6Command::NoOp => 0,
            Socks6Command::Connect => 1,
            Socks6Command::Bind => 2,
            Socks6Command::UdpAssociate => 3,
        }
    }

    /// The command's byte on the wire.
    pub fn code(&self) -> (r: u8)
        ensures
            r == self.spec_code(),
    {
        match self {
            Socks6Command::NoOp => 0,
            Socks6Command::Connect => 1,
            Socks6Command::Bind => 2,
            Socks6Command::UdpAssociate => 3,
        }
    }

    /// The command with the given byte, if there is one.
    pub fn from_u8(v: u8) -> (r: Option<Socks6Command>)
        ensures
            r is Some <==> v <= 3,
            r matches Some(c) ==> c.spec_code() == v,
    {
        if v == 0 {
            Some(Socks6Command::NoOp)
        } else if v == 1 {
            Some(Socks6Command::Connect)
        } else if v == 2 {
            Some(Socks6Command::Bind)
        } else if v == 3 {
            Some(Socks6Command::UdpAssociate)
        } else {
            None
        }
    }
}

/// A SOCKS6 request.
#[derive(Clone, Debug)]
pub struct Socks6Request {
    pub command: Socks6Command,
    pub destination: Address,
    pub initial_data_length: u16,
    pub options: Vec<SocksOption>,
    /// Every metadata option of `options`, by key; the last one of a key wins.
    pub metadata: HashMap<u16, String>,
}

/// The mathematical value of a `Socks6Request`.
pub struct RequestView {
    pub command: Socks6Command,
    pub destination: AddressView,
    pub initial_data_length: u16,
    pub options: Seq<OptionView>,
    pub metadata: Map<u16, Seq<char>>,
}

/// A map of strings seen as a map of character sequences.
pub open spec fn metadata_view(m: Map<u16, String>) -> Map<u16, Seq<char>> {
    m.map_values(|s: String| s@)
}

impl View for Socks6Request {
    type V = RequestView;

    open spec fn view(&self) -> RequestView {
        RequestView {
            command: self.command,
            destination: self.destination@,
            initial_data_length: self.initial_data_length,
            options: options_view(self.options@),
            metadata: metadata_view(self.metadata@),
        }
    }
}

/// The metadata options of a list, by key, a later one replacing an earlier one.
pub open spec fn metadata_of(os: Seq<OptionView>) -> Map<u16, Seq<char>>
    decreases os.len(),
{
    if os.len() == 0 {
        Map::empty()
    } else {
        let m = metadata_of(os.drop_last());
        match os.last() {
            OptionView::Metadata(k, v) => m.insert(k, v),
            _ => m,
        }
    }
}

/// The initial-data length of the first advertisement in a list, or zero.
pub open spec fn advertised_length(os: Seq<OptionView>) -> u16
    decreases os.len(),
{
    if os.len() == 0 {
        0
    } else {
        match os[0] {
            OptionView::Advertisement(len, _) => len,
            _ => advertised_length(os.drop_first()),
        }
    }
}

/// Reads a request from the front of `s`: the request and the bytes it took.
pub open spec fn parse_request(s: Seq<u8>) -> Result<(RequestView, int), Socks6Error> {
    if s.len() < 1 {
        Err(Socks6Error::Incomplete)
    } else if s[0] != SOCKS_VER_6 {
        Err(Socks6Error::VersionMismatch)
    } else if s.len() < 2 {
        Err(Socks6Error::Incomplete)
    } else if s[1] != SOCKS_CMD_CONNECT {
        Err(Socks6Error::UnsupportedCommand)
    } else {
        match parse_address(s.subrange(2, s.len() as int)) {
            Err(e) => Err(e),
            Ok((dst, n)) => if s.len() < 3 + n {
                Err(Socks6Error::Incomplete)
            } else {
                match parse_options(s.subrange(3 + n, s.len() as int)) {
                    Err(e) => Err(e),
                    Ok((os, m)) => Ok(
                        (
                            RequestView {
                                command: Socks6Command::Connect,
                                destination: dst,
                                initial_data_length: advertised_length(os),
                                options: os,
                                metadata: metadata_of(os),
                            },
                            3 + n + m,
                        ),
                    ),
                }
            },
        }
    }
}

/// The wire form of a request: version, command, destination, padding, options.
pub open spec fn request_bytes(r: RequestView) -> Seq<u8> {
    let ob = options_bytes(r.options);
    seq![SOCKS_VER_6, r.command.spec_code()] + address_bytes(r.destination) + seq![SOCKS_PADDING]
        + u16_bytes(ob.len() as u16) + ob
}

/// A request that can be put on the wire.
pub open spec fn request_wf(r: RequestView) -> bool {
    &&& address_wf(r.destination)
    &&& forall|i: int| 0 <= i < r.options.len() ==> option_wf(#[trigger] r.options[i])
    &&& options_bytes(r.options).len() <= 65535
}

/// The metadata map of a list of options, as a `HashMap`.
pub fn collect_metadata(options: &Vec<SocksOption>) -> (r: HashMap<u16, String>)
    ensures
        metadata_view(r@) == metadata_of(options_view(options@)),
{
    let mut m: HashMap<u16, String> = HashMap::new();
    let mut i: usize = 0;
    while i < options.len()
        invariant
            i <= options@.len(),
            metadata_view(m@) == metadata_of(options_view(options@.subrange(0, i as int))),
        decreases options@.len() - i,
    {
        let ghost before = options_view(options@.subrange(0, i as int));
        let ghost after = options_view(options@.subrange(0, i + 1));
        assert(after.drop_last() =~= before);
        match &options[i] {
            SocksOption::Metadata { key, value } => {
                let ghost old_m = m@;
                m.insert(*key, value.clone());
                assert(metadata_view(m@) =~= metadata_view(old_m).insert(*key, value@));
            },
            _ => {},
        }
        i += 1;
    }
    assert(options@.subrange(0, i as int) =~= options@);
    m
}

/// The initial-data length of the first advertisement in a list, or zero.
pub fn find_advertised_length(options: &Vec<SocksOption>) -> (r: u16)
    ensures
        r == advertised_length(options_view(options@)),
{
    let mut i: usize = 0;
    assert(options@.subrange(0, options@.len() as int) =~= options@);
    while i < options.len()
        invariant
            i <= options@.len(),
            advertised_length(options_view(options@)) == advertised_length(
                options_view(options@.subrange(i as int, options@.len() as int)),
            ),
        decreases options@.len() - i,
    {
        let ghost rest = options_view(options@.subrange(i as int, options@.len() as int));
        assert(rest[0] == options@[i as int]@);
        assert(rest.drop_first() =~= options_view(options@.subrange(i + 1, options@.len() as int)));
        if let SocksOption::AuthMethodAdvertisement { initial_data_length, .. } = &options[i] {
            return *initial_data_length;
        }
        i += 1;
    }
    0
}

/// Encodes a list of options one after the other.
pub fn encode_options(options: &Vec<SocksOption>) -> (r: Vec<u8>)
    requires
        forall|i: int| 0 <= i < options@.len() ==> option_wf(#[trigger] options@[i]@),
    ensures
        r@ == options_bytes(options_view(options@)),
{
    let mut out: Vec<u8> = Vec::new();
    let mut i: usize = 0;
    while i < options.len()
        invariant
            i <= options@.len(),
            forall|j: int| 0 <= j < options@.len() ==> option_wf(#[trigger] options@[j]@),
            out@ == options_bytes(options_view(options@.subrange(0, i as int))),
        decreases options@.len() - i,
    {
        let b = options[i].as_socks_bytes();
        push_all(&mut out, b.as_slice());
        let ghost next = options_view(options@.subrange(0, i + 1));
        assert(next.drop_last() =~= options_view(options@.subrange(0, i as int)));
        i += 1;
    }
    assert(options@.subrange(0, i as int) =~= options@);
    out
}

impl Socks6Request {
    /// Builds a request; without a metadata map it starts empty.
    pub fn new(
        command: u8,
        destination: Address,
        initial_data_length: u16,
        options: Vec<SocksOption>,
        metadata: Option<HashMap<u16, String>>,
    ) -> (r: Socks6Request)
        requires
            command <= 3,
        ensures
            r.command.spec_code() == command,
            r.destination@ == destination@,
            r.initial_data_length == initial_data_length,
            r.options@ == options@,
            r.metadata@ == match metadata {
                Some(m) => m@,
                None => Map::<u16, String>::empty(),
            },
    {
        let command = match Socks6Command::from_u8(command) {
            Some(c) => c,
            None => Socks6Command::NoOp,
        };
        let metadata = match metadata {
            Some(m) => m,
            None => HashMap::new(),
        };
        Socks6Request { command, destination, initial_data_length, options, metadata }
    }

    /// Encodes the request: version, command, destination, padding, options.
    pub fn into_socks_bytes(self) -> (r: Vec<u8>)
        requires
            request_wf(self@),
        ensures
            r@ == request_bytes(self@),
    {
        let mut data: Vec<u8> = Vec::new();
        data.push(SOCKS_VER_6);
        data.push(self.command.code());
        let a = self.destination.as_socks_bytes();
        push_all(&mut data, a.as_slice());
        data.push(SOCKS_PADDING);
        assert forall|i: int| 0 <= i < self.options@.len() implies option_wf(
            #[trigger] self.options@[i]@,
        ) by {
            assert(self@.options[i] == self.options@[i]@);
        }
        let ob = encode_options(&self.options);
        push_u16(&mut data, ob.len() as u16);
        push_all(&mut data, ob.as_slice());
        assert(data@ =~= request_bytes(self@));
        data
    }
}

/// Reads a request from the front of `buf`; on success also returns the
/// number of bytes it took (what follows is initial data).
pub fn read_request(buf: &[u8]) -> (r: Result<(Socks6Request, usize), Socks6Error>)
    ensures
        match (r, parse_request(buf@)) {
            (Ok((q, n)), Ok((v, m))) => q@ == v && n == m,
            (Err(e), Err(f)) => e == f,
            _ => false,
        },
{
    let ghost s = buf@;
    if buf.len() < 1 {
        return Err(Socks6Error::Incomplete);
    }
    if buf[0] != SOCKS_VER_6 {
        return Err(Socks6Error::VersionMismatch);
    }
    if buf.len() < 2 {
        return Err(Socks6Error::Incomplete);
    }
    if buf[1] != SOCKS_CMD_CONNECT {
        return Err(Socks6Error::UnsupportedCommand);
    }
    let (destination, pos) = match read_address(buf, 2) {
        Err(e) => {
            return Err(e);
        },
        Ok(x) => x,
    };
    if buf.len() < pos + 1 {
        return Err(Socks6Error::Incomplete);
    }
    let (options, end) = match read_options(buf, pos + 1) {
        Err(e) => {
            return Err(e);
        },
        Ok(x) => x,
    };
    let initial_data_length = find_advertised_length(&options);
    let metadata = collect_metadata(&options);
    let request = Socks6Request {
        command: Socks6Command::Connect,
        destination,
        initial_data_length,
        options,
        metadata,
    };
    Ok((request, end))
}

/// Reading a request is a function of its bytes: two readings of the same
/// bytes give the same request, metadata map included.
pub proof fn lemma_request_deterministic(s1: Seq<u8>, s2: Seq<u8>)
    requires
        s1 == s2,
        parse_request(s1) is Ok,
    ensures
        parse_request(s2) is Ok,
        parse_request(s1)->Ok_0.0.metadata == parse_request(s2)->Ok_0.0.metadata,
        parse_request(s1)->Ok_0.0.metadata == metadata_of(parse_request(s1)->Ok_0.0.options),
{
}

} // verus!

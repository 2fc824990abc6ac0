use vstd::prelude::*;

use crate::chain::{forward_options, links_view, resolve_chain, ChainView, ProxyAddress, ProxyView, MAX_CHAIN_LEN};
use crate::constants::SOCKS_VER_6;
use crate::error::Socks6Error;
use crate::options::{options_view, OptionView, SocksOption};
use crate::reply::{write_no_authentication, write_reply, Socks6Reply};
use crate::request::Socks6Request;

verus! {

/// Where a handler sends a request next.
#[derive(Debug)]
pub enum NextHop {
    /// Dial the request's destination itself.
    Direct,
    /// Connect through `proxy`, adding `options` (the chain carried on) to
    /// the request.
    Forward { proxy: ProxyAddress, options: Vec<SocksOption> },
}

/// The mathematical value of a `NextHop`.
pub enum NextHopView {
    Direct,
    Forward(ProxyView, Seq<OptionView>),
}

impl View for NextHop {
    type V = NextHopView;

    open spec fn view(&self) -> NextHopView {
        match self {
            NextHop::Direct => NextHopView::Direct,
            NextHop::Forward { proxy, options } => NextHopView::Forward(proxy@, options_view(options@)),
        }
    }
}

/// The hop decision: direct when there is no chain or it is exhausted, else
/// the link at the index, with the chain carried on in metadata.
pub open spec fn next_hop_of(md: Map<u16, Seq<char>>, extra: Seq<ProxyView>) -> Result<NextHopView, Socks6Error> {
    match resolve_chain(md, extra) {
        Err(e) => Err(e),
        Ok(None) => Ok(NextHopView::Direct),
        Ok(Some(c)) => if c.index >= c.links.len() {
            Ok(NextHopView::Direct)
        } else if c.links.len() > MAX_CHAIN_LEN {
            Err(Socks6Error::ChainConfigInvalid)
        } else {
            Ok(NextHopView::Forward(c.links[c.index], forward_options(c)))
        },
    }
}

/// Serves SOCKS6 requests, detouring each through its static links.
#[derive(Debug)]
pub struct Socks6Handler {
    pub static_links: Vec<ProxyAddress>,
}

impl Socks6Handler {
    /// A handler without static links.
    pub fn new() -> (r: Socks6Handler)
        ensures
            r.static_links@.len() == 0,
    {
        Socks6Handler { static_links: Vec::new() }
    }

    /// A handler that detours every request through `static_links`.
    pub fn with_detour(static_links: Vec<ProxyAddress>) -> (r: Socks6Handler)
        ensures
            r.static_links@ == static_links@,
    {
        Socks6Handler { static_links }
    }

    /// Decides where `request` goes next.
    pub fn next_hop(&self, request: &Socks6Request) -> (r: Result<NextHop, Socks6Error>)
        ensures
            match (r, next_hop_of(request@.metadata, links_view(self.static_links@))) {
                (Ok(h), Ok(v)) => h@ == v,
                (Err(e), Err(f)) => e == f,
                _ => false,
            },
    {
        match request.chain(self.static_links.as_slice()) {
            Err(e) => Err(e),
            Ok(None) => Ok(NextHop::Direct),
            Ok(Some(chain)) => {
                if chain.index >= chain.links.len() {
                    Ok(NextHop::Direct)
                } else if chain.links.len() > MAX_CHAIN_LEN as usize {
                    Err(Socks6Error::ChainConfigInvalid)
                } else {
                    let options = chain.as_options();
                    let proxy = chain.links[chain.index].duplicate();
                    assert(proxy@ == chain@.links[chain.index as int]);
                    Ok(NextHop::Forward { proxy, options })
                }
            },
        }
    }
}

/// What a handler writes back when serving a request failed: the version
/// hint for another version, a reply for an unsupported command or a bad
/// chain, nothing otherwise.
pub fn error_response(e: Socks6Error) -> (r: Vec<u8>)
    ensures
        e == Socks6Error::VersionMismatch ==> r@ == seq![SOCKS_VER_6],
        e == Socks6Error::UnsupportedCommand ==> r@ == crate::reply::reply_bytes(Socks6Reply::CommandNotSupported),
        e == Socks6Error::ChainConfigInvalid ==> r@ == crate::reply::reply_bytes(Socks6Reply::GeneralFailure),
        e != Socks6Error::VersionMismatch && e != Socks6Error::UnsupportedCommand && e
            != Socks6Error::ChainConfigInvalid ==> r@.len() == 0,
{
    match e {
        Socks6Error::VersionMismatch => {
            let r = vec![SOCKS_VER_6];
            assert(r@ =~= seq![SOCKS_VER_6]);
            r
        },
        Socks6Error::UnsupportedCommand => write_reply(Socks6Reply::CommandNotSupported),
        Socks6Error::ChainConfigInvalid => write_reply(Socks6Reply::GeneralFailure),
        _ => Vec::new(),
    }
}

/// What a handler writes once the next hop is connected: authentication
/// success, then a successful operation reply.
pub fn success_response() -> (r: Vec<u8>)
    ensures
        r@ == seq![SOCKS_VER_6, 0u8, 0u8, 0u8] + crate::reply::reply_bytes(Socks6Reply::Success),
{
    let mut r = write_no_authentication();
    let mut b = write_reply(Socks6Reply::Success);
    r.append(&mut b);
    r
}

} // verus!

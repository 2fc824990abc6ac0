use vstd::prelude::*;
use vstd::utf8::*;

use crate::bytes::{copy_range, lemma_ascii_valid_utf8, push_all, string_bytes, string_from_utf8};
use crate::constants::{CHAIN_INDEX_KEY, CHAIN_LENGTH_KEY, CHAIN_LINKS_KEY};
use crate::error::Socks6Error;
use crate::options::{options_view, OptionView, SocksOption};
use crate::request::{metadata_of, metadata_view, Socks6Request};
use std::collections::HashMap;
use crate::text::{all_digits, decimal, digits_value, find_first, find_last, first_at, last_at, index_of, last_index_of, lemma_decimal, parse_decimal, write_decimal};

verus! {

broadcast use {
    encode_utf8_valid_utf8,
    encode_utf8_decode_utf8,
    decode_utf8_encode_utf8,
    valid_utf8_concat,
    vstd::std_specs::hash::group_hash_axioms,
};

/// A username and password for a proxy.
#[derive(Clone, Debug)]
pub struct Credentials {
    pub username: String,
    pub password: String,
}

/// A proxy to go through: host, port and optional credentials.
#[derive(Clone, Debug)]
pub struct ProxyAddress {
    pub host: String,
    pub port: u16,
    pub credentials: Option<Credentials>,
}

/// The mathematical value of a `ProxyAddress`.
pub struct ProxyView {
    pub host: Seq<char>,
    pub port: u16,
    pub credentials: Option<(Seq<char>, Seq<char>)>,
}

impl View for ProxyAddress {
    type V = ProxyView;

    open spec fn view(&self) -> ProxyView {
        ProxyView {
            host: self.host@,
            port: self.port,
            credentials: match self.credentials {
                Some(c) => Some((c.username@, c.password@)),
                None => None,
            },
        }
    }
}

pub const COLON: u8 = 58;
pub const AT: u8 = 64;

/// A username or password: 1 to 255 bytes of UTF-8.
pub open spec fn credential_ok(b: Seq<u8>) -> bool {
    1 <= b.len() <= 255 && valid_utf8(b)
}

/// Reads `host:port`, splitting at the last colon.
pub open spec fn parse_host_port(b: Seq<u8>) -> Option<(Seq<char>, u16)> {
    match find_last(b, COLON) {
        None => None,
        Some(k) => {
            let host = b.subrange(0, k);
            let port = b.subrange(k + 1, b.len() as int);
            if host.len() > 0 && valid_utf8(host) && port.len() > 0 && all_digits(port) && digits_value(port)
                <= 65535 {
                Some((decode_utf8(host), digits_value(port) as u16))
            } else {
                None
            }
        },
    }
}

/// Reads `user:pass@host:port` or `host:port` (given as UTF-8 bytes).
pub open spec fn parse_proxy(b: Seq<u8>) -> Option<ProxyView> {
    match find_first(b, AT) {
        None => match parse_host_port(b) {
            None => None,
            Some((h, p)) => Some(ProxyView { host: h, port: p, credentials: None }),
        },
        Some(i) => {
            let cred = b.subrange(0, i);
            match find_first(cred, COLON) {
                None => None,
                Some(j) => {
                    let user = cred.subrange(0, j);
                    let pass = cred.subrange(j + 1, cred.len() as int);
                    if credential_ok(user) && credential_ok(pass) {
                        match parse_host_port(b.subrange(i + 1, b.len() as int)) {
                            None => None,
                            Some((h, p)) => Some(
                                ProxyView {
                                    host: h,
                                    port: p,
                                    credentials: Some((decode_utf8(user), decode_utf8(pass))),
                                },
                            ),
                        }
                    } else {
                        None
                    }
                },
            }
        },
    }
}

/// The text form of a proxy, as UTF-8 bytes: `user:pass@host:port` or `host:port`.
pub open spec fn proxy_text(p: ProxyView) -> Seq<u8> {
    let tail = encode_utf8(p.host) + seq![COLON] + decimal(p.port as nat);
    match p.credentials {
        Some((u, w)) => encode_utf8(u) + seq![COLON] + encode_utf8(w) + seq![AT] + tail,
        None => tail,
    }
}

/// Turns bytes that are known to be valid UTF-8 into a string.
fn valid_string(b: Vec<u8>) -> (r: String)
    requires
        valid_utf8(b@),
    ensures
        encode_utf8(r@) == b@,
{
    match string_from_utf8(b) {
        Some(s) => s,
        None => String::new(),
    }
}

/// The decimal text of `n`.
pub fn decimal_string(n: u64) -> (r: String)
    ensures
        encode_utf8(r@) == decimal(n as nat),
{
    let mut b: Vec<u8> = Vec::new();
    write_decimal(&mut b, n);
    proof {
        lemma_decimal(n as nat);
        assert(b@ =~= decimal(n as nat));
        lemma_ascii_valid_utf8(b@);
    }
    valid_string(b)
}

impl ProxyAddress {
    /// A copy with the same value.
    pub fn duplicate(&self) -> (r: ProxyAddress)
        ensures
            r@ == self@,
    {
        let credentials = match &self.credentials {
            Some(c) => Some(Credentials { username: c.username.clone(), password: c.password.clone() }),
            None => None,
        };
        ProxyAddress { host: self.host.clone(), port: self.port, credentials }
    }

    /// Parses `user:pass@host:port` or `host:port`.
    pub fn parse(text: &String) -> (r: Result<ProxyAddress, Socks6Error>)
        ensures
            match parse_proxy(encode_utf8(text@)) {
                Some(v) => r matches Ok(p) && p@ == v,
                None => r == Err::<ProxyAddress, Socks6Error>(Socks6Error::ChainConfigInvalid),
            },
    {
        let b = string_bytes(text);
        let n = b.len();
        let bs = b.as_slice();
        assert(bs@.subrange(0, n as int) =~= bs@);
        let (credentials, start) = match index_of(bs, 0, n, AT) {
            None => (None, 0usize),
            Some(i) => {
                assert(bs@.subrange(0, i as int) =~= bs@.subrange(0, i as int).subrange(0, i as int));
                let j = match index_of(bs, 0, i, COLON) {
                    None => {
                        return Err(Socks6Error::ChainConfigInvalid);
                    },
                    Some(j) => j,
                };
                let ghost cred = bs@.subrange(0, i as int);
                if j < 1 || j > 255 || i - j - 1 < 1 || i - j - 1 > 255 {
                    return Err(Socks6Error::ChainConfigInvalid);
                }
                let user = copy_range(bs, 0, j);
                let pass = copy_range(bs, j + 1, i);
                assert(user@ =~= cred.subrange(0, j as int));
                assert(pass@ =~= cred.subrange(j + 1, cred.len() as int));
                let username = match string_from_utf8(user) {
                    None => {
                        return Err(Socks6Error::ChainConfigInvalid);
                    },
                    Some(s) => s,
                };
                let password = match string_from_utf8(pass) {
                    None => {
                        return Err(Socks6Error::ChainConfigInvalid);
                    },
                    Some(s) => s,
                };
                (Some(Credentials { username, password }), i + 1)
            },
        };
        let ghost rest = bs@.subrange(start as int, n as int);
        let k = match last_index_of(bs, start, n, COLON) {
            None => {
                return Err(Socks6Error::ChainConfigInvalid);
            },
            Some(k) => k,
        };
        if k == 0 {
            return Err(Socks6Error::ChainConfigInvalid);
        }
        let port = match parse_decimal(bs, start + k + 1, n, 65535) {
            None => {
                assert(bs@.subrange(start + k + 1, n as int) =~= rest.subrange(k + 1, rest.len() as int));
                return Err(Socks6Error::ChainConfigInvalid);
            },
            Some(v) => v as u16,
        };
        assert(bs@.subrange(start + k + 1, n as int) =~= rest.subrange(k + 1, rest.len() as int));
        let raw = copy_range(bs, start, start + k);
        assert(raw@ =~= rest.subrange(0, k as int));
        let host = match string_from_utf8(raw) {
            None => {
                return Err(Socks6Error::ChainConfigInvalid);
            },
            Some(s) => s,
        };
        Ok(ProxyAddress { host, port, credentials })
    }

    /// The text form: `user:pass@host:port` or `host:port`.
    pub fn to_text(&self) -> (r: String)
        ensures
            encode_utf8(r@) == proxy_text(self@),
    {
        let mut b: Vec<u8> = Vec::new();
        match &self.credentials {
            Some(c) => {
                let u = string_bytes(&c.username);
                let w = string_bytes(&c.password);
                push_all(&mut b, u.as_slice());
                b.push(COLON);
                push_all(&mut b, w.as_slice());
                b.push(AT);
            },
            None => {},
        }
        let h = string_bytes(&self.host);
        push_all(&mut b, h.as_slice());
        b.push(COLON);
        write_decimal(&mut b, self.port as u64);
        proof {
            lemma_proxy_text_valid(self@);
            assert(b@ =~= proxy_text(self@));
        }
        valid_string(b)
    }
}

/// The most links a chain can carry: their keys run from 1000 to 1999.
pub const MAX_CHAIN_LEN: u64 = 1000;

/// An ordered list of proxies and the position of the next one.
#[derive(Clone, Debug)]
pub struct SocksChain {
    pub index: usize,
    pub links: Vec<ProxyAddress>,
}

/// The mathematical value of a `SocksChain`.
pub struct ChainView {
    pub index: int,
    pub links: Seq<ProxyView>,
}

pub open spec fn links_view(v: Seq<ProxyAddress>) -> Seq<ProxyView> {
    v.map_values(|p: ProxyAddress| p@)
}

impl View for SocksChain {
    type V = ChainView;

    open spec fn view(&self) -> ChainView {
        ChainView { index: self.index as int, links: links_view(self.links@) }
    }
}

/// The value of a decimal string, if it is one worth at most `max`.
pub open spec fn decimal_of(s: Seq<char>, max: nat) -> Option<nat> {
    let b = encode_utf8(s);
    if b.len() > 0 && all_digits(b) && digits_value(b) <= max {
        Some(digits_value(b))
    } else {
        None
    }
}

/// The first `n` links stored under keys 1000, 1001, ...
pub open spec fn parse_links(md: Map<u16, Seq<char>>, n: nat) -> Option<Seq<ProxyView>>
    decreases n,
{
    if n == 0 {
        Some(Seq::empty())
    } else {
        match parse_links(md, (n - 1) as nat) {
            None => None,
            Some(ls) => {
                let k = (CHAIN_LINKS_KEY + n - 1) as u16;
                if md.contains_key(k) {
                    match parse_proxy(encode_utf8(md[k])) {
                        Some(p) => Some(ls.push(p)),
                        None => None,
                    }
                } else {
                    None
                }
            },
        }
    }
}

proof fn lemma_parse_links_len(md: Map<u16, Seq<char>>, n: nat)
    requires
        parse_links(md, n) is Some,
    ensures
        parse_links(md, n)->Some_0.len() == n,
    decreases n,
{
    if n > 0 {
        lemma_parse_links_len(md, (n - 1) as nat);
    }
}

proof fn lemma_parse_links_none(md: Map<u16, Seq<char>>, a: nat, b: nat)
    requires
        a <= b,
        parse_links(md, a) is None,
    ensures
        parse_links(md, b) is None,
    decreases b - a,
{
    if a < b {
        lemma_parse_links_none(md, a, (b - 1) as nat);
    }
}

/// The chain that request metadata carries: none (empty) without key 999.
pub open spec fn inbound_chain(md: Map<u16, Seq<char>>) -> Result<ChainView, Socks6Error> {
    if !md.contains_key(CHAIN_LENGTH_KEY) {
        Ok(ChainView { index: 0, links: Seq::empty() })
    } else {
        match decimal_of(md[CHAIN_LENGTH_KEY], MAX_CHAIN_LEN as nat) {
            None => Err(Socks6Error::ChainConfigInvalid),
            Some(len) => if !md.contains_key(CHAIN_INDEX_KEY) {
                Err(Socks6Error::ChainConfigInvalid)
            } else {
                match decimal_of(md[CHAIN_INDEX_KEY], len) {
                    None => Err(Socks6Error::ChainConfigInvalid),
                    Some(index) => match parse_links(md, len) {
                        None => Err(Socks6Error::ChainConfigInvalid),
                        Some(links) => Ok(ChainView { index: index as int, links }),
                    },
                }
            },
        }
    }
}

/// Splices `extra` into the links at the traversal index.
pub open spec fn detour(c: ChainView, extra: Seq<ProxyView>) -> ChainView {
    ChainView {
        index: c.index,
        links: c.links.subrange(0, c.index) + extra + c.links.subrange(c.index, c.links.len() as int),
    }
}

/// The chain for a request: the inbound one, detoured through the static links
/// if there are any; none if it has no links.
pub open spec fn resolve_chain(md: Map<u16, Seq<char>>, extra: Seq<ProxyView>) -> Result<
    Option<ChainView>,
    Socks6Error,
> {
    match inbound_chain(md) {
        Err(e) => Err(e),
        Ok(c) => {
            let d = if extra.len() > 0 {
                detour(c, extra)
            } else {
                c
            };
            if d.links.len() == 0 {
                Ok(None)
            } else {
                Ok(Some(d))
            }
        },
    }
}

/// The metadata options that carry a chain to its next hop: the index moved
/// past that hop, the length, and each link's text.
pub open spec fn forward_options(c: ChainView) -> Seq<OptionView> {
    seq![
        OptionView::Metadata(CHAIN_INDEX_KEY, decode_utf8(decimal((c.index + 1) as nat))),
        OptionView::Metadata(CHAIN_LENGTH_KEY, decode_utf8(decimal(c.links.len()))),
    ] + Seq::new(
        c.links.len(),
        |i: int| OptionView::Metadata((CHAIN_LINKS_KEY + i) as u16, decode_utf8(proxy_text(c.links[i]))),
    )
}

/// The value of a decimal string of at most `max`.
fn read_decimal(s: &String, max: u64) -> (r: Option<u64>)
    ensures
        match decimal_of(s@, max as nat) {
            Some(v) => r == Some(v as u64),
            None => r is None,
        },
{
    let b = string_bytes(s);
    assert(b@.subrange(0, b@.len() as int) =~= b@);
    parse_decimal(b.as_slice(), 0, b.len(), max)
}

impl SocksChain {
    pub open spec fn wf(&self) -> bool {
        self.index <= self.links@.len()
    }

    pub fn new(index: usize, links: Vec<ProxyAddress>) -> (r: SocksChain)
        ensures
            r.index == index,
            r.links@ == links@,
    {
        SocksChain { index, links }
    }

    /// A chain with no links.
    pub fn empty() -> (r: SocksChain)
        ensures
            r@.index == 0,
            r@.links.len() == 0,
    {
        SocksChain { index: 0, links: Vec::new() }
    }

    /// The chain has no hop left: the next one is the destination.
    pub fn is_exhausted(&self) -> (r: bool)
        ensures
            r == (self.index >= self.links@.len()),
    {
        self.index >= self.links.len()
    }

    /// The next hop, if the chain is not exhausted.
    pub fn next_link(&self) -> (r: Option<&ProxyAddress>)
        ensures
            self.index < self.links@.len() ==> r == Some(&self.links@[self.index as int]),
            self.index >= self.links@.len() ==> r is None,
    {
        if self.index < self.links.len() {
            Some(&self.links[self.index])
        } else {
            None
        }
    }

    /// Splices `static_links` in at the traversal index, so that they are the
    /// next hops.
    pub fn detour(&mut self, static_links: &[ProxyAddress])
        requires
            old(self).wf(),
        ensures
            final(self)@ == detour(old(self)@, links_view(static_links@)),
            final(self).wf(),
    {
        let ghost before = self@;
        let mut links: Vec<ProxyAddress> = Vec::new();
        let mut i: usize = 0;
        while i < self.index
            invariant
                self@ == before,
                self.index <= self.links@.len(),
                i <= self.index,
                links_view(links@) == before.links.subrange(0, i as int),
            decreases self.index - i,
        {
            let d = self.links[i].duplicate();
            assert(d@ == before.links[i as int]);
            let ghost prev = links@;
            links.push(d);
            assert(links@ == prev.push(d));
            assert(links_view(links@) =~= links_view(prev).push(d@));
            assert(links_view(links@) =~= before.links.subrange(0, i + 1));
            i += 1;
        }
        let mut j: usize = 0;
        while j < static_links.len()
            invariant
                self@ == before,
                self.index <= self.links@.len(),
                j <= static_links@.len(),
                links_view(links@) == before.links.subrange(0, self.index as int) + links_view(
                    static_links@,
                ).subrange(0, j as int),
            decreases static_links@.len() - j,
        {
            let d = static_links[j].duplicate();
            assert(d@ == links_view(static_links@)[j as int]);
            let ghost prev = links@;
            links.push(d);
            assert(links@ == prev.push(d));
            assert(links_view(links@) =~= links_view(prev).push(d@));
            assert(links_view(links@) =~= before.links.subrange(0, self.index as int) + links_view(
                static_links@,
            ).subrange(0, j + 1));
            j += 1;
        }
        let mut k: usize = self.index;
        while k < self.links.len()
            invariant
                self@ == before,
                self.index <= k <= self.links@.len(),
                links_view(links@) == before.links.subrange(0, self.index as int) + links_view(
                    static_links@,
                ) + before.links.subrange(self.index as int, k as int),
            decreases self.links@.len() - k,
        {
            let d = self.links[k].duplicate();
            assert(d@ == before.links[k as int]);
            let ghost prev = links@;
            links.push(d);
            assert(links@ == prev.push(d));
            assert(links_view(links@) =~= links_view(prev).push(d@));
            assert(links_view(links@) =~= before.links.subrange(0, self.index as int) + links_view(
                static_links@,
            ) + before.links.subrange(self.index as int, k + 1));
            k += 1;
        }
        assert(links_view(static_links@).subrange(0, j as int) =~= links_view(static_links@));
        self.links = links;
        assert(self@.links =~= detour(before, links_view(static_links@)).links);
    }

    /// The metadata options to send to the next hop: index plus one, the
    /// length, and the links.
    pub fn as_options(&self) -> (r: Vec<SocksOption>)
        requires
            self.index < self.links@.len(),
            self.links@.len() <= MAX_CHAIN_LEN,
        ensures
            options_view(r@) == forward_options(self@),
    {
        let mut r: Vec<SocksOption> = Vec::new();
        let a = decimal_string((self.index + 1) as u64);
        r.push(SocksOption::Metadata { key: CHAIN_INDEX_KEY, value: a });
        let b = decimal_string(self.links.len() as u64);
        r.push(SocksOption::Metadata { key: CHAIN_LENGTH_KEY, value: b });
        let ghost target = forward_options(self@);
        let mut i: usize = 0;
        assert(options_view(r@) =~= target.subrange(0, 2));
        while i < self.links.len()
            invariant
                i <= self.links@.len() <= MAX_CHAIN_LEN,
                target == forward_options(self@),
                options_view(r@) == target.subrange(0, i + 2),
            decreases self.links@.len() - i,
        {
            let t = self.links[i].to_text();
            let key = CHAIN_LINKS_KEY + i as u16;
            assert(self@.links[i as int] == self.links@[i as int]@);
            assert(t@ == decode_utf8(proxy_text(self@.links[i as int])));
            assert(target[i + 2] == OptionView::Metadata(key, t@));
            let o = SocksOption::Metadata { key, value: t };
            let ghost prev = r@;
            r.push(o);
            assert(r@ == prev.push(o));
            assert(options_view(r@) =~= options_view(prev).push(o@));
            assert(options_view(r@) =~= target.subrange(0, i + 3));
            i += 1;
        }
        assert(options_view(r@) =~= target);
        r
    }
}

/// The first `length` links stored under keys 1000, 1001, ...
fn read_links(metadata: &HashMap<u16, String>, length: usize) -> (r: Result<Vec<ProxyAddress>, Socks6Error>)
    requires
        length <= MAX_CHAIN_LEN,
    ensures
        match parse_links(metadata_view(metadata@), length as nat) {
            Some(v) => r matches Ok(l) && links_view(l@) == v,
            None => r == Err::<Vec<ProxyAddress>, Socks6Error>(Socks6Error::ChainConfigInvalid),
        },
{
    let ghost md = metadata_view(metadata@);
    let mut links: Vec<ProxyAddress> = Vec::new();
    let mut i: usize = 0;
    while i < length
        invariant
            i <= length <= MAX_CHAIN_LEN,
            md == metadata_view(metadata@),
            parse_links(md, i as nat) == Some(links_view(links@)),
        decreases length - i,
    {
        let key = CHAIN_LINKS_KEY + i as u16;
        assert(key == (CHAIN_LINKS_KEY + (i + 1) - 1) as u16);
        let text = match metadata.get(&key) {
            None => {
                assert(!md.contains_key(key));
                proof {
                    lemma_parse_links_none(md, (i + 1) as nat, length as nat);
                }
                return Err(Socks6Error::ChainConfigInvalid);
            },
            Some(t) => t,
        };
        assert(md.contains_key(key) && md[key] == text@);
        let link = match ProxyAddress::parse(text) {
            Err(e) => {
                proof {
                    lemma_parse_links_none(md, (i + 1) as nat, length as nat);
                }
                return Err(e);
            },
            Ok(p) => p,
        };
        let ghost prev = links@;
        links.push(link);
        assert(links_view(links@) =~= links_view(prev).push(link@));
        i += 1;
    }
    Ok(links)
}

impl Socks6Request {
    /// The chain this request should follow: the one its metadata carries,
    /// with `static_links` spliced in at the traversal index; none when that
    /// leaves no links.
    pub fn chain(&self, static_links: &[ProxyAddress]) -> (r: Result<Option<SocksChain>, Socks6Error>)
        ensures
            match (r, resolve_chain(self@.metadata, links_view(static_links@))) {
                (Ok(Some(c)), Ok(Some(v))) => c@ == v && c.wf(),
                (Ok(None), Ok(None)) => true,
                (Err(e), Err(f)) => e == f,
                _ => false,
            },
    {
        let ghost md = self@.metadata;
        let mut chain = match self.metadata.get(&CHAIN_LENGTH_KEY) {
            None => SocksChain::empty(),
            Some(length) => {
                let length = match read_decimal(length, MAX_CHAIN_LEN) {
                    None => {
                        return Err(Socks6Error::ChainConfigInvalid);
                    },
                    Some(v) => v as usize,
                };
                let index = match self.metadata.get(&CHAIN_INDEX_KEY) {
                    None => {
                        return Err(Socks6Error::ChainConfigInvalid);
                    },
                    Some(s) => match read_decimal(s, length as u64) {
                        None => {
                            return Err(Socks6Error::ChainConfigInvalid);
                        },
                        Some(v) => v as usize,
                    },
                };
                let links = match read_links(&self.metadata, length) {
                    Err(e) => {
                        return Err(e);
                    },
                    Ok(l) => l,
                };
                proof {
                    lemma_parse_links_len(md, length as nat);
                }
                SocksChain::new(index, links)
            },
        };
        if static_links.len() > 0 {
            chain.detour(static_links);
        }
        if chain.links.len() == 0 {
            Ok(None)
        } else {
            Ok(Some(chain))
        }
    }
}

proof fn lemma_metadata_suffix(os: Seq<OptionView>, n: int, k: u16)
    requires
        0 <= n <= os.len(),
        forall|i: int|
            n <= i < os.len() ==> !(#[trigger] os[i] matches OptionView::Metadata(key, _) && key == k),
    ensures
        metadata_of(os).contains_key(k) == metadata_of(os.subrange(0, n)).contains_key(k),
        metadata_of(os).contains_key(k) ==> metadata_of(os)[k] == metadata_of(os.subrange(0, n))[k],
    decreases os.len() - n,
{
    if os.len() > n {
        let last = os.last();
        assert(!(os[os.len() - 1] matches OptionView::Metadata(key, _) && key == k));
        lemma_metadata_suffix(os.drop_last(), n, k);
        assert(os.drop_last().subrange(0, n) =~= os.subrange(0, n));
    } else {
        assert(os.subrange(0, n) =~= os);
    }
}

proof fn lemma_decimal_text(x: nat, max: nat)
    requires
        x <= max,
    ensures
        decimal_of(decode_utf8(decimal(x)), max) == Some(x),
{
    lemma_decimal(x);
    assert forall|i: int| 0 <= i < decimal(x).len() implies decimal(x)[i] < 0x80 by {
        assert(crate::text::is_digit(decimal(x)[i]));
    }
    lemma_ascii_valid_utf8(decimal(x));
}

/// Forwarding a chain to its next hop moves the index on by exactly one and
/// keeps the length: the forwarded metadata reads back as index + 1 and the
/// same length.
pub proof fn lemma_forward_moves_index(c: ChainView)
    requires
        0 <= c.index < c.links.len() <= MAX_CHAIN_LEN,
    ensures
        ({
            let md = metadata_of(forward_options(c));
            &&& md.contains_key(CHAIN_INDEX_KEY)
            &&& md.contains_key(CHAIN_LENGTH_KEY)
            &&& decimal_of(md[CHAIN_LENGTH_KEY], MAX_CHAIN_LEN as nat) == Some(c.links.len())
            &&& decimal_of(md[CHAIN_INDEX_KEY], c.links.len()) == Some((c.index + 1) as nat)
        }),
{
    let os = forward_options(c);
    assert forall|i: int| 2 <= i < os.len() implies !(#[trigger] os[i] matches OptionView::Metadata(key, _)
        && key == CHAIN_INDEX_KEY) by {}
    assert forall|i: int| 2 <= i < os.len() implies !(#[trigger] os[i] matches OptionView::Metadata(key, _)
        && key == CHAIN_LENGTH_KEY) by {}
    lemma_metadata_suffix(os, 2, CHAIN_INDEX_KEY);
    lemma_metadata_suffix(os, 2, CHAIN_LENGTH_KEY);
    let head = os.subrange(0, 2);
    assert(head.drop_last().drop_last() =~= Seq::<OptionView>::empty());
    assert(head.drop_last() =~= seq![os[0]]);
    let m1 = metadata_of(head.drop_last());
    assert(metadata_of(head.drop_last().drop_last()) == Map::<u16, Seq<char>>::empty());
    assert(m1 == Map::<u16, Seq<char>>::empty().insert(CHAIN_INDEX_KEY, decode_utf8(decimal((c.index + 1) as nat))));
    assert(metadata_of(head) == m1.insert(CHAIN_LENGTH_KEY, decode_utf8(decimal(c.links.len()))));
    lemma_decimal_text(c.links.len(), MAX_CHAIN_LEN as nat);
    lemma_decimal_text((c.index + 1) as nat, c.links.len());
}

/// A detour keeps the index, makes the first static link the next hop, and
/// adds the number of static links to the length.
pub proof fn lemma_detour_lengths(c: ChainView, extra: Seq<ProxyView>)
    requires
        0 <= c.index <= c.links.len(),
        extra.len() > 0,
    ensures
        detour(c, extra).index == c.index,
        detour(c, extra).links.len() == c.links.len() + extra.len(),
        detour(c, extra).links[c.index] == extra[0],
{
}

/// A proxy whose text form reads back as itself: a non-empty host, and parts
/// free of the separators that would split them elsewhere.
pub open spec fn proxy_wf(p: ProxyView) -> bool {
    let h = encode_utf8(p.host);
    &&& h.len() > 0
    &&& !h.contains(AT)
    &&& match p.credentials {
        Some((u, w)) => {
            &&& credential_ok(encode_utf8(u))
            &&& credential_ok(encode_utf8(w))
            &&& !encode_utf8(u).contains(AT)
            &&& !encode_utf8(u).contains(COLON)
            &&& !encode_utf8(w).contains(AT)
        },
        None => true,
    }
}

proof fn lemma_first_at(s: Seq<u8>, c: u8, i: int)
    requires
        first_at(s, c, i),
    ensures
        find_first(s, c) == Some(i),
{
    let w = choose|w: int| first_at(s, c, w);
    assert(w == i) by {
        if w < i {
        } else if w > i {
        }
    }
}

proof fn lemma_last_at(s: Seq<u8>, c: u8, i: int)
    requires
        last_at(s, c, i),
    ensures
        find_last(s, c) == Some(i),
{
    let w = choose|w: int| last_at(s, c, w);
    assert(w == i) by {
        if w < i {
        } else if w > i {
        }
    }
}

proof fn lemma_host_port_text(p: ProxyView)
    requires
        encode_utf8(p.host).len() > 0,
    ensures
        parse_host_port(encode_utf8(p.host) + seq![COLON] + decimal(p.port as nat)) == Some((p.host, p.port)),
{
    let h = encode_utf8(p.host);
    let d = decimal(p.port as nat);
    let t = h + seq![COLON] + d;
    lemma_decimal(p.port as nat);
    assert forall|j: int| h.len() < j < t.len() implies t[j] != COLON by {
        assert(t[j] == d[j - h.len() - 1]);
        assert(crate::text::is_digit(d[j - h.len() - 1]));
    }
    lemma_last_at(t, COLON, h.len() as int);
    assert(t.subrange(0, h.len() as int) =~= h);
    assert(t.subrange(h.len() as int + 1, t.len() as int) =~= d);
}

/// The text form of a proxy is valid UTF-8.
pub proof fn lemma_proxy_text_valid(p: ProxyView)
    ensures
        valid_utf8(proxy_text(p)),
{
    lemma_ascii_valid_utf8(seq![COLON]);
    lemma_ascii_valid_utf8(seq![AT]);
    lemma_decimal(p.port as nat);
    assert forall|i: int| 0 <= i < decimal(p.port as nat).len() implies decimal(p.port as nat)[i] < 0x80 by {
        assert(crate::text::is_digit(decimal(p.port as nat)[i]));
    }
    lemma_ascii_valid_utf8(decimal(p.port as nat));
    let t = encode_utf8(p.host) + seq![COLON] + decimal(p.port as nat);
    assert(valid_utf8(encode_utf8(p.host) + seq![COLON]));
    assert(valid_utf8(t));
    match p.credentials {
        Some((u, w)) => {
            let user = encode_utf8(u) + seq![COLON];
            let user_pass = user + encode_utf8(w);
            let head = user_pass + seq![AT];
            assert(valid_utf8(user));
            assert(valid_utf8(user_pass));
            assert(valid_utf8(head));
            assert(valid_utf8(head + t));
        },
        None => {},
    }
}

/// The text form of a well-formed proxy reads back as the same proxy.
pub proof fn lemma_proxy_text_round_trip(p: ProxyView)
    requires
        proxy_wf(p),
    ensures
        parse_proxy(proxy_text(p)) == Some(p),
{
    let h = encode_utf8(p.host);
    let d = decimal(p.port as nat);
    let t = h + seq![COLON] + d;
    lemma_decimal(p.port as nat);
    lemma_host_port_text(p);
    assert forall|j: int| 0 <= j < t.len() implies t[j] != AT by {
        if j < h.len() {
            assert(t[j] == h[j]);
        } else if j > h.len() {
            assert(t[j] == d[j - h.len() - 1]);
            assert(crate::text::is_digit(d[j - h.len() - 1]));
        }
    }
    match p.credentials {
        None => {
            assert(!exists|i: int| first_at(t, AT, i));
        },
        Some((u, w)) => {
            let eu = encode_utf8(u);
            let ew = encode_utf8(w);
            let b = eu + seq![COLON] + ew + seq![AT] + t;
            let i = eu.len() as int + 1 + ew.len() as int;
            assert(b == proxy_text(p));
            assert forall|j: int| 0 <= j < i implies b[j] != AT by {
                if j < eu.len() {
                    assert(b[j] == eu[j]);
                } else if j > eu.len() {
                    assert(b[j] == ew[j - eu.len() - 1]);
                }
            }
            lemma_first_at(b, AT, i);
            let cred = b.subrange(0, i);
            assert(cred =~= eu + seq![COLON] + ew);
            assert forall|j: int| 0 <= j < eu.len() implies cred[j] != COLON by {
                assert(cred[j] == eu[j]);
            }
            lemma_first_at(cred, COLON, eu.len() as int);
            assert(cred.subrange(0, eu.len() as int) =~= eu);
            assert(cred.subrange(eu.len() as int + 1, cred.len() as int) =~= ew);
            assert(b.subrange(i + 1, b.len() as int) =~= t);
        },
    }
}

proof fn lemma_forward_links(c: ChainView, n: nat)
    requires
        0 <= c.index < c.links.len() <= MAX_CHAIN_LEN,
        n <= c.links.len(),
        forall|i: int| 0 <= i < c.links.len() ==> proxy_wf(#[trigger] c.links[i]),
    ensures
        parse_links(metadata_of(forward_options(c)), n) == Some(c.links.subrange(0, n as int)),
    decreases n,
{
    if n == 0 {
        assert(c.links.subrange(0, 0) =~= Seq::<ProxyView>::empty());
    } else {
        lemma_forward_links(c, (n - 1) as nat);
        let os = forward_options(c);
        let md = metadata_of(os);
        let k = (CHAIN_LINKS_KEY + n - 1) as u16;
        let l = c.links[n - 1];
        assert forall|i: int| n + 2 <= i < os.len() implies !(#[trigger] os[i] matches OptionView::Metadata(
            key,
            _,
        ) && key == k) by {}
        lemma_metadata_suffix(os, n as int + 2, k);
        let pre = os.subrange(0, n as int + 2);
        assert(pre.last() == OptionView::Metadata(k, decode_utf8(proxy_text(l))));
        assert(metadata_of(pre) == metadata_of(pre.drop_last()).insert(k, decode_utf8(proxy_text(l))));
        lemma_proxy_text_valid(l);
        lemma_proxy_text_round_trip(l);
        assert(md[k] == decode_utf8(proxy_text(l)));
        assert(encode_utf8(md[k]) == proxy_text(l));
        assert(c.links.subrange(0, n - 1).push(l) =~= c.links.subrange(0, n as int));
    }
}

/// Forwarding a chain to its next hop carries it on unchanged but for the
/// index, which moves on by exactly one: the forwarded metadata reads back as
/// the same links and index + 1.
pub proof fn lemma_forward_chain(c: ChainView)
    requires
        0 <= c.index < c.links.len() <= MAX_CHAIN_LEN,
        forall|i: int| 0 <= i < c.links.len() ==> proxy_wf(#[trigger] c.links[i]),
    ensures
        inbound_chain(metadata_of(forward_options(c))) == Ok::<ChainView, Socks6Error>(
            ChainView { index: c.index + 1, links: c.links },
        ),
{
    lemma_forward_moves_index(c);
    lemma_forward_links(c, c.links.len());
    assert(c.links.subrange(0, c.links.len() as int) =~= c.links);
}

} // verus!

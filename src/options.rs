use vstd::prelude::*;
use vstd::utf8::*;

use crate::bytes::{be16, copy_range, push_all, push_u16, read_u16, string_bytes, string_from_utf8, u16_bytes};
use crate::constants::{SOCKS_OKIND_AUTH_METH_ADV, SOCKS_OKIND_AUTH_METH_SEL, SOCKS_OKIND_METADATA};
use crate::error::Socks6Error;

verus! {

broadcast use {encode_utf8_valid_utf8, encode_utf8_decode_utf8};

/// A SOCKS6 option, typed for the kinds this library knows.
#[derive(Clone, Debug)]
pub enum SocksOption {
    /// The client's initial-data length and the methods it offers.
    AuthMethodAdvertisement { initial_data_length: u16, methods: Vec<u8> },
    /// The method the proxy chose.
    AuthMethodSelection { method: u8 },
    /// A key/value pair carried between cooperating endpoints.
    Metadata { key: u16, value: String },
    /// Any other kind, with its data kept as it came.
    Unrecognized { kind: u16, data: Vec<u8> },
}

/// The mathematical value of a `SocksOption`.
pub enum OptionView {
    Advertisement(u16, Seq<u8>),
    Selection(u8),
    Metadata(u16, Seq<char>),
    Unrecognized(u16, Seq<u8>),
}

impl View for SocksOption {
    type V = OptionView;

    open spec fn view(&self) -> OptionView {
        match self {
            SocksOption::AuthMethodAdvertisement { initial_data_length, methods } => OptionView::Advertisement(
                *initial_data_length,
                methods@,
            ),
            SocksOption::AuthMethodSelection { method } => OptionView::Selection(*method),
            SocksOption::Metadata { key, value } => OptionView::Metadata(*key, value@),
            SocksOption::Unrecognized { kind, data } => OptionView::Unrecognized(*kind, data@),
        }
    }
}

pub open spec fn options_view(v: Seq<SocksOption>) -> Seq<OptionView> {
    v.map_values(|o: SocksOption| o@)
}

/// The kind field of an option.
pub open spec fn option_kind(o: OptionView) -> u16 {
    match o {
        OptionView::Advertisement(_, _) => SOCKS_OKIND_AUTH_METH_ADV,
        OptionView::Selection(_) => SOCKS_OKIND_AUTH_METH_SEL,
        OptionView::Metadata(_, _) => SOCKS_OKIND_METADATA,
        OptionView::Unrecognized(k, _) => k,
    }
}

/// The data bytes of an option, before padding.
pub open spec fn option_data(o: OptionView) -> Seq<u8> {
    match o {
        OptionView::Advertisement(len, methods) => u16_bytes(len) + methods,
        OptionView::Selection(m) => seq![m],
        OptionView::Metadata(key, value) => u16_bytes(key) + encode_utf8(value),
        OptionView::Unrecognized(_, data) => data,
    }
}

/// Header plus `n` data bytes, rounded up to a multiple of four.
pub open spec fn padded_len(n: int) -> int {
    ((n + 7) / 4) * 4
}

/// The largest data length whose padded option length fits in 16 bits.
pub const MAX_OPTION_DATA: usize = 65528;

/// An option whose encoded length fits the 16-bit length field.
pub open spec fn option_wf(o: OptionView) -> bool {
    option_data(o).len() <= MAX_OPTION_DATA
}

/// `n` zero bytes.
pub open spec fn zeros(n: int) -> Seq<u8> {
    Seq::new(n as nat, |i: int| 0u8)
}

/// The wire form: kind, total padded length, data, zero padding.
pub open spec fn option_bytes(o: OptionView) -> Seq<u8> {
    let d = option_data(o);
    let total = padded_len(d.len() as int);
    u16_bytes(option_kind(o)) + u16_bytes(total as u16) + d + zeros(total - 4 - d.len())
}

/// Drops up to `k` trailing zero bytes.
pub open spec fn strip_zeros(s: Seq<u8>, k: nat) -> Seq<u8>
    decreases k,
{
    if k == 0 || s.len() == 0 || s.last() != 0 {
        s
    } else {
        strip_zeros(s.drop_last(), (k - 1) as nat)
    }
}

/// The body of an option without its padding (at most three zero bytes).
pub open spec fn strip_padding(s: Seq<u8>) -> Seq<u8> {
    strip_zeros(s, 3)
}

/// Decodes the body (everything after the 4-byte header) of an option of the
/// given kind.
pub open spec fn decode_option(kind: u16, body: Seq<u8>) -> Result<OptionView, Socks6Error> {
    if kind == SOCKS_OKIND_AUTH_METH_ADV {
        if body.len() < 2 {
            Err(Socks6Error::MalformedOptions)
        } else {
            Ok(OptionView::Advertisement(be16(body[0], body[1]), strip_padding(body.subrange(2, body.len() as int))))
        }
    } else if kind == SOCKS_OKIND_AUTH_METH_SEL {
        if body.len() != 4 {
            Err(Socks6Error::MalformedOptions)
        } else {
            Ok(OptionView::Selection(body[0]))
        }
    } else if kind == SOCKS_OKIND_METADATA {
        if body.len() < 2 {
            Err(Socks6Error::MalformedOptions)
        } else {
            let v = strip_padding(body.subrange(2, body.len() as int));
            if !valid_utf8(v) {
                Err(Socks6Error::MalformedOptions)
            } else {
                Ok(OptionView::Metadata(be16(body[0], body[1]), decode_utf8(v)))
            }
        }
    } else {
        Ok(OptionView::Unrecognized(kind, strip_padding(body)))
    }
}

/// Puts `first` in front of a successful result.
pub open spec fn prepend(
    first: Seq<OptionView>,
    r: Result<Seq<OptionView>, Socks6Error>,
) -> Result<Seq<OptionView>, Socks6Error> {
    match r {
        Ok(rest) => Ok(first + rest),
        Err(e) => Err(e),
    }
}

/// Decodes an options block that fills `s` exactly.
pub open spec fn parse_options_block(s: Seq<u8>) -> Result<Seq<OptionView>, Socks6Error>
    decreases s.len(),
{
    if s.len() == 0 {
        Ok(Seq::empty())
    } else if s.len() < 4 {
        Err(Socks6Error::MalformedOptions)
    } else {
        let len = be16(s[2], s[3]) as int;
        if len < 4 || len % 4 != 0 || len > s.len() {
            Err(Socks6Error::MalformedOptions)
        } else {
            match decode_option(be16(s[0], s[1]), s.subrange(4, len)) {
                Err(e) => Err(e),
                Ok(o) => prepend(seq![o], parse_options_block(s.subrange(len, s.len() as int))),
            }
        }
    }
}

/// Reads a 2-byte block length and then the block: the options and the number
/// of bytes taken.
pub open spec fn parse_options(s: Seq<u8>) -> Result<(Seq<OptionView>, int), Socks6Error> {
    if s.len() < 2 {
        Err(Socks6Error::Incomplete)
    } else {
        let n = be16(s[0], s[1]) as int;
        if s.len() < 2 + n {
            Err(Socks6Error::Incomplete)
        } else {
            match parse_options_block(s.subrange(2, 2 + n)) {
                Ok(os) => Ok((os, 2 + n)),
                Err(e) => Err(e),
            }
        }
    }
}

/// The concatenated wire forms of a list of options.
pub open spec fn options_bytes(os: Seq<OptionView>) -> Seq<u8>
    decreases os.len(),
{
    if os.len() == 0 {
        Seq::empty()
    } else {
        options_bytes(os.drop_last()) + option_bytes(os.last())
    }
}

/// The sum of the encoded lengths of a list of options.
pub open spec fn options_total_len(os: Seq<OptionView>) -> int
    decreases os.len(),
{
    if os.len() == 0 {
        0
    } else {
        option_bytes(os[0]).len() + options_total_len(os.drop_first())
    }
}

impl SocksOption {
    /// An option of any kind with raw data; it is written as it is given.
    pub fn new(kind: u16, data: Vec<u8>) -> (r: SocksOption)
        ensures
            r@ == OptionView::Unrecognized(kind, data@),
    {
        SocksOption::Unrecognized { kind, data }
    }

    /// The kind field.
    pub fn kind(&self) -> (r: u16)
        ensures
            r == option_kind(self@),
    {
        match self {
            SocksOption::AuthMethodAdvertisement { .. } => SOCKS_OKIND_AUTH_METH_ADV,
            SocksOption::AuthMethodSelection { .. } => SOCKS_OKIND_AUTH_METH_SEL,
            SocksOption::Metadata { .. } => SOCKS_OKIND_METADATA,
            SocksOption::Unrecognized { kind, .. } => *kind,
        }
    }

    /// The data bytes, before padding.
    pub fn data(&self) -> (r: Vec<u8>)
        ensures
            r@ == option_data(self@),
    {
        let mut out: Vec<u8> = Vec::new();
        match self {
            SocksOption::AuthMethodAdvertisement { initial_data_length, methods } => {
                push_u16(&mut out, *initial_data_length);
                push_all(&mut out, methods.as_slice());
            },
            SocksOption::AuthMethodSelection { method } => {
                out.push(*method);
            },
            SocksOption::Metadata { key, value } => {
                push_u16(&mut out, *key);
                let b = string_bytes(value);
                push_all(&mut out, b.as_slice());
            },
            SocksOption::Unrecognized { data, .. } => {
                push_all(&mut out, data.as_slice());
            },
        }
        assert(out@ =~= option_data(self@));
        out
    }

    /// Encodes the option: kind, padded total length, data and zero padding.
    pub fn as_socks_bytes(&self) -> (r: Vec<u8>)
        requires
            option_wf(self@),
        ensures
            r@ == option_bytes(self@),
            r@.len() % 4 == 0,
    {
        let data = self.data();
        let n = data.len();
        let total: usize = ((n + 7) / 4) * 4;
        let mut out: Vec<u8> = Vec::new();
        push_u16(&mut out, self.kind());
        push_u16(&mut out, total as u16);
        push_all(&mut out, data.as_slice());
        let ghost head = out@;
        let mut i: usize = 4 + n;
        while i < total
            invariant
                4 + n <= i <= total,
                total == padded_len(n as int),
                out@ == head + zeros(i - 4 - n),
            decreases total - i,
        {
            out.push(0);
            i += 1;
            assert(out@ =~= head + zeros(i - 4 - n));
        }
        assert(out@ =~= option_bytes(self@));
        out
    }
}

/// The end of `buf[start..end]` once its padding is dropped.
fn strip_end(buf: &[u8], start: usize, end: usize) -> (r: usize)
    requires
        start <= end <= buf@.len(),
    ensures
        start <= r <= end,
        buf@.subrange(start as int, r as int) == strip_padding(buf@.subrange(start as int, end as int)),
{
    let mut e: usize = end;
    let mut k: usize = 3;
    while k > 0 && e > start && buf[e - 1] == 0
        invariant
            start <= e <= end <= buf@.len(),
            k <= 3,
            strip_zeros(buf@.subrange(start as int, e as int), k as nat) == strip_padding(
                buf@.subrange(start as int, end as int),
            ),
        decreases k,
    {
        assert(buf@.subrange(start as int, e as int).drop_last() =~= buf@.subrange(start as int, e - 1));
        e -= 1;
        k -= 1;
    }
    e
}

/// Decodes the body `buf[start..end]` of an option of kind `kind`.
pub fn read_option_body(buf: &[u8], kind: u16, start: usize, end: usize) -> (r: Result<SocksOption, Socks6Error>)
    requires
        start <= end <= buf@.len(),
    ensures
        match (r, decode_option(kind, buf@.subrange(start as int, end as int))) {
            (Ok(o), Ok(v)) => o@ == v,
            (Err(e), Err(f)) => e == f,
            _ => false,
        },
{
    let ghost body = buf@.subrange(start as int, end as int);
    if kind == SOCKS_OKIND_AUTH_METH_ADV {
        if end - start < 2 {
            return Err(Socks6Error::MalformedOptions);
        }
        let initial_data_length = read_u16(buf, start);
        let e = strip_end(buf, start + 2, end);
        let methods = copy_range(buf, start + 2, e);
        assert(body.subrange(2, body.len() as int) =~= buf@.subrange(start + 2, end as int));
        Ok(SocksOption::AuthMethodAdvertisement { initial_data_length, methods })
    } else if kind == SOCKS_OKIND_AUTH_METH_SEL {
        if end - start != 4 {
            return Err(Socks6Error::MalformedOptions);
        }
        Ok(SocksOption::AuthMethodSelection { method: buf[start] })
    } else if kind == SOCKS_OKIND_METADATA {
        if end - start < 2 {
            return Err(Socks6Error::MalformedOptions);
        }
        let key = read_u16(buf, start);
        let e = strip_end(buf, start + 2, end);
        let raw = copy_range(buf, start + 2, e);
        assert(body.subrange(2, body.len() as int) =~= buf@.subrange(start + 2, end as int));
        match string_from_utf8(raw) {
            None => Err(Socks6Error::MalformedOptions),
            Some(value) => Ok(SocksOption::Metadata { key, value }),
        }
    } else {
        let e = strip_end(buf, start, end);
        let data = copy_range(buf, start, e);
        Ok(SocksOption::Unrecognized { kind, data })
    }
}

/// Reads a 2-byte block length and the options block after it, from `buf`
/// starting at `pos`; on success also returns the position after the block.
pub fn read_options(buf: &[u8], pos: usize) -> (r: Result<(Vec<SocksOption>, usize), Socks6Error>)
    requires
        pos <= buf@.len(),
    ensures
        match (r, parse_options(buf@.subrange(pos as int, buf@.len() as int))) {
            (Ok((os, end)), Ok((v, n))) => options_view(os@) == v && end == pos + n,
            (Err(e), Err(f)) => e == f,
            _ => false,
        },
{
    let ghost s = buf@.subrange(pos as int, buf@.len() as int);
    if buf.len() - pos < 2 {
        return Err(Socks6Error::Incomplete);
    }
    let n = read_u16(buf, pos) as usize;
    assert(s[0] == buf@[pos as int] && s[1] == buf@[pos + 1]);
    if buf.len() - pos - 2 < n {
        return Err(Socks6Error::Incomplete);
    }
    let start = pos + 2;
    let stop = start + n;
    let ghost block = buf@.subrange(start as int, stop as int);
    assert(block =~= s.subrange(2, 2 + n));
    let mut options: Vec<SocksOption> = Vec::new();
    let mut i: usize = start;
    while i < stop
        invariant
            start <= i <= stop <= buf@.len(),
            block == buf@.subrange(start as int, stop as int),
            pos <= buf@.len(),
            s == buf@.subrange(pos as int, buf@.len() as int),
            s.len() >= 2 + n,
            n == be16(s[0], s[1]),
            block == s.subrange(2, 2 + n),
            parse_options_block(block) == prepend(
                options_view(options@),
                parse_options_block(buf@.subrange(i as int, stop as int)),
            ),
        decreases stop - i,
    {
        let ghost rest = buf@.subrange(i as int, stop as int);
        assert(rest.len() == stop - i);
        if stop - i < 4 {
            return Err(Socks6Error::MalformedOptions);
        }
        let kind = read_u16(buf, i);
        let len = read_u16(buf, i + 2) as usize;
        assert(rest[0] == buf@[i as int] && rest[1] == buf@[i + 1]);
        assert(rest[2] == buf@[i + 2] && rest[3] == buf@[i + 3]);
        if len < 4 || len % 4 != 0 || len > stop - i {
            return Err(Socks6Error::MalformedOptions);
        }
        assert(rest.subrange(4, len as int) =~= buf@.subrange(i + 4, i + len));
        assert(rest.subrange(len as int, rest.len() as int) =~= buf@.subrange(i + len, stop as int));
        let o = read_option_body(buf, kind, i + 4, i + len);
        match o {
            Err(e) => {
                return Err(e);
            },
            Ok(o) => {
                let ghost before = options_view(options@);
                options.push(o);
                assert(options_view(options@) =~= before + seq![o@]);
                assert(before + (seq![o@] + parse_options_block(buf@.subrange(i + len, stop as int))->Ok_0)
                    =~= (before + seq![o@]) + parse_options_block(buf@.subrange(i + len, stop as int))->Ok_0);
            },
        }
        i = i + len;
    }
    assert(buf@.subrange(i as int, stop as int) =~= Seq::<u8>::empty());
    assert(options_view(options@) + Seq::<OptionView>::empty() =~= options_view(options@));
    Ok((options, stop))
}

/// An option that decoding gives back unchanged: a kind that is not one of the
/// typed kinds is left to its typed variant, and a variable-length tail (methods,
/// value, raw data) does not end in a zero byte, which would read as padding.
pub open spec fn option_canonical(o: OptionView) -> bool {
    match o {
        OptionView::Advertisement(_, m) => m.len() == 0 || m.last() != 0,
        OptionView::Selection(_) => true,
        OptionView::Metadata(_, v) => encode_utf8(v).len() == 0 || encode_utf8(v).last() != 0,
        OptionView::Unrecognized(k, d) => k != SOCKS_OKIND_AUTH_METH_ADV && k != SOCKS_OKIND_AUTH_METH_SEL
            && k != SOCKS_OKIND_METADATA && (d.len() == 0 || d.last() != 0),
    }
}

proof fn lemma_padded_len_bounds(d: int)
    requires
        d >= 0,
    ensures
        d + 4 <= padded_len(d) <= d + 7,
        padded_len(d) % 4 == 0,
{
    assert(d + 4 <= ((d + 7) / 4) * 4 <= d + 7) by (nonlinear_arith)
        requires d >= 0;
    assert((((d + 7) / 4) * 4) % 4 == 0) by (nonlinear_arith);
}

proof fn lemma_strip_zeros_padded(x: Seq<u8>, p: nat, k: nat)
    requires
        p <= k,
        x.len() == 0 || x.last() != 0,
    ensures
        strip_zeros(x + zeros(p as int), k) == x,
    decreases p,
{
    if p == 0 {
        assert(x + zeros(0) =~= x);
    } else {
        let y = x + zeros(p as int);
        assert(y.drop_last() =~= x + zeros(p - 1));
        lemma_strip_zeros_padded(x, (p - 1) as nat, (k - 1) as nat);
    }
}

proof fn lemma_strip_zeros_len(s: Seq<u8>, k: nat)
    ensures
        s.len() - k <= strip_zeros(s, k).len() <= s.len(),
    decreases k,
{
    if k == 0 || s.len() == 0 || s.last() != 0 {
    } else {
        lemma_strip_zeros_len(s.drop_last(), (k - 1) as nat);
    }
}

/// Every encoded option is a multiple of four bytes long, and the bytes after
/// its data are zero.
pub proof fn lemma_option_padding(o: OptionView)
    requires
        option_wf(o),
    ensures
        option_bytes(o).len() % 4 == 0,
        option_bytes(o).len() >= 4 + option_data(o).len(),
        forall|i: int|
            4 + option_data(o).len() <= i < option_bytes(o).len() ==> option_bytes(o)[i] == 0,
{
    lemma_padded_len_bounds(option_data(o).len() as int);
}

/// Decoding an option's encoding gives the option back, and decoding goes on
/// with the bytes that follow it.
pub proof fn lemma_option_round_trip(o: OptionView, rest: Seq<u8>)
    requires
        option_wf(o),
        option_canonical(o),
    ensures
        option_bytes(o).len() % 4 == 0,
        parse_options_block(option_bytes(o) + rest) == prepend(seq![o], parse_options_block(rest)),
        parse_options_block(option_bytes(o)) == Ok::<Seq<OptionView>, Socks6Error>(seq![o]),
{
    lemma_option_round_trip_with(o, rest);
    lemma_option_round_trip_with(o, Seq::empty());
    assert(option_bytes(o) + Seq::<u8>::empty() =~= option_bytes(o));
    assert(seq![o] + Seq::<OptionView>::empty() =~= seq![o]);
}

proof fn lemma_option_round_trip_with(o: OptionView, rest: Seq<u8>)
    requires
        option_wf(o),
        option_canonical(o),
    ensures
        option_bytes(o).len() % 4 == 0,
        parse_options_block(option_bytes(o) + rest) == prepend(seq![o], parse_options_block(rest)),
{
    let d = option_data(o);
    let total = padded_len(d.len() as int);
    lemma_padded_len_bounds(d.len() as int);
    let pad = total - 4 - d.len();
    let s = option_bytes(o) + rest;
    let body = s.subrange(4, total);
    assert(body =~= d + zeros(pad));
    assert(s.subrange(total, s.len() as int) =~= rest);
    assert(be16(s[2], s[3]) == total as u16);
    assert(be16(s[0], s[1]) == option_kind(o));
    match o {
        OptionView::Advertisement(len, m) => {
            assert(body.subrange(2, body.len() as int) =~= m + zeros(pad));
            lemma_strip_zeros_padded(m, pad as nat, 3);
        },
        OptionView::Selection(m) => {
        },
        OptionView::Metadata(key, v) => {
            assert(body.subrange(2, body.len() as int) =~= encode_utf8(v) + zeros(pad));
            lemma_strip_zeros_padded(encode_utf8(v), pad as nat, 3);
        },
        OptionView::Unrecognized(k, data) => {
            lemma_strip_zeros_padded(data, pad as nat, 3);
        },
    }
}

proof fn lemma_decoded_option_len(kind: u16, body: Seq<u8>)
    requires
        body.len() % 4 == 0,
        body.len() + 4 <= 65535,
        decode_option(kind, body) is Ok,
    ensures
        option_bytes(decode_option(kind, body)->Ok_0).len() == body.len() + 4,
{
    let o = decode_option(kind, body)->Ok_0;
    let l = body.len() + 4;
    let dl = option_data(o).len() as int;
    if kind == SOCKS_OKIND_AUTH_METH_ADV {
        lemma_strip_zeros_len(body.subrange(2, body.len() as int), 3);
    } else if kind == SOCKS_OKIND_AUTH_METH_SEL {
    } else if kind == SOCKS_OKIND_METADATA {
        let v = strip_padding(body.subrange(2, body.len() as int));
        lemma_strip_zeros_len(body.subrange(2, body.len() as int), 3);
        vstd::utf8::decode_utf8_encode_utf8(v);
    } else {
        lemma_strip_zeros_len(body, 3);
    }
    assert(l - 7 <= dl <= l - 4);
    assert(padded_len(dl) == l) by (nonlinear_arith)
        requires
            l - 7 <= dl <= l - 4,
            l % 4 == 0,
    {
    }
}

/// The encoded lengths of the options decoded from a block add up to the
/// block's length.
pub proof fn lemma_block_length(s: Seq<u8>)
    requires
        s.len() <= 65535,
        parse_options_block(s) is Ok,
    ensures
        options_total_len(parse_options_block(s)->Ok_0) == s.len(),
    decreases s.len(),
{
    if s.len() == 0 {
    } else {
        let len = be16(s[2], s[3]) as int;
        let o = decode_option(be16(s[0], s[1]), s.subrange(4, len))->Ok_0;
        let tail = s.subrange(len, s.len() as int);
        lemma_decoded_option_len(be16(s[0], s[1]), s.subrange(4, len));
        lemma_block_length(tail);
        let os = parse_options_block(s)->Ok_0;
        assert(os =~= seq![o] + parse_options_block(tail)->Ok_0);
        assert(os.drop_first() =~= parse_options_block(tail)->Ok_0);
    }
}

} // verus!

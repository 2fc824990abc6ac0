use vstd::prelude::*;
use vstd::utf8::*;

use crate::address::{address_wf, Address};
use crate::bytes::string_bytes;
use crate::chain::Credentials;
use crate::constants::SOCKS_AUTH_USERNAME_PASSWORD;
use crate::error::Socks6Error;
use crate::options::{option_data, option_wf, options_bytes, options_view, OptionView, SocksOption, MAX_OPTION_DATA};
use crate::request::{encode_options, request_bytes, request_wf, RequestView, Socks6Command, Socks6Request};
use std::collections::HashMap;

verus! {

/// A username or password of 1 to 255 bytes.
pub open spec fn credential_len_ok(s: Seq<char>) -> bool {
    1 <= encode_utf8(s).len() <= 255
}

/// Credentials, if any, whose parts are each 1 to 255 bytes long.
pub open spec fn credentials_ok(c: Option<(Seq<char>, Seq<char>)>) -> bool {
    match c {
        Some((u, p)) => credential_len_ok(u) && credential_len_ok(p),
        None => true,
    }
}

pub open spec fn credentials_view(c: Option<Credentials>) -> Option<(Seq<char>, Seq<char>)> {
    match c {
        Some(c) => Some((c.username@, c.password@)),
        None => None,
    }
}

/// Checks that each credential part is 1 to 255 bytes long.
pub fn check_credentials(credentials: &Option<Credentials>) -> (r: Result<(), Socks6Error>)
    ensures
        r is Ok <==> credentials_ok(credentials_view(*credentials)),
        r is Err ==> r == Err::<(), Socks6Error>(Socks6Error::CredentialTooLong),
{
    match credentials {
        None => Ok(()),
        Some(c) => {
            let u = string_bytes(&c.username).len();
            let p = string_bytes(&c.password).len();
            if u < 1 || u > 255 || p < 1 || p > 255 {
                Err(Socks6Error::CredentialTooLong)
            } else {
                Ok(())
            }
        },
    }
}

/// The advertisement a client sends: its initial-data length, and the
/// username/password method when it has credentials.
pub open spec fn advertisement(initial_data_length: u16, has_credentials: bool) -> OptionView {
    OptionView::Advertisement(
        initial_data_length,
        if has_credentials {
            seq![SOCKS_AUTH_USERNAME_PASSWORD]
        } else {
            Seq::empty()
        },
    )
}

/// The CONNECT request a client sends: the caller's options followed by the
/// advertisement, and no metadata of its own.
pub open spec fn connect_request_view(
    destination: crate::address::AddressView,
    initial_data_length: u16,
    extra: Seq<OptionView>,
    has_credentials: bool,
) -> RequestView {
    RequestView {
        command: Socks6Command::Connect,
        destination,
        initial_data_length,
        options: extra.push(advertisement(initial_data_length, has_credentials)),
        metadata: Map::empty(),
    }
}

/// Every option's data fits, and so does the whole block.
fn options_fit(options: &Vec<SocksOption>) -> (r: bool)
    ensures
        r == ((forall|i: int| 0 <= i < options@.len() ==> option_wf(#[trigger] options@[i]@))
            && options_bytes(options_view(options@)).len() <= 65535),
{
    let mut i: usize = 0;
    while i < options.len()
        invariant
            i <= options@.len(),
            forall|j: int| 0 <= j < i ==> option_wf(#[trigger] options@[j]@),
        decreases options@.len() - i,
    {
        if options[i].data().len() > MAX_OPTION_DATA {
            assert(!option_wf(options@[i as int]@));
            return false;
        }
        i += 1;
    }
    let b = encode_options(options);
    b.len() <= 65535
}

/// The bytes of the CONNECT request a client sends for `destination`: the
/// caller's `extra` options, then an advertisement of `initial_data_length`
/// and, with credentials, of the username/password method. Fails with
/// `CredentialTooLong` on a bad credential, and with `MalformedOptions` when
/// the options do not fit their 16-bit lengths.
pub fn connect_request(
    destination: Address,
    initial_data_length: u16,
    credentials: &Option<Credentials>,
    extra: Vec<SocksOption>,
) -> (r: Result<Vec<u8>, Socks6Error>)
    requires
        address_wf(destination@),
    ensures
        ({
            let v = connect_request_view(
                destination@,
                initial_data_length,
                options_view(extra@),
                credentials is Some,
            );
            if !credentials_ok(credentials_view(*credentials)) {
                r == Err::<Vec<u8>, Socks6Error>(Socks6Error::CredentialTooLong)
            } else if request_wf(v) {
                r matches Ok(b) && b@ == request_bytes(v)
            } else {
                r == Err::<Vec<u8>, Socks6Error>(Socks6Error::MalformedOptions)
            }
        }),
{
    let ghost v = connect_request_view(destination@, initial_data_length, options_view(extra@), credentials is Some);
    match check_credentials(credentials) {
        Err(e) => {
            return Err(e);
        },
        Ok(()) => {},
    }
    let mut methods: Vec<u8> = Vec::new();
    if credentials.is_some() {
        methods.push(SOCKS_AUTH_USERNAME_PASSWORD);
    }
    let adv = SocksOption::AuthMethodAdvertisement { initial_data_length, methods };
    assert(adv@ == advertisement(initial_data_length, credentials is Some)) by {
        assert(methods@ =~= (if credentials is Some { seq![SOCKS_AUTH_USERNAME_PASSWORD] } else { Seq::<u8>::empty() }));
    }
    let mut options = extra;
    let ghost before = options@;
    options.push(adv);
    assert(options_view(options@) =~= options_view(before).push(adv@));
    let fits = options_fit(&options);
    if !fits {
        proof {
            if request_wf(v) {
                assert forall|i: int| 0 <= i < options@.len() implies option_wf(#[trigger] options@[i]@) by {
                    assert(v.options[i] == options@[i]@);
                }
            }
        }
        return Err(Socks6Error::MalformedOptions);
    }
    let request = Socks6Request {
        command: Socks6Command::Connect,
        destination,
        initial_data_length,
        options,
        metadata: HashMap::new(),
    };
    assert(request@.metadata =~= Map::<u16, Seq<char>>::empty());
    assert(request@ == v);
    Ok(request.into_socks_bytes())
}

} // verus!

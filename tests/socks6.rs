use socksx::{
    connect_request, error_response, read_address, read_no_authentication, read_options, read_reply,
    read_request, success_response, write_no_authentication, write_reply, Address, Credentials, NextHop,
    ProxyAddress, Socks6Command, Socks6Error, Socks6Handler, Socks6Reply, Socks6Request, SocksOption,
};
use std::collections::HashMap;

fn metadata(pairs: &[(u16, &str)]) -> HashMap<u16, String> {
    let mut m = HashMap::new();
    for (k, v) in pairs {
        m.insert(*k, v.to_string());
    }
    m
}

fn metadata_options(pairs: &[(u16, &str)]) -> Vec<SocksOption> {
    pairs
        .iter()
        .map(|(k, v)| SocksOption::Metadata { key: *k, value: v.to_string() })
        .collect()
}

fn proxy(host: &str, port: u16) -> ProxyAddress {
    ProxyAddress { host: host.to_string(), port, credentials: None }
}

fn metadata_pairs(options: &[SocksOption]) -> Vec<(u16, String)> {
    options
        .iter()
        .map(|o| match o {
            SocksOption::Metadata { key, value } => (*key, value.clone()),
            other => panic!("not a metadata option: {:?}", other),
        })
        .collect()
}

// Test creation of a new Socks6Request.
#[test]
fn test_new_socks6_request() {
    let request = Socks6Request::new(
        Socks6Command::Connect as u8,
        Address::new("192.168.1.1", 80),
        0,
        vec![],
        None,
    );

    assert_eq!(request.command, Socks6Command::Connect);
    assert_eq!(request.destination, Address::new("192.168.1.1", 80),);
    assert_eq!(request.initial_data_length, 0);
    assert_eq!(request.options.len(), 0);
    assert_eq!(request.metadata.len(), 0);
}

// Test conversion of Socks6Request into a byte sequence.
#[test]
fn test_into_socks_bytes() {
    let request = Socks6Request::new(
        Socks6Command::Connect as u8,
        Address::new("192.168.1.1", 80),
        0,
        vec![],
        None,
    );
    let result = request.into_socks_bytes();
    let expected_result: Vec<u8> = vec![6, 1, 1, 192, 168, 1, 1, 0, 80, 0, 0, 0];
    assert_eq!(result, expected_result);
}

#[test]
fn address_new_recognises_ipv4_and_domains() {
    match Address::new("192.168.1.1", 80) {
        Address::Ipv4 { ip, port } => {
            assert_eq!(ip, vec![192, 168, 1, 1]);
            assert_eq!(port, 80);
        }
        other => panic!("expected IPv4, got {:?}", other),
    }
    assert!(matches!(Address::new("256.1.1.1", 80), Address::Domain { .. }));
    assert!(matches!(Address::new("1.2.3", 80), Address::Domain { .. }));
    assert!(matches!(Address::new("a.example", 1080), Address::Domain { .. }));
}

#[test]
fn option_padding_to_eight_bytes() {
    let option = SocksOption::new(0x0002, vec![0x00, 0x00, 0x02]);
    assert_eq!(option.as_socks_bytes(), vec![0x00, 0x02, 0x00, 0x08, 0x00, 0x00, 0x02, 0x00]);
}

#[test]
fn aligned_option_gets_no_padding() {
    let option = SocksOption::new(0x1234, vec![1, 2, 3, 4]);
    assert_eq!(option.as_socks_bytes(), vec![0x12, 0x34, 0x00, 0x08, 1, 2, 3, 4]);
    let empty = SocksOption::new(0x1234, vec![]);
    assert_eq!(empty.as_socks_bytes(), vec![0x12, 0x34, 0x00, 0x04]);
}

#[test]
fn encoded_options_are_padded_with_zeros() {
    for n in 0..9usize {
        let data: Vec<u8> = (1..=n as u8).collect();
        let bytes = SocksOption::new(0x00AA, data.clone()).as_socks_bytes();
        assert_eq!(bytes.len() % 4, 0);
        assert!(bytes[4 + n..].iter().all(|b| *b == 0));
        assert_eq!(&bytes[4..4 + n], &data[..]);
    }
}

#[test]
fn option_round_trip_through_a_block() {
    let options = vec![
        SocksOption::Metadata { key: 7, value: "héllo".to_string() },
        SocksOption::AuthMethodAdvertisement { initial_data_length: 300, methods: vec![2] },
        SocksOption::AuthMethodSelection { method: 2 },
        SocksOption::Unrecognized { kind: 0x0100, data: vec![9, 8, 7] },
    ];
    let mut block = vec![];
    for o in &options {
        block.extend(o.as_socks_bytes());
    }
    let mut buf = vec![(block.len() >> 8) as u8, block.len() as u8];
    buf.extend(block.iter());
    let (decoded, end) = read_options(&buf, 0).unwrap();
    assert_eq!(end, buf.len());
    assert_eq!(format!("{:?}", decoded), format!("{:?}", options));
}

#[test]
fn block_length_equals_sum_of_option_lengths() {
    let options = metadata_options(&[(1, "a"), (2, "bcdef"), (3, "")]);
    let mut block = vec![];
    for o in &options {
        block.extend(o.as_socks_bytes());
    }
    let mut buf = vec![0, block.len() as u8];
    buf.extend(block.iter());
    let (decoded, _) = read_options(&buf, 0).unwrap();
    let total: usize = decoded.iter().map(|o| o.as_socks_bytes().len()).sum();
    assert_eq!(total, block.len());
    assert_eq!(total, 8 + 12 + 8);
}

#[test]
fn malformed_options_are_refused() {
    // Declared block of 4 bytes holding an option that claims 8.
    let buf = vec![0, 4, 0, 9, 0, 8];
    assert_eq!(read_options(&buf, 0).unwrap_err(), Socks6Error::MalformedOptions);
    // Option length not a multiple of four.
    let buf = vec![0, 5, 0, 9, 0, 5, 1];
    assert_eq!(read_options(&buf, 0).unwrap_err(), Socks6Error::MalformedOptions);
    // Too few bytes for the declared block.
    let buf = vec![0, 8, 0, 9];
    assert_eq!(read_options(&buf, 0).unwrap_err(), Socks6Error::Incomplete);
}

#[test]
fn address_round_trip() {
    let addresses = vec![
        Address::new("10.0.0.1", 443),
        Address::Ipv6 { ip: (0..16).collect(), port: 8080 },
        Address::new("ab", 0x1234),
    ];
    for a in addresses {
        let mut bytes = a.as_socks_bytes();
        let len = bytes.len();
        bytes.push(0xEE);
        let (b, end) = read_address(&bytes, 0).unwrap();
        assert_eq!(b, a);
        assert_eq!(end, len);
    }
    assert_eq!(Address::new("ab", 0x1234).as_socks_bytes(), vec![3, 2, b'a', b'b', 0x12, 0x34]);
}

#[test]
fn malformed_addresses_are_refused() {
    assert_eq!(read_address(&[9, 1, 2], 0).unwrap_err(), Socks6Error::MalformedAddress);
    assert_eq!(read_address(&[3, 0, 0, 80], 0).unwrap_err(), Socks6Error::MalformedAddress);
    assert_eq!(read_address(&[3, 1, 0xFF, 0, 80], 0).unwrap_err(), Socks6Error::MalformedAddress);
    assert_eq!(read_address(&[1, 127, 0], 0).unwrap_err(), Socks6Error::Incomplete);
}

#[test]
fn domain_name_is_decoded_from_utf8() {
    let (a, _) = read_address(&[3, 2, b'h', b'i', 0, 80], 0).unwrap();
    match a {
        Address::Domain { name, port } => {
            assert_eq!(name, "hi");
            assert_eq!(port, 80);
        }
        other => panic!("expected a domain, got {:?}", other),
    }
}

fn request_with(options: Vec<SocksOption>) -> Vec<u8> {
    Socks6Request::new(1, Address::new("192.168.1.1", 80), 0, options, None).into_socks_bytes()
}

#[test]
fn read_request_collects_metadata_once_per_key() {
    let mut options = metadata_options(&[(5, "x"), (6, "y"), (5, "z")]);
    options.push(SocksOption::AuthMethodAdvertisement { initial_data_length: 3, methods: vec![] });
    options.push(SocksOption::AuthMethodAdvertisement { initial_data_length: 9, methods: vec![] });
    let mut bytes = request_with(options);
    let len = bytes.len();
    bytes.extend([b'a', b'b', b'c']);
    let (request, end) = read_request(&bytes).unwrap();
    assert_eq!(end, len);
    assert_eq!(request.metadata.len(), 2);
    assert_eq!(request.metadata[&5], "z");
    assert_eq!(request.metadata[&6], "y");
    assert_eq!(request.initial_data_length, 3);
    assert_eq!(request.options.len(), 5);
    let (again, _) = read_request(&bytes).unwrap();
    assert_eq!(again.metadata, request.metadata);
}

#[test]
fn version_mismatch_gets_a_hint() {
    let err = read_request(&[0x04, 0x01, 0x00]).unwrap_err();
    assert_eq!(err, Socks6Error::VersionMismatch);
    assert_eq!(error_response(err), vec![0x06]);
}

#[test]
fn unsupported_command_gets_reply_seven() {
    let err = read_request(&[6, 2, 1, 1, 2, 3, 4, 0, 80, 0, 0, 0]).unwrap_err();
    assert_eq!(err, Socks6Error::UnsupportedCommand);
    assert_eq!(error_response(err), vec![6, 7, 0, 0, 0, 1, 0, 0, 0, 0, 0, 0]);
    assert_eq!(error_response(Socks6Error::MalformedOptions), Vec::<u8>::new());
}

#[test]
fn short_request_is_incomplete() {
    let bytes = request_with(vec![]);
    for n in 0..bytes.len() {
        assert_eq!(read_request(&bytes[..n]).unwrap_err(), Socks6Error::Incomplete);
    }
}

fn incoming(pairs: &[(u16, &str)]) -> Socks6Request {
    let options = metadata_options(pairs);
    let bytes = request_with(options);
    read_request(&bytes).unwrap().0
}

#[test]
fn chain_traversal() {
    let request = incoming(&[(998, "0"), (999, "2"), (1000, "a.example:1080"), (1001, "b.example:1080")]);
    let chain = request.chain(&[]).unwrap().unwrap();
    assert_eq!(chain.index, 0);
    assert_eq!(chain.links.len(), 2);
    assert_eq!(chain.links[0].host, "a.example");
    assert_eq!(chain.links[0].port, 1080);
    assert_eq!(chain.links[1].host, "b.example");

    match Socks6Handler::new().next_hop(&request).unwrap() {
        NextHop::Forward { proxy, options } => {
            assert_eq!(proxy.host, "a.example");
            assert_eq!(proxy.port, 1080);
            assert_eq!(
                metadata_pairs(&options),
                vec![
                    (998, "1".to_string()),
                    (999, "2".to_string()),
                    (1000, "a.example:1080".to_string()),
                    (1001, "b.example:1080".to_string()),
                ]
            );
        }
        NextHop::Direct => panic!("expected a forward"),
    }
}

#[test]
fn chain_exhaustion() {
    let request = incoming(&[(998, "2"), (999, "2"), (1000, "a.example:1080"), (1001, "b.example:1080")]);
    let chain = request.chain(&[]).unwrap().unwrap();
    assert_eq!(chain.index, 2);
    assert!(chain.is_exhausted());
    assert!(matches!(Socks6Handler::new().next_hop(&request).unwrap(), NextHop::Direct));
}

#[test]
fn detour_injection() {
    let request = incoming(&[]);
    let handler = Socks6Handler::with_detour(vec![proxy("s.example", 1080)]);
    let chain = request.chain(&handler.static_links).unwrap().unwrap();
    assert_eq!(chain.index, 0);
    assert_eq!(chain.links.len(), 1);
    assert_eq!(chain.links[0].host, "s.example");
    match handler.next_hop(&request).unwrap() {
        NextHop::Forward { proxy, options } => {
            assert_eq!(proxy.host, "s.example");
            assert_eq!(
                metadata_pairs(&options),
                vec![(998, "1".to_string()), (999, "1".to_string()), (1000, "s.example:1080".to_string())]
            );
        }
        NextHop::Direct => panic!("expected a forward"),
    }
}

#[test]
fn detour_splices_at_the_index() {
    let request = incoming(&[(998, "1"), (999, "2"), (1000, "a.example:1"), (1001, "b.example:2")]);
    let chain = request.chain(&[proxy("s.example", 3), proxy("t.example", 4)]).unwrap().unwrap();
    assert_eq!(chain.index, 1);
    let hosts: Vec<&str> = chain.links.iter().map(|l| l.host.as_str()).collect();
    assert_eq!(hosts, vec!["a.example", "s.example", "t.example", "b.example"]);
    let options = chain.as_options();
    let pairs = metadata_pairs(&options);
    assert_eq!(pairs[0], (998, "2".to_string()));
    assert_eq!(pairs[1], (999, "4".to_string()));
}

#[test]
fn no_chain_means_direct() {
    let request = incoming(&[(5, "x")]);
    assert!(request.chain(&[]).unwrap().is_none());
    assert!(matches!(Socks6Handler::new().next_hop(&request).unwrap(), NextHop::Direct));
}

#[test]
fn malformed_chain_is_refused() {
    for pairs in [
        vec![(999, "x")],
        vec![(999, "1")],
        vec![(999, "1"), (998, "2"), (1000, "a:1")],
        vec![(999, "1"), (998, "0")],
        vec![(999, "1"), (998, "0"), (1000, "no-port")],
        vec![(999, "1"), (998, "0"), (1000, "a:99999")],
        vec![(999, "1001"), (998, "0")],
    ] {
        let request = incoming(&pairs);
        assert_eq!(request.chain(&[]).unwrap_err(), Socks6Error::ChainConfigInvalid);
    }
    assert_eq!(error_response(Socks6Error::ChainConfigInvalid), vec![6, 1, 0, 0, 0, 1, 0, 0, 0, 0, 0, 0]);
}

#[test]
fn proxy_address_text_round_trip() {
    let p = ProxyAddress::parse(&"user:pw@h.example:1080".to_string()).unwrap();
    assert_eq!(p.host, "h.example");
    assert_eq!(p.port, 1080);
    let c = p.credentials.clone().unwrap();
    assert_eq!(c.username, "user");
    assert_eq!(c.password, "pw");
    assert_eq!(p.to_text(), "user:pw@h.example:1080");
    let q = ProxyAddress::parse(&"[::1]:9".to_string()).unwrap();
    assert_eq!(q.host, "[::1]");
    assert_eq!(q.port, 9);
    assert!(ProxyAddress::parse(&"user@h:1".to_string()).is_err());
}

#[test]
fn connect_request_appends_the_advertisement() {
    let bytes = connect_request(Address::new("192.168.1.1", 80), 5, &None, vec![]).unwrap();
    assert_eq!(bytes, vec![6, 1, 1, 192, 168, 1, 1, 0, 80, 0, 0, 8, 0, 2, 0, 8, 0, 5, 0, 0]);
    let creds = Some(Credentials { username: "u".to_string(), password: "p".to_string() });
    let extra = metadata_options(&[(7, "v")]);
    let bytes = connect_request(Address::new("192.168.1.1", 80), 0, &creds, extra).unwrap();
    let (request, _) = read_request(&bytes).unwrap();
    assert_eq!(request.metadata[&7], "v");
    match &request.options[1] {
        SocksOption::AuthMethodAdvertisement { initial_data_length, methods } => {
            assert_eq!(*initial_data_length, 0);
            assert_eq!(methods, &vec![2]);
        }
        other => panic!("expected the advertisement, got {:?}", other),
    }
}

#[test]
fn credentials_are_checked() {
    let long = Some(Credentials { username: "u".repeat(256), password: "p".to_string() });
    assert_eq!(
        connect_request(Address::new("1.2.3.4", 1), 0, &long, vec![]).unwrap_err(),
        Socks6Error::CredentialTooLong
    );
    let empty = Some(Credentials { username: "u".to_string(), password: String::new() });
    assert_eq!(
        connect_request(Address::new("1.2.3.4", 1), 0, &empty, vec![]).unwrap_err(),
        Socks6Error::CredentialTooLong
    );
    let max = Some(Credentials { username: "u".repeat(255), password: "p".repeat(255) });
    assert!(connect_request(Address::new("1.2.3.4", 1), 0, &max, vec![]).is_ok());
}

#[test]
fn authentication_reply() {
    assert_eq!(write_no_authentication(), vec![6, 0, 0, 0]);
    let (options, n) = read_no_authentication(&[6, 0, 0, 0]).unwrap();
    assert!(options.is_empty());
    assert_eq!(n, 4);
    assert_eq!(read_no_authentication(&[6, 3, 0, 0]).unwrap_err(), Socks6Error::AuthFailed(3));
    assert_eq!(read_no_authentication(&[5, 0, 0, 0]).unwrap_err(), Socks6Error::VersionMismatch);
}

#[test]
fn operation_reply() {
    let bytes = write_reply(Socks6Reply::Success);
    assert_eq!(bytes, vec![6, 0, 0, 0, 0, 1, 0, 0, 0, 0, 0, 0]);
    let (binding, options, n) = read_reply(&bytes).unwrap();
    assert_eq!(binding, Address::Ipv4 { ip: vec![0, 0, 0, 0], port: 0 });
    assert!(options.is_empty());
    assert_eq!(n, 12);
    let (binding, _, _) = read_reply(&[6, 0, 0x1F, 0x90, 0, 3, 2, b'h', b'x', 0, 0]).unwrap();
    assert_eq!(binding, Address::new("hx", 8080));
    assert_eq!(
        read_reply(&write_reply(Socks6Reply::ConnectionRefused)).unwrap_err(),
        Socks6Error::ReplyError(5)
    );
    assert_eq!(Socks6Reply::from_u8(9), Some(Socks6Reply::ConnectionAttemptTimeOut));
    assert_eq!(Socks6Reply::from_u8(10), None);
}

#[test]
fn handler_success_response() {
    assert_eq!(success_response(), vec![6, 0, 0, 0, 6, 0, 0, 0, 0, 1, 0, 0, 0, 0, 0, 0]);
}

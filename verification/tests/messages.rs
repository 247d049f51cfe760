use rtcnet::addr::{create_addr, IpAddr, NetworkType, SocketAddr, SocketAddrV4, SocketAddrV6};
use rtcnet::error::{Error, StunError};
use rtcnet::messages::{
    assert_inbound_message_integrity, assert_inbound_username, binding_request,
    get_xormapped_addr, stun_request, stun_response, Message, RawAttribute, Reply,
    MAX_MESSAGE_SIZE,
};
use stun::message::Setter;

const ID: [u8; 12] = [1, 2, 3, 4, 5, 6, 7, 8, 9, 10, 11, 12];

fn built(setters: Vec<Box<dyn Setter>>) -> Vec<u8> {
    let mut m = stun::message::Message::new();
    let mut all: Vec<Box<dyn Setter>> = vec![
        Box::new(stun::message::BINDING_SUCCESS),
        Box::new(stun::agent::TransactionId(ID)),
    ];
    all.extend(setters);
    m.build(&all).unwrap();
    m.raw
}

fn read(raw: &[u8]) -> Message {
    stun_response(raw, Reply::Received(raw.len())).unwrap()
}

fn username(text: &str) -> Box<dyn Setter> {
    Box::new(stun::textattrs::Username::new(
        stun::attributes::ATTR_USERNAME,
        text.to_owned(),
    ))
}

fn integrity(password: &str) -> Box<dyn Setter> {
    Box::new(stun::integrity::MessageIntegrity::new_short_term_integrity(
        password.to_owned(),
    ))
}

fn mapped(ip: ipnet::IpNet, port: u16) -> Box<dyn Setter> {
    Box::new(stun::xoraddr::XorMappedAddress {
        ip: ip.addr(),
        port,
    })
}

fn attribute(typ: u16, value: &[u8]) -> RawAttribute {
    RawAttribute {
        typ,
        length: value.len() as u16,
        value: value.to_vec(),
    }
}

fn message(attributes: Vec<RawAttribute>) -> Message {
    Message {
        typ: 0x0101,
        length: 0,
        transaction_id: ID,
        attributes,
        raw: Vec::new(),
    }
}

#[test]
fn the_expected_username_is_accepted() {
    let m = read(&built(vec![username("remote:local")]));
    assert!(assert_inbound_username(&m, "remote:local").is_ok());
}

#[test]
fn another_username_is_refused_by_name() {
    let m = read(&built(vec![username("remote:local")]));
    match assert_inbound_username(&m, "local:remote") {
        Err(Error::Other(text)) => assert_eq!(
            text,
            "ErrMismatchUsername expected(local:remote) actual(remote:local)"
        ),
        other => panic!("{other:?}"),
    }
}

#[test]
fn a_missing_username_is_refused() {
    let m = read(&built(vec![]));
    assert!(matches!(
        assert_inbound_username(&m, "a"),
        Err(Error::Stun(StunError::AttributeNotFound))
    ));
}

#[test]
fn a_username_that_is_not_text_is_refused() {
    let m = message(vec![attribute(0x0006, &[0x61, 0xff])]);
    match assert_inbound_username(&m, "a") {
        Err(Error::Stun(StunError::Utf8(bytes))) => assert_eq!(bytes, [0x61, 0xff]),
        other => panic!("{other:?}"),
    }
}

#[test]
fn the_first_username_counts() {
    let m = message(vec![attribute(0x0006, b"one"), attribute(0x0006, b"two")]);
    assert!(assert_inbound_username(&m, "one").is_ok());
    assert!(assert_inbound_username(&m, "two").is_err());
}

#[test]
fn integrity_holds_under_its_key_alone() {
    let raw = built(vec![username("a:b"), integrity("secret")]);
    let mut m = read(&raw);
    assert!(assert_inbound_message_integrity(&mut m, b"secret").is_ok());
    assert!(matches!(
        assert_inbound_message_integrity(&mut m, b"Secret"),
        Err(Error::Stun(StunError::IntegrityMismatch))
    ));
    assert_eq!(m.raw, raw);
    assert!(assert_inbound_message_integrity(&mut m, b"secret").is_ok());
}

#[test]
fn integrity_ignores_what_follows_it() {
    let raw = built(vec![
        username("a:b"),
        integrity("secret"),
        Box::new(stun::fingerprint::FINGERPRINT),
    ]);
    let mut m = read(&raw);
    assert!(assert_inbound_message_integrity(&mut m, b"secret").is_ok());
    assert_eq!(m.raw, raw);
}

#[test]
fn a_changed_message_fails_its_integrity() {
    let mut raw = built(vec![username("a:b"), integrity("secret")]);
    raw[24] ^= 1;
    let mut m = read(&raw);
    assert!(matches!(
        assert_inbound_message_integrity(&mut m, b"secret"),
        Err(Error::Stun(StunError::IntegrityMismatch))
    ));
}

#[test]
fn a_message_without_integrity_is_refused() {
    let raw = built(vec![username("a:b")]);
    let mut m = read(&raw);
    assert!(matches!(
        assert_inbound_message_integrity(&mut m, b"secret"),
        Err(Error::Stun(StunError::AttributeNotFound))
    ));
    assert_eq!(m.raw, raw);
}

#[test]
fn a_mapped_address_is_unmasked() {
    let net: ipnet::IpNet = "203.0.113.9/32".parse().unwrap();
    let m = read(&built(vec![mapped(net, 51234)]));
    let addr = get_xormapped_addr(&m).unwrap();
    assert_eq!(addr.ip, IpAddr::V4(0xcb00_7109));
    assert_eq!(addr.port, 51234);

    let net: ipnet::IpNet = "2001:db8::9/128".parse().unwrap();
    let m = read(&built(vec![mapped(net, 1)]));
    let addr = get_xormapped_addr(&m).unwrap();
    assert_eq!(addr.ip, IpAddr::V6(0x2001_0db8_0000_0000_0000_0000_0000_0009));
    assert_eq!(addr.port, 1);
}

#[test]
fn a_masked_address_is_the_known_bytes() {
    let value = [0, 1, 0x21 ^ 0x12, 0x12 ^ 0x34, 0x21 ^ 192, 0x12, 0xa4 ^ 2, 0x42 ^ 1];
    let m = message(vec![attribute(0x0020, &value)]);
    let addr = get_xormapped_addr(&m).unwrap();
    assert_eq!(addr.ip, IpAddr::V4(0xc000_0201));
    assert_eq!(addr.port, 0x1234);
}

#[test]
fn a_short_address_ends_in_zeros() {
    let m = message(vec![attribute(0x0020, &[0, 1, 0x21, 0x12, 0x21 ^ 10])]);
    let addr = get_xormapped_addr(&m).unwrap();
    assert_eq!(addr.ip, IpAddr::V4(0x0a00_0000));
    assert_eq!(addr.port, 0);
}

#[test]
fn bad_mapped_addresses_are_refused() {
    let refused = |value: &[u8]| get_xormapped_addr(&message(vec![attribute(0x0020, value)]));
    assert!(matches!(
        refused(&[0, 1, 2, 3]),
        Err(Error::Stun(StunError::UnexpectedEof))
    ));
    assert!(matches!(
        refused(&[0, 1, 2, 3, 4, 5, 6, 7, 8]),
        Err(Error::Stun(StunError::AttributeSizeOverflow))
    ));
    assert!(matches!(
        refused(&[0; 21]),
        Err(Error::Stun(StunError::Other(_)))
    ));
    let mut long = [0u8; 21];
    long[1] = 2;
    assert!(matches!(
        refused(&long),
        Err(Error::Stun(StunError::AttributeSizeOverflow))
    ));
    match refused(&[1, 44, 0, 0, 0]) {
        Err(Error::Stun(StunError::Other(text))) => assert_eq!(text, "bad value 300"),
        other => panic!("{other:?}"),
    }
    assert!(matches!(
        get_xormapped_addr(&message(vec![])),
        Err(Error::Stun(StunError::AttributeNotFound))
    ));
}

#[test]
fn a_binding_request_is_a_bare_header() {
    let request = binding_request(ID, 0).unwrap();
    assert_eq!(
        request.bytes,
        [0, 1, 0, 0, 0x21, 0x12, 0xa4, 0x42, 1, 2, 3, 4, 5, 6, 7, 8, 9, 10, 11, 12]
    );
    assert!(!request.limited);
    assert!(binding_request(ID, 1).unwrap().limited);
}

#[test]
fn a_request_reads_back_with_a_fresh_transaction_id() {
    let one = stun_request(5_000_000_000).unwrap();
    let two = stun_request(0).unwrap();
    assert!(one.limited);
    assert!(!two.limited);
    let m = read(&one.bytes);
    assert_eq!(m.typ, 1);
    assert_eq!(m.length, 0);
    assert_eq!(m.transaction_id, one.bytes[8..20]);
    assert!(m.attributes.is_empty());
    assert_ne!(one.bytes, two.bytes);
}

#[test]
fn a_response_is_read_from_the_front_of_the_buffer() {
    let raw = built(vec![username("abcde")]);
    let mut buf = vec![0xee; MAX_MESSAGE_SIZE];
    buf[..raw.len()].copy_from_slice(&raw);
    let m = stun_response(&buf, Reply::Received(raw.len())).unwrap();
    assert_eq!(m.raw, raw);
    assert_eq!(m.typ, 0x0101);
    assert_eq!(m.length, 12);
    assert_eq!(m.transaction_id, ID);
    assert_eq!(m.attributes.len(), 1);
    assert_eq!(m.attributes[0].typ, 0x0006);
    assert_eq!(m.attributes[0].length, 5);
    assert_eq!(m.attributes[0].value, b"abcde");
}

#[test]
fn responses_that_cannot_be_read_are_refused() {
    let raw = built(vec![]);
    assert!(matches!(
        stun_response(&raw, Reply::Received(19)),
        Err(Error::Stun(StunError::UnexpectedHeaderEof))
    ));
    let mut wrong = raw.clone();
    wrong[4] = 0;
    match stun_response(&wrong, Reply::Received(20)) {
        Err(Error::Stun(StunError::Other(text))) => {
            assert_eq!(text, "12a442 is invalid magic cookie (should be 2112a442)")
        }
        other => panic!("{other:?}"),
    }
    assert!(matches!(
        stun_response(&raw, Reply::Failed("refused".to_owned())),
        Err(Error::Util(text)) if text == "refused"
    ));
    assert!(matches!(
        stun_response(&raw, Reply::FailedInTime("refused".to_owned())),
        Err(Error::Other(text)) if text == "refused"
    ));
    assert!(matches!(
        stun_response(&raw, Reply::TimedOut("deadline has elapsed".to_owned())),
        Err(Error::Other(text)) if text == "deadline has elapsed"
    ));
}

#[test]
fn an_address_is_made_of_its_parts() {
    assert_eq!(
        create_addr(NetworkType::Udp4, IpAddr::V4(5), 6),
        SocketAddr::V4(SocketAddrV4 { ip: 5, port: 6 })
    );
    assert_eq!(
        create_addr(NetworkType::Tcp6, IpAddr::V6(7), 8),
        SocketAddr::V6(SocketAddrV6 {
            ip: 7,
            port: 8,
            flowinfo: 0,
            scope_id: 0
        })
    );
}

// The draft's number for XOR-MAPPED-ADDRESS is read as the final one, and the value is padded.
#[test]
fn attributes_are_cut_one_after_the_other() {
    let mut raw = vec![0xc1, 0x01, 0, 20, 0x21, 0x12, 0xa4, 0x42];
    raw.extend_from_slice(&ID);
    raw.extend_from_slice(&[0, 6, 0, 1, b'x', 9, 9, 9]);
    raw.extend_from_slice(&[0x80, 0x20, 0, 5, 0, 1, 0x21, 0x12, 0x21, 0, 0, 0]);
    raw.extend_from_slice(&[7, 7]);
    let m = read(&raw);
    assert_eq!(m.typ, 0x0101);
    assert_eq!(m.length, 20);
    assert_eq!(m.raw, raw);
    assert_eq!(m.attributes.len(), 2);
    assert_eq!(m.attributes[0].value, b"x");
    assert_eq!(m.attributes[1].typ, 0x0020);
    assert_eq!(m.attributes[1].value, [0, 1, 0x21, 0x12, 0x21]);
    assert_eq!(get_xormapped_addr(&m).unwrap().ip, IpAddr::V4(0));
}

#[test]
fn attributes_that_end_early_are_refused() {
    let cut = |length: u8, rest: &[u8]| {
        let mut raw = vec![1, 1, 0, length, 0x21, 0x12, 0xa4, 0x42];
        raw.extend_from_slice(&ID);
        raw.extend_from_slice(rest);
        stun_response(&raw, Reply::Received(raw.len()))
    };
    assert!(cut(0, &[]).is_ok());
    assert!(cut(4, &[0, 6, 0, 0]).is_ok());
    for refused in [
        cut(4, &[]),
        cut(3, &[0, 6, 0]),
        cut(6, &[0, 6, 0, 2, 1, 2]),
        cut(8, &[0, 6, 0, 5, 1, 2, 3, 4]),
    ] {
        assert!(matches!(refused, Err(Error::Stun(StunError::Other(_)))));
    }
}

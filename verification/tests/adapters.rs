use rtcnet::adapter_codes::{
    IfOperStatus, IpDadState, IpPrefixOrigin, IpSuffixOrigin, NetIfConnectionType, TunnelType,
};
use rtcnet::adapters::{
    adapter_name, is_ipv4_enabled, is_ipv6_enabled, local_ifaces_with_buffer,
    map_adapter_addresses, v4_mask, v4_socket_from_adapter, v6_mask, v6_socket_from_adapter,
    BufferStep, ErrorKind, IpAdapterAddresses, IpAdapterUnicastAddress, Kind,
    ERROR_ADDRESS_NOT_ASSOCIATED, ERROR_BUFFER_OVERFLOW, ERROR_INVALID_PARAMETER, ERROR_NO_DATA,
    ERROR_NOT_ENOUGH_MEMORY, ERROR_SUCCESS,
};
use rtcnet::addr::{IpAddr, SocketAddr, SocketAddrV4, SocketAddrV6};
use rtcnet::bytes::{read_be, read_le16, read_le32};
use rtcnet::text::to_decimal;

fn ip(s: &str) -> IpAddr {
    let net: ipnet::IpNet = s.parse().unwrap();
    match net {
        ipnet::IpNet::V4(n) => IpAddr::V4(n.addr().into()),
        ipnet::IpNet::V6(n) => IpAddr::V6(n.addr().into()),
    }
}

fn prefix_len(addr: &str, mask: SocketAddr) -> u8 {
    let addr: ipnet::IpNet = addr.parse().unwrap();
    let mask = match mask {
        SocketAddr::V4(a) => ipnet::Ipv4Net::new(a.ip.into(), 32).unwrap().addr().into(),
        SocketAddr::V6(a) => ipnet::Ipv6Net::new(a.ip.into(), 128).unwrap().addr().into(),
    };
    ipnet::IpNet::with_netmask(addr.addr(), mask)
        .unwrap()
        .prefix_len()
}

// The mask is the on-link prefix length written out, and the length can be read back off it -
// both ends of the range included, where the shift would overflow.
#[test]
fn masks_round_trip_the_prefix_length() {
    assert_eq!(v6_mask(0).ip(), ip("::/128"));
    assert_eq!(v6_mask(64).ip(), ip("ffff:ffff:ffff:ffff::/128"));
    assert_eq!(
        v6_mask(127).ip(),
        ip("ffff:ffff:ffff:ffff:ffff:ffff:ffff:fffe/128")
    );
    assert_eq!(v6_mask(128).ip(), IpAddr::V6(u128::MAX));
    assert_eq!(v4_mask(0).ip(), ip("0.0.0.0/32"));
    assert_eq!(v4_mask(24).ip(), ip("255.255.255.0/32"));
    assert_eq!(v4_mask(32).ip(), ip("255.255.255.255/32"));
    for len in [0u8, 1, 48, 64, 127, 128] {
        assert_eq!(prefix_len("2001:db8::1/128", v6_mask(len)), len);
    }
    for len in [0u8, 8, 24, 32] {
        assert_eq!(prefix_len("192.0.2.1/32", v4_mask(len)), len);
    }
}

#[test]
fn masks_of_overlong_prefixes_are_full() {
    assert_eq!(v4_mask(33), v4_mask(32));
    assert_eq!(v4_mask(255), v4_mask(32));
    assert_eq!(v6_mask(129), v6_mask(128));
    assert_eq!(v6_mask(255), v6_mask(128));
}

fn sockaddr_in(octets: [u8; 4]) -> Vec<u8> {
    let mut b = vec![2, 0, 0x1f, 0x90];
    b.extend_from_slice(&octets);
    b.extend_from_slice(&[0; 8]);
    b
}

fn sockaddr_in6(flowinfo: u32, bits: u128, scope_id: u32) -> Vec<u8> {
    let mut b = vec![23, 0, 0x1f, 0x90];
    b.extend_from_slice(&flowinfo.to_le_bytes());
    b.extend_from_slice(&bits.to_be_bytes());
    b.extend_from_slice(&scope_id.to_le_bytes());
    b
}

fn record(address: Vec<u8>, on_link_prefix_length: u8) -> IpAdapterUnicastAddress {
    IpAdapterUnicastAddress {
        length: 64,
        address,
        dad_state: IpDadState::IpDadStatePreferred,
        on_link_prefix_length,
    }
}

#[test]
fn socket_addresses_are_read_in_wire_order() {
    let r = record(sockaddr_in([192, 0, 2, 7]), 24);
    assert!(is_ipv4_enabled(&r));
    assert!(!is_ipv6_enabled(&r));
    assert_eq!(
        v4_socket_from_adapter(&r),
        SocketAddrV4 {
            ip: 0xc000_0207,
            port: 0
        }
    );
    let r = record(sockaddr_in6(0x0102_0304, 0x2001_0db8 << 96 | 9, 5), 64);
    assert!(is_ipv6_enabled(&r));
    assert!(!is_ipv4_enabled(&r));
    assert_eq!(
        v6_socket_from_adapter(&r),
        SocketAddrV6 {
            ip: 0x2001_0db8 << 96 | 9,
            port: 0,
            flowinfo: 0x0102_0304,
            scope_id: 5
        }
    );
}

#[test]
fn a_record_of_no_size_has_no_family() {
    let mut r = record(sockaddr_in([192, 0, 2, 7]), 24);
    r.length = 0;
    assert!(!is_ipv4_enabled(&r));
    assert!(!is_ipv6_enabled(&r));
}

fn adapter(name: Option<&[u8]>, records: Vec<IpAdapterUnicastAddress>) -> IpAdapterAddresses {
    IpAdapterAddresses {
        adapter_name: name.map(|n| n.to_vec()),
        ipv6_if_index: 17,
        unicast_addresses: records,
    }
}

#[test]
fn usable_addresses_are_listed_under_their_adapter() {
    let mut deprecated = record(sockaddr_in([192, 0, 2, 8]), 24);
    deprecated.dad_state = IpDadState::IpDadStateDeprecated;
    let mut tentative = record(sockaddr_in([192, 0, 2, 9]), 25);
    tentative.dad_state = IpDadState::IpDadStateTentative;
    let other = record(vec![17, 0], 0);
    let list = map_adapter_addresses(&[
        adapter(
            Some(b"{eth}"),
            vec![
                record(sockaddr_in([192, 0, 2, 7]), 24),
                deprecated,
                other,
                record(sockaddr_in6(3, 0xfe80 << 112 | 1, 99), 64),
            ],
        ),
        adapter(None, vec![tentative]),
        adapter(Some(b"empty"), vec![]),
    ]);
    assert_eq!(list.len(), 3);

    assert_eq!(list[0].name, "{eth}");
    assert_eq!(list[0].kind, Kind::Ipv4);
    assert_eq!(list[0].addr.unwrap().ip(), ip("192.0.2.7/32"));
    assert_eq!(list[0].addr.unwrap().port(), 0);
    assert_eq!(list[0].mask, Some(v4_mask(24)));
    assert_eq!(list[0].hop, None);

    assert_eq!(list[1].name, "{eth}");
    assert_eq!(list[1].kind, Kind::Ipv6);
    assert_eq!(
        list[1].addr,
        Some(SocketAddr::V6(SocketAddrV6 {
            ip: 0xfe80 << 112 | 1,
            port: 0,
            flowinfo: 3,
            scope_id: 17
        }))
    );
    assert_eq!(list[1].mask, Some(v6_mask(64)));

    assert_eq!(list[2].name, "17");
    assert_eq!(list[2].addr.unwrap().ip(), ip("192.0.2.9/32"));
    assert_eq!(list[2].mask, Some(v4_mask(25)));
    assert!(map_adapter_addresses(&[]).is_empty());
}

#[test]
fn names_are_read_as_text_where_they_can_be() {
    assert_eq!(adapter_name(&adapter(Some("Käfer".as_bytes()), vec![])), "Käfer");
    assert_eq!(adapter_name(&adapter(Some(b"a\xffb"), vec![])), "a\u{fffd}b");
    assert_eq!(adapter_name(&adapter(Some(b""), vec![])), "");
    assert_eq!(adapter_name(&adapter(None, vec![])), "17");
    assert_ne!(
        adapter_name(&adapter(Some(b"{eth}"), vec![])),
        adapter_name(&adapter(Some(b"{wlan}"), vec![]))
    );
}

#[test]
fn return_codes_lead_to_the_next_step() {
    assert!(matches!(
        local_ifaces_with_buffer(ERROR_SUCCESS, 5),
        BufferStep::Ready
    ));
    assert!(matches!(
        local_ifaces_with_buffer(ERROR_BUFFER_OVERFLOW, 20000),
        BufferStep::Grow(20000)
    ));
    let failures = [
        (
            ERROR_ADDRESS_NOT_ASSOCIATED,
            ErrorKind::AddrNotAvailable,
            "An address has not yet been associated with the network endpoint.",
        ),
        (
            ERROR_INVALID_PARAMETER,
            ErrorKind::InvalidInput,
            "One of the parameters is invalid.",
        ),
        (
            ERROR_NOT_ENOUGH_MEMORY,
            ErrorKind::Other,
            "Insufficient memory resources are available to complete the operation.",
        ),
        (
            ERROR_NO_DATA,
            ErrorKind::AddrNotAvailable,
            "No addresses were found for the requested parameters.",
        ),
        (5, ErrorKind::Other, "Some Other Error Occurred."),
    ];
    for (code, want_kind, want_text) in failures {
        match local_ifaces_with_buffer(code, 0) {
            BufferStep::Failed(kind, text) => {
                assert_eq!(kind, want_kind);
                assert_eq!(text, want_text);
            }
            other => panic!("{code}: {other:?}"),
        }
    }
}

#[test]
fn codes_are_the_systems_own() {
    assert_eq!(
        IpPrefixOrigin::from_code(16),
        Some(IpPrefixOrigin::IpPrefixOriginUnchanged)
    );
    assert_eq!(IpPrefixOrigin::from_code(5), None);
    assert_eq!(
        IpSuffixOrigin::from_code(5),
        Some(IpSuffixOrigin::IpSuffixOriginRandom)
    );
    assert_eq!(IpSuffixOrigin::from_code(6), None);
    assert_eq!(
        IpDadState::from_code(3),
        Some(IpDadState::IpDadStateDeprecated)
    );
    assert_eq!(IpDadState::from_code(5), None);
    assert_eq!(
        IfOperStatus::from_code(7),
        Some(IfOperStatus::IfOperStatusLowerLayerDown)
    );
    assert_eq!(IfOperStatus::from_code(0), None);
    assert_eq!(
        NetIfConnectionType::from_code(1),
        Some(NetIfConnectionType::NetIfConnectionDedicated)
    );
    assert_eq!(NetIfConnectionType::from_code(5), None);
    assert_eq!(TunnelType::from_code(11), Some(TunnelType::TunnelType6To4));
    assert_eq!(TunnelType::from_code(12), None);
}

#[test]
fn numbers_are_read_from_bytes() {
    let b = [1, 2, 3, 4, 5];
    assert_eq!(read_le16(&b, 1), 0x0302);
    assert_eq!(read_le32(&b, 1), 0x0504_0302);
    assert_eq!(read_be(&b, 0, 4), 0x0102_0304);
    assert_eq!(read_be(&b, 5, 0), 0);
    assert_eq!(read_be(&[0xff; 16], 0, 16), u128::MAX);
}

#[test]
fn numbers_are_written_in_decimal() {
    assert_eq!(to_decimal(0), "0");
    assert_eq!(to_decimal(10), "10");
    assert_eq!(to_decimal(u32::MAX), "4294967295");
}

use rtcnet::addr::{IpAddr, IpNet, Ipv4Net, Ipv6Net, NetworkType};
use rtcnet::interfaces::{local_interfaces_with, Interface, IpSet, Request};
use rtcnet::prefixes::{ipv6_one_per_prefix, ipv6_probe_target, ipv6_source, keep_one};
use std::collections::HashSet;

fn v6(s: &str) -> u128 {
    let net: ipnet::Ipv6Net = format!("{s}/128").parse().unwrap();
    net.addr().into()
}

fn v4(s: &str) -> u32 {
    let net: ipnet::Ipv4Net = format!("{s}/32").parse().unwrap();
    net.addr().into()
}

fn nets(list: &[&str]) -> Vec<IpNet> {
    list.iter()
        .map(|s| match s.parse::<ipnet::IpNet>().unwrap() {
            ipnet::IpNet::V4(n) => IpNet::V4(Ipv4Net {
                addr: n.addr().into(),
                prefix_len: n.prefix_len(),
            }),
            ipnet::IpNet::V6(n) => IpNet::V6(Ipv6Net {
                addr: n.addr().into(),
                prefix_len: n.prefix_len(),
            }),
        })
        .collect()
}

fn interface(name: &str, addrs: &[&str]) -> Interface {
    Interface {
        name: name.to_owned(),
        addrs: nets(addrs),
    }
}

// No filter of either kind, in the types that the gathering takes.
type NameFilter = fn(&str) -> bool;
type IpFilter = fn(IpAddr) -> bool;

const NO_NAME_FILTER: Option<NameFilter> = None;
const NO_IP_FILTER: Option<IpFilter> = None;

// One interface, one /64, a stable and a temporary address: only the one the OS sends from
// is kept, and the OS is asked, not the enumeration order.
#[test]
fn test_ipv6_one_per_prefix_keeps_the_address_the_os_sends_from() {
    let temporary = v6("2001:db8:1::a1b2:c3d4:e5f6:708");
    let kept = ipv6_one_per_prefix(
        &nets(&["2001:db8:1::1/64", "2001:db8:1::a1b2:c3d4:e5f6:708/64"]),
        &|members: &[u128]| {
            assert_eq!(members.len(), 2);
            Some(temporary)
        },
    );
    assert_eq!(kept, HashSet::from([temporary]));
}

// Every other prefix keeps its address, and the OS is only asked about a group of more than
// one: a second /64, a unique-local one, and the /128s a tunnel hands out, which are prefixes
// of their own even when their first 64 bits agree.
#[test]
fn test_ipv6_one_per_prefix_keeps_every_other_prefix() {
    let kept = ipv6_one_per_prefix(
        &nets(&[
            "2001:db8:1::1/64",
            "2001:db8:2::1/64",
            "fd7a:115c::1/64",
            "2001:db8:9::1/128",
            "2001:db8:9::2/128",
        ]),
        &|_: &[u128]| -> Option<u128> { panic!("no group has more than one address") },
    );
    let want = [
        "2001:db8:1::1",
        "2001:db8:2::1",
        "fd7a:115c::1",
        "2001:db8:9::1",
        "2001:db8:9::2",
    ];
    assert_eq!(kept, want.iter().map(|a| v6(a)).collect());
}

// When the OS cannot be asked, or names an address outside the group, the first stands.
#[test]
fn test_ipv6_one_per_prefix_falls_back_to_the_first() {
    let addrs = nets(&["2001:db8:1::1/64", "2001:db8:1::2/64"]);
    let first = HashSet::from([v6("2001:db8:1::1")]);
    assert_eq!(ipv6_one_per_prefix(&addrs, &|_: &[u128]| None), first);
    assert_eq!(
        ipv6_one_per_prefix(&addrs, &|_: &[u128]| Some(v6("2001:db8:9::9"))),
        first
    );
}

// Link-local addresses are not grouped, so the OS is never asked about them; IPv4 is not
// this function's business; and nothing comes of nothing.
#[test]
fn test_ipv6_one_per_prefix_leaves_link_local_and_ipv4_alone() {
    let kept = ipv6_one_per_prefix(
        &nets(&["fe80::1/64", "fe80::2/64", "192.0.2.1/24"]),
        &|_: &[u128]| -> Option<u128> { panic!("link-local is not a group") },
    );
    assert_eq!(kept, HashSet::from([v6("fe80::1"), v6("fe80::2")]));
    assert!(ipv6_one_per_prefix(&[], &|_: &[u128]| None).is_empty());
}

// The choice is made among the addresses the filters let through: a filter that refuses the
// address the OS would pick must leave the prefix its other address, not none. The synthetic
// prefix has no route, so the pick falls back to the first address, the refused one.
#[test]
fn test_local_interfaces_chooses_among_what_the_filter_allows() {
    let allowed = v6("2001:db8:7::2");
    let ips = local_interfaces_with(
        &[interface("eth0", &["2001:db8:7::1/64", "2001:db8:7::2/64"])],
        &NO_NAME_FILTER,
        &Some(move |ip: IpAddr| ip == IpAddr::V6(allowed)),
        &[NetworkType::Udp6],
        false,
        &|_: &[u128]| None,
    );
    assert_eq!(ips.v6, HashSet::from([allowed]));
    assert!(ips.v4.is_empty());
}

fn gather(include_loopback: bool) -> IpSet {
    local_interfaces_with(
        &[
            interface("lo", &["127.0.0.1/8", "::1/128"]),
            interface(
                "eth0",
                &["192.0.2.7/24", "2001:db8:1::1/64", "2001:db8:1::2/64", "fe80::7/64"],
            ),
        ],
        &NO_NAME_FILTER,
        &NO_IP_FILTER,
        &[NetworkType::Udp4, NetworkType::Udp6],
        include_loopback,
        &|members: &[u128]| members.last().copied(),
    )
}

fn any_loopback(ips: &IpSet) -> bool {
    ips.v4.iter().any(|a| IpAddr::V4(*a).is_loopback())
        || ips.v6.iter().any(|a| IpAddr::V6(*a).is_loopback())
}

#[test]
fn test_local_interfaces() {
    let ips = gather(false);
    let ips_with_loopback = gather(true);
    assert!(ips_with_loopback.v4.is_superset(&ips.v4));
    assert!(ips_with_loopback.v6.is_superset(&ips.v6));
    assert!(!any_loopback(&ips));
    assert!(any_loopback(&ips_with_loopback));

    assert_eq!(ips.v4, HashSet::from([v4("192.0.2.7")]));
    assert_eq!(ips.v6, HashSet::from([v6("2001:db8:1::2"), v6("fe80::7")]));
    assert!(ips_with_loopback.contains(IpAddr::V4(v4("127.0.0.1"))));
    assert!(ips_with_loopback.contains(IpAddr::V6(1)));
}

#[test]
fn a_refused_interface_contributes_nothing_and_is_not_asked_about() {
    let ips = local_interfaces_with(
        &[
            interface("docker0", &["172.17.0.1/16", "2001:db8:5::1/64", "2001:db8:5::2/64"]),
            interface("eth0", &["192.0.2.7/24"]),
        ],
        &Some(|name: &str| name != "docker0"),
        &Some(|ip: IpAddr| {
            assert_eq!(ip, IpAddr::V4(0xc000_0207));
            true
        }),
        &[NetworkType::Tcp4, NetworkType::Tcp6],
        false,
        &|_: &[u128]| -> Option<u128> { panic!("the interface was refused") },
    );
    assert_eq!(ips.v4, HashSet::from([v4("192.0.2.7")]));
    assert!(ips.v6.is_empty());
}

#[test]
fn only_the_requested_families_are_gathered() {
    let list = [interface("eth0", &["192.0.2.7/24", "2001:db8:1::1/64"])];
    let of = |types: &[NetworkType]| {
        let ips = local_interfaces_with(
            &list,
            &NO_NAME_FILTER,
            &NO_IP_FILTER,
            types,
            false,
            &|_: &[u128]| None,
        );
        (ips.v4.len(), ips.v6.len())
    };
    assert_eq!(of(&[NetworkType::Udp4]), (1, 0));
    assert_eq!(of(&[NetworkType::Tcp6]), (0, 1));
    assert_eq!(of(&[NetworkType::Udp6, NetworkType::Tcp4]), (1, 1));
    assert_eq!(of(&[]), (0, 0));
}

// The loopback address could win its prefix if it shared one: then asking for it takes another
// away.
#[test]
fn a_loopback_address_in_a_shared_prefix_may_displace_another() {
    let list = [interface("lo", &["::1/64", "::2/64"])];
    let of = |include_loopback: bool| {
        local_interfaces_with(
            &list,
            &NO_NAME_FILTER,
            &NO_IP_FILTER,
            &[NetworkType::Udp6],
            include_loopback,
            &|_: &[u128]| Some(1),
        )
        .v6
    };
    assert_eq!(of(false), HashSet::from([2]));
    assert_eq!(of(true), HashSet::from([1]));
}

#[test]
fn a_loopback_address_alone_in_a_short_prefix_is_added() {
    let list = [interface("lo", &["::1/64", "2001:db8::1/64"])];
    let of = |include_loopback: bool| {
        local_interfaces_with(
            &list,
            &NO_NAME_FILTER,
            &NO_IP_FILTER,
            &[NetworkType::Udp6],
            include_loopback,
            &|_: &[u128]| None,
        )
        .v6
    };
    assert_eq!(of(false), HashSet::from([v6("2001:db8::1")]));
    assert_eq!(of(true), HashSet::from([1, v6("2001:db8::1")]));
}

#[test]
fn only_what_the_filters_allow_is_asked_about() {
    let refused = v6("2001:db8:7::1");
    let asked = std::cell::Cell::new(0);
    local_interfaces_with(
        &[interface(
            "eth0",
            &["2001:db8:7::1/64", "2001:db8:7::2/64", "2001:db8:7::3/64", "fe80::1/64"],
        )],
        &NO_NAME_FILTER,
        &Some(move |ip: IpAddr| ip != IpAddr::V6(refused)),
        &[NetworkType::Udp6],
        false,
        &|members: &[u128]| {
            asked.set(asked.get() + 1);
            assert_eq!(members, [v6("2001:db8:7::2"), v6("2001:db8:7::3")]);
            None
        },
    );
    assert_eq!(asked.get(), 1);
}

#[test]
fn prefixes_shorter_than_64_are_grouped_by_their_network() {
    let kept = ipv6_one_per_prefix(
        &nets(&[
            "2001:db8:1:1::1/48",
            "2001:db8:1:2::1/48",
            "2001:db8:2::1/48",
            "2001:db8:1:3::1/64",
        ]),
        &|members: &[u128]| {
            assert_eq!(members, [v6("2001:db8:1:1::1"), v6("2001:db8:1:2::1")]);
            Some(members[1])
        },
    );
    let want = ["2001:db8:1:2::1", "2001:db8:2::1", "2001:db8:1:3::1"];
    assert_eq!(kept, want.iter().map(|a| v6(a)).collect());
}

#[test]
fn a_prefix_of_length_zero_holds_every_address() {
    let kept = ipv6_one_per_prefix(
        &nets(&["2001:db8::1/0", "fd00::1/0"]),
        &|members: &[u128]| Some(members[1]),
    );
    assert_eq!(kept, HashSet::from([v6("fd00::1")]));
}

#[test]
fn one_address_of_a_group_is_kept() {
    assert_eq!(keep_one(&[5, 6, 7], Some(7)), 7);
    assert_eq!(keep_one(&[5, 6, 7], Some(8)), 5);
    assert_eq!(keep_one(&[5, 6, 7], None), 5);
    assert_eq!(keep_one(&[5], Some(5)), 5);
}

#[test]
fn the_probe_target_is_the_first_flip_off_the_list() {
    let a = v6("2001:db8::10");
    assert_eq!(ipv6_probe_target(&[a]), Some(a ^ 1));
    assert_eq!(ipv6_probe_target(&[a, a ^ 1]), Some(a ^ 2));
    assert_eq!(ipv6_probe_target(&[a, a ^ 2, a ^ 1]), Some(a ^ 4));
    assert_eq!(ipv6_probe_target(&[]), None);
    let mut all = vec![a];
    for bit in 0..64 {
        all.push(a ^ (1u128 << bit));
    }
    assert_eq!(ipv6_probe_target(&all), None);
    all.pop();
    assert_eq!(ipv6_probe_target(&all), Some(a ^ (1u128 << 63)));
}

#[test]
fn the_source_is_an_ipv6_one_or_none() {
    assert_eq!(ipv6_source(IpAddr::V6(7)), Some(7));
    assert_eq!(ipv6_source(IpAddr::V4(7)), None);
}

#[test]
fn loopback_addresses_are_told_apart() {
    assert!(IpAddr::V4(v4("127.255.255.255")).is_loopback());
    assert!(!IpAddr::V4(v4("128.0.0.0")).is_loopback());
    assert!(!IpAddr::V4(v4("126.255.255.255")).is_loopback());
    assert!(IpAddr::V6(v6("::1")).is_loopback());
    assert!(!IpAddr::V6(v6("::2")).is_loopback());
    let request = Request::new(&[NetworkType::Udp4], false);
    assert!(request.is_wanted(IpAddr::V4(v4("192.0.2.1"))));
    assert!(!request.is_wanted(IpAddr::V4(v4("127.0.0.1"))));
    assert!(!request.is_wanted(IpAddr::V6(2)));
}

#[test]
fn link_local_ends_at_febf() {
    let kept = ipv6_one_per_prefix(
        &nets(&["febf:ffff::1/10", "fe80::1/10", "fec0::1/10", "fec0::2/10"]),
        &|members: &[u128]| {
            assert_eq!(members.len(), 2);
            Some(v6("fec0::2"))
        },
    );
    let want = ["febf:ffff::1", "fe80::1", "fec0::2"];
    assert_eq!(kept, want.iter().map(|a| v6(a)).collect());
}

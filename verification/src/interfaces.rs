//! Which local addresses become host candidates.

use crate::addr::{network_of, IpAddr, IpNet, Ipv6Net, NetworkType};
use crate::prefixes::{
    addr_in_group, all_answered, chosen, ipv6_one_per_prefix, law_each_prefix_keeps_one,
    law_groups_share_a_prefix, law_kept_addresses_are_listed, lemma_listed_is_member,
    lemma_member_is_listed, lemma_members_push, link_local, listed_once, members, one_per_prefix,
    prefix_key, Picks,
};
use std::collections::HashSet;
use vstd::prelude::*;

verus! {

/// A network interface: its name and the addresses configured on it.
pub struct Interface {
    pub name: String,
    pub addrs: Vec<IpNet>,
}

/// Which kinds of address are asked for.
#[derive(Clone, Copy, Debug, PartialEq, Eq, Structural)]
pub struct Request {
    pub ipv4: bool,
    pub ipv6: bool,
    pub include_loopback: bool,
}

impl Request {
    pub open spec fn wants(self, ip: IpAddr) -> bool {
        &&& !ip.loopback() || self.include_loopback
        &&& (self.ipv4 && ip is V4) || (self.ipv6 && ip is V6)
    }

    /// The families that `network_types` name.
    pub open spec fn of(network_types: Seq<NetworkType>, include_loopback: bool) -> Request {
        Request {
            ipv4: exists|i: int|
                0 <= i < network_types.len() && (#[trigger] network_types[i]).ipv4(),
            ipv6: exists|i: int|
                0 <= i < network_types.len() && (#[trigger] network_types[i]).ipv6(),
            include_loopback,
        }
    }

    pub fn new(network_types: &[NetworkType], include_loopback: bool) -> (r: Request)
        ensures
            r == Request::of(network_types@, include_loopback),
    {
        let mut ipv4 = false;
        let mut ipv6 = false;
        for i in 0..network_types.len()
            invariant
                ipv4 == exists|j: int| 0 <= j < i && (#[trigger] network_types@[j]).ipv4(),
                ipv6 == exists|j: int| 0 <= j < i && (#[trigger] network_types@[j]).ipv6(),
        {
            if network_types[i].is_ipv4() {
                assert(network_types@[i as int].ipv4());
                ipv4 = true;
            }
            if network_types[i].is_ipv6() {
                assert(network_types@[i as int].ipv6());
                ipv6 = true;
            }
        }
        Request { ipv4, ipv6, include_loopback }
    }

    pub fn is_wanted(&self, ip: IpAddr) -> (r: bool)
        ensures
            r == self.wants(ip),
    {
        (!ip.is_loopback() || self.include_loopback) && ((self.ipv4 && ip.is_ipv4()) || (self.ipv6
            && ip.is_ipv6()))
    }
}

/// A set of IP addresses.
#[derive(Debug)]
pub struct IpSet {
    pub v4: HashSet<u32>,
    pub v6: HashSet<u128>,
}

impl View for IpSet {
    type V = Set<IpAddr>;

    open spec fn view(&self) -> Set<IpAddr> {
        Set::new(
            |ip: IpAddr|
                match ip {
                    IpAddr::V4(bits) => self.v4@.contains(bits),
                    IpAddr::V6(bits) => self.v6@.contains(bits),
                },
        )
    }
}

impl IpSet {
    pub fn new() -> (r: IpSet)
        ensures
            r@ == Set::<IpAddr>::empty(),
    {
        let r = IpSet { v4: HashSet::new(), v6: HashSet::new() };
        assert(r@ =~= Set::<IpAddr>::empty());
        r
    }

    pub fn insert(&mut self, ip: IpAddr)
        ensures
            final(self)@ == old(self)@.insert(ip),
    {
        match ip {
            IpAddr::V4(bits) => {
                self.v4.insert(bits);
            },
            IpAddr::V6(bits) => {
                self.v6.insert(bits);
            },
        }
        assert(self@ =~= old(self)@.insert(ip));
    }

    pub fn contains(&self, ip: IpAddr) -> (r: bool)
        ensures
            r == self@.contains(ip),
    {
        match ip {
            IpAddr::V4(bits) => self.v4.contains(&bits),
            IpAddr::V6(bits) => self.v6.contains(&bits),
        }
    }
}

/// The addresses of one interface that are asked for and that the address filter allows, where
/// `allowed[i]` is the filter's verdict on the `i`-th.
pub open spec fn eligible(nets: Seq<IpNet>, allowed: Seq<bool>, request: Request) -> Seq<IpNet>
    decreases nets.len(),
{
    if nets.len() == 0 {
        Seq::empty()
    } else {
        let rest = eligible(nets.drop_last(), allowed, request);
        if request.wants(nets.last().ip()) && allowed[nets.len() - 1] {
            rest.push(nets.last())
        } else {
            rest
        }
    }
}

/// What was answered about one interface: whether its name is allowed, which of its addresses
/// are, and what `pick` said about its prefixes.
pub struct Verdicts {
    pub name: bool,
    pub addrs: Seq<bool>,
    pub picks: Picks,
}

/// The addresses that one interface contributes under the verdicts on it.
pub open spec fn offered(nets: Seq<IpNet>, request: Request, verdicts: Verdicts) -> Set<IpAddr> {
    let listed = eligible(nets, verdicts.addrs, request);
    Set::new(
        |ip: IpAddr|
            verdicts.name && match ip {
                IpAddr::V4(_) => exists|i: int|
                    0 <= i < listed.len() && (#[trigger] listed[i]).ip() == ip,
                IpAddr::V6(bits) => one_per_prefix(listed, verdicts.picks).contains(bits),
            },
    )
}

/// The addresses that all interfaces contribute together.
pub open spec fn gathered(
    interfaces: Seq<Interface>,
    request: Request,
    verdicts: Seq<Verdicts>,
) -> Set<IpAddr> {
    Set::new(
        |ip: IpAddr|
            exists|n: int|
                0 <= n < interfaces.len() && offered(
                    (#[trigger] interfaces[n]).addrs@,
                    request,
                    verdicts[n],
                ).contains(ip),
    )
}

/// `verdict` is what the name filter, if there is one, may say about `name`.
pub open spec fn name_verdict<N: Fn(&str) -> bool>(
    filter: Option<N>,
    name: Seq<char>,
    verdict: bool,
) -> bool {
    match filter {
        Some(f) => exists|s: &str| s@ == name && #[trigger] call_ensures(f, (s,), verdict),
        None => verdict,
    }
}

/// `verdict` is what the address filter, if there is one, may say about `ip`.
pub open spec fn ip_verdict<A: Fn(IpAddr) -> bool>(
    filter: Option<A>,
    ip: IpAddr,
    verdict: bool,
) -> bool {
    match filter {
        Some(f) => call_ensures(f, (ip,), verdict),
        None => verdict,
    }
}

/// `allowed` are what the address filter may say about the addresses of an interface, as far as
/// they are asked for.
pub open spec fn may_allow<A: Fn(IpAddr) -> bool>(
    filter: Option<A>,
    nets: Seq<IpNet>,
    request: Request,
    allowed: Seq<bool>,
) -> bool {
    &&& allowed.len() == nets.len()
    &&& forall|i: int|
        0 <= i < nets.len() && request.wants((#[trigger] nets[i]).ip()) ==> ip_verdict(
            filter,
            nets[i].ip(),
            allowed[i],
        )
}

/// `verdicts` are what the two filters and `pick` may say about one interface. Nobody is asked
/// about an address that is not asked for, nor about anything of an interface that is left out.
pub open spec fn heard<
    N: Fn(&str) -> bool,
    A: Fn(IpAddr) -> bool,
    P: Fn(&[u128]) -> Option<u128>,
>(
    name_filter: Option<N>,
    ip_filter: Option<A>,
    pick: &P,
    interface: Interface,
    request: Request,
    verdicts: Verdicts,
) -> bool {
    &&& name_verdict(name_filter, interface.name@, verdicts.name)
    &&& verdicts.name ==> {
        &&& may_allow(ip_filter, interface.addrs@, request, verdicts.addrs)
        &&& all_answered(
            pick,
            eligible(interface.addrs@, verdicts.addrs, request),
            verdicts.picks,
        )
    }
}

/// `verdicts` are what the two filters and `pick` may say about the interfaces, one by one.
pub open spec fn all_heard<
    N: Fn(&str) -> bool,
    A: Fn(IpAddr) -> bool,
    P: Fn(&[u128]) -> Option<u128>,
>(
    name_filter: Option<N>,
    ip_filter: Option<A>,
    pick: &P,
    interfaces: Seq<Interface>,
    request: Request,
    verdicts: Seq<Verdicts>,
) -> bool {
    &&& verdicts.len() == interfaces.len()
    &&& forall|n: int|
        0 <= n < interfaces.len() ==> heard(
            name_filter,
            ip_filter,
            pick,
            interfaces[n],
            request,
            #[trigger] verdicts[n],
        )
}

/// The filters and `pick` can be called on everything that one interface may have them called
/// on. `pick` sees nothing of an interface whose name is refused, and of others only groups of
/// addresses that are asked for and that the address filter lets through.
pub open spec fn callable<
    N: Fn(&str) -> bool,
    A: Fn(IpAddr) -> bool,
    P: Fn(&[u128]) -> Option<u128>,
>(
    name_filter: Option<N>,
    ip_filter: Option<A>,
    pick: &P,
    interface: Interface,
    request: Request,
) -> bool {
    &&& name_filter matches Some(f) ==> forall|s: &str|
        s@ == interface.name@ ==> #[trigger] call_requires(f, (s,))
    &&& ip_filter matches Some(f) ==> forall|i: int|
        0 <= i < interface.addrs@.len() && request.wants((#[trigger] interface.addrs@[i]).ip())
            ==> call_requires(f, (interface.addrs@[i].ip(),))
    &&& name_verdict(name_filter, interface.name@, true) ==> forall|
        s: &[u128],
        allowed: Seq<bool>,
        key: (u128, u8),
    |
        may_allow(ip_filter, interface.addrs@, request, allowed) && s@.len() >= 2 && s@
            == #[trigger] members(eligible(interface.addrs@, allowed, request), key)
            ==> #[trigger] call_requires(*pick, (s,))
}

proof fn lemma_eligible_step(nets: Seq<IpNet>, allowed: Seq<bool>, request: Request, i: int)
    requires
        0 <= i < nets.len(),
    ensures
        eligible(nets.take(i + 1), allowed, request) == if request.wants(nets[i].ip())
            && allowed[i] {
            eligible(nets.take(i), allowed, request).push(nets[i])
        } else {
            eligible(nets.take(i), allowed, request)
        },
{
    assert(nets.take(i + 1).drop_last() =~= nets.take(i));
}

/// Of `nets`, looked at up to `n`, the verdicts past `n` do not matter.
proof fn lemma_eligible_prefix(
    nets: Seq<IpNet>,
    allowed: Seq<bool>,
    longer: Seq<bool>,
    request: Request,
)
    requires
        nets.len() <= allowed.len() <= longer.len(),
        forall|i: int| 0 <= i < nets.len() ==> allowed[i] == longer[i],
    ensures
        eligible(nets, allowed, request) == eligible(nets, longer, request),
    decreases nets.len(),
{
    if nets.len() > 0 {
        lemma_eligible_prefix(nets.drop_last(), allowed, longer, request);
    }
}

/// The addresses of an interface that are asked for and allowed, with the verdicts that made
/// them so.
fn list_eligible<A: Fn(IpAddr) -> bool>(
    nets: &[IpNet],
    ip_filter: &Option<A>,
    request: Request,
) -> (r: (Vec<IpNet>, Ghost<Seq<bool>>))
    requires
        ip_filter matches Some(f) ==> forall|i: int|
            0 <= i < nets@.len() && request.wants((#[trigger] nets@[i]).ip()) ==> call_requires(
                f,
                (nets@[i].ip(),),
            ),
    ensures
        r.1@.len() == nets@.len(),
        forall|i: int|
            0 <= i < nets@.len() && request.wants((#[trigger] nets@[i]).ip()) ==> ip_verdict(
                *ip_filter,
                nets@[i].ip(),
                r.1@[i],
            ),
        r.0@ == eligible(nets@, r.1@, request),
{
    let mut list: Vec<IpNet> = Vec::new();
    let ghost mut allowed: Seq<bool> = Seq::empty();
    assert(nets@.take(0) =~= Seq::<IpNet>::empty());
    for i in 0..nets.len()
        invariant
            ip_filter matches Some(f) ==> forall|i: int|
                0 <= i < nets@.len() && request.wants((#[trigger] nets@[i]).ip())
                    ==> call_requires(f, (nets@[i].ip(),)),
            allowed.len() == i,
            forall|j: int|
                0 <= j < i && request.wants((#[trigger] nets@[j]).ip()) ==> ip_verdict(
                    *ip_filter,
                    nets@[j].ip(),
                    allowed[j],
                ),
            list@ == eligible(nets@.take(i as int), allowed, request),
    {
        let ip = nets[i].addr();
        let ghost before = allowed;
        let mut ok = false;
        if request.is_wanted(ip) {
            ok = match ip_filter {
                Some(filter) => filter(ip),
                None => true,
            };
            if ok {
                list.push(nets[i]);
            }
        }
        proof {
            allowed = allowed.push(ok);
            lemma_eligible_prefix(nets@.take(i as int), before, allowed, request);
            lemma_eligible_step(nets@, allowed, request, i as int);
        }
    }
    assert(nets@.take(nets@.len() as int) =~= nets@);
    (list, Ghost(allowed))
}

/// Adds what one interface contributes to `ips`, and gives the verdicts it went by.
fn add_interface<N: Fn(&str) -> bool, A: Fn(IpAddr) -> bool, P: Fn(&[u128]) -> Option<u128>>(
    ips: &mut IpSet,
    interface: &Interface,
    name_filter: &Option<N>,
    ip_filter: &Option<A>,
    request: Request,
    pick: &P,
) -> (verdicts: Ghost<Verdicts>)
    requires
        callable(*name_filter, *ip_filter, pick, *interface, request),
    ensures
        heard(*name_filter, *ip_filter, pick, *interface, request, verdicts@),
        final(ips)@ == old(ips)@.union(offered(interface.addrs@, request, verdicts@)),
{
    if let Some(filter) = name_filter {
        if !filter(interface.name.as_str()) {
            let ghost verdicts = Verdicts {
                name: false,
                addrs: Seq::empty(),
                picks: Map::empty(),
            };
            assert(ips@ =~= old(ips)@.union(offered(interface.addrs@, request, verdicts)));
            return Ghost(verdicts);
        }
    }
    let (listed, Ghost(allowed)) = list_eligible(interface.addrs.as_slice(), ip_filter, request);
    let kept = ipv6_one_per_prefix(listed.as_slice(), pick);
    let ghost picks = choose|picks: Picks| #[trigger]
        all_answered(pick, listed@, picks) && kept@ == one_per_prefix(listed@, picks);
    let ghost verdicts = Verdicts { name: true, addrs: allowed, picks };
    for i in 0..listed.len()
        invariant
            kept@ == one_per_prefix(listed@, picks),
            forall|ip: IpAddr| #[trigger]
                ips@.contains(ip) <==> {
                    ||| old(ips)@.contains(ip)
                    ||| exists|j: int|
                        0 <= j < i && (#[trigger] listed@[j]).ip() == ip && match ip {
                            IpAddr::V4(_) => true,
                            IpAddr::V6(bits) => kept@.contains(bits),
                        }
                },
    {
        let ip = listed[i].addr();
        let keep = match ip {
            IpAddr::V6(bits) => kept.contains(&bits),
            IpAddr::V4(_) => true,
        };
        let ghost before = ips@;
        if keep {
            ips.insert(ip);
        }
        assert(listed@[i as int].ip() == ip);
    }
    proof {
        let all = old(ips)@.union(offered(interface.addrs@, request, verdicts));
        assert forall|ip: IpAddr| ips@.contains(ip) <==> all.contains(ip) by {
            match ip {
                IpAddr::V4(_) => {},
                IpAddr::V6(bits) => {
                    if kept@.contains(bits) {
                        law_kept_addresses_are_listed(listed@, picks, bits);
                    }
                },
            }
        }
        assert(ips@ =~= all);
    }
    Ghost(verdicts)
}

/// The addresses of `interfaces` that become host candidates.
///
/// An interface whose name the name filter refuses is left out. Of the others the addresses of
/// the requested families count, loopback ones only on request, and only those the address filter
/// allows. Among what the filters let through, an interface's IPv6 addresses are thinned to one
/// per prefix with `pick`: asked among all of them, it could name an address that a filter
/// refuses, and the prefix would be left with none.
pub fn local_interfaces_with<
    N: Fn(&str) -> bool,
    A: Fn(IpAddr) -> bool,
    P: Fn(&[u128]) -> Option<u128>,
>(
    interfaces: &[Interface],
    name_filter: &Option<N>,
    ip_filter: &Option<A>,
    network_types: &[NetworkType],
    include_loopback: bool,
    pick: &P,
) -> (ips: IpSet)
    requires
        forall|n: int|
            0 <= n < interfaces@.len() ==> callable(
                *name_filter,
                *ip_filter,
                pick,
                #[trigger] interfaces@[n],
                Request::of(network_types@, include_loopback),
            ),
    ensures
        exists|verdicts: Seq<Verdicts>| #[trigger]
            all_heard(
                *name_filter,
                *ip_filter,
                pick,
                interfaces@,
                Request::of(network_types@, include_loopback),
                verdicts,
            ) && ips@ == gathered(
                interfaces@,
                Request::of(network_types@, include_loopback),
                verdicts,
            ),
{
    let request = Request::new(network_types, include_loopback);
    let mut ips = IpSet::new();
    let ghost mut verdicts: Seq<Verdicts> = Seq::empty();
    for n in 0..interfaces.len()
        invariant
            request == Request::of(network_types@, include_loopback),
            forall|m: int|
                0 <= m < interfaces@.len() ==> callable(
                    *name_filter,
                    *ip_filter,
                    pick,
                    #[trigger] interfaces@[m],
                    request,
                ),
            verdicts.len() == n,
            forall|m: int|
                0 <= m < n ==> heard(
                    *name_filter,
                    *ip_filter,
                    pick,
                    interfaces@[m],
                    request,
                    #[trigger] verdicts[m],
                ),
            forall|ip: IpAddr| #[trigger]
                ips@.contains(ip) <==> exists|m: int|
                    0 <= m < n && offered(
                        (#[trigger] interfaces@[m]).addrs@,
                        request,
                        verdicts[m],
                    ).contains(ip),
    {
        let ghost before = ips@;
        let Ghost(verdict) = add_interface(
            &mut ips,
            &interfaces[n],
            name_filter,
            ip_filter,
            request,
            pick,
        );
        proof {
            let earlier = verdicts;
            verdicts = verdicts.push(verdict);
            assert forall|ip: IpAddr| #[trigger]
                ips@.contains(ip) <==> exists|m: int|
                    0 <= m < n + 1 && offered(
                        (#[trigger] interfaces@[m]).addrs@,
                        request,
                        verdicts[m],
                    ).contains(ip) by {
                if before.contains(ip) {
                    let m = choose|m: int|
                        0 <= m < n && offered(
                            (#[trigger] interfaces@[m]).addrs@,
                            request,
                            earlier[m],
                        ).contains(ip);
                    assert(verdicts[m] == earlier[m]);
                }
                if offered(interfaces@[n as int].addrs@, request, verdict).contains(ip) {
                    assert(verdicts[n as int] == verdict);
                }
                if exists|m: int|
                    0 <= m < n + 1 && offered(
                        (#[trigger] interfaces@[m]).addrs@,
                        request,
                        verdicts[m],
                    ).contains(ip) {
                    let m = choose|m: int|
                        0 <= m < n + 1 && offered(
                            (#[trigger] interfaces@[m]).addrs@,
                            request,
                            verdicts[m],
                        ).contains(ip);
                    if m < n {
                        assert(verdicts[m] == earlier[m]);
                    }
                }
            }
        }
    }
    proof {
        assert(all_heard(*name_filter, *ip_filter, pick, interfaces@, request, verdicts));
        assert(ips@ =~= gathered(interfaces@, request, verdicts));
    }
    ips
}

proof fn lemma_eligible_origin(nets: Seq<IpNet>, allowed: Seq<bool>, request: Request, k: int)
    requires
        0 <= k < eligible(nets, allowed, request).len(),
    ensures
        exists|i: int|
            0 <= i < nets.len() && #[trigger] nets[i] == eligible(nets, allowed, request)[k]
                && request.wants(nets[i].ip()) && allowed[i],
    decreases nets.len(),
{
    if nets.len() > 0 {
        let rest = nets.drop_last();
        let before = eligible(rest, allowed, request);
        if k < before.len() {
            lemma_eligible_origin(rest, allowed, request, k);
            let i = choose|i: int|
                0 <= i < rest.len() && #[trigger] rest[i] == before[k] && request.wants(
                    rest[i].ip(),
                ) && allowed[i];
            assert(nets[i] == rest[i]);
        } else {
            assert(nets[nets.len() - 1] == eligible(nets, allowed, request)[k]);
        }
    }
}

/// Every gathered address is configured on an interface whose name is allowed, is one that was
/// asked for, and has the address filter's consent.
pub proof fn law_gathered_only_what_filters_allow(
    interfaces: Seq<Interface>,
    request: Request,
    verdicts: Seq<Verdicts>,
    ip: IpAddr,
)
    requires
        gathered(interfaces, request, verdicts).contains(ip),
    ensures
        request.wants(ip),
        exists|n: int, i: int|
            0 <= n < interfaces.len() && verdicts[n].name && 0 <= i < interfaces[n].addrs@.len()
                && (#[trigger] interfaces[n].addrs@[i]).ip() == ip && verdicts[n].addrs[i],
{
    let n = choose|n: int|
        0 <= n < interfaces.len() && offered(
            (#[trigger] interfaces[n]).addrs@,
            request,
            verdicts[n],
        ).contains(ip);
    let nets = interfaces[n].addrs@;
    let listed = eligible(nets, verdicts[n].addrs, request);
    match ip {
        IpAddr::V4(_) => {},
        IpAddr::V6(bits) => {
            law_kept_addresses_are_listed(listed, verdicts[n].picks, bits);
        },
    }
    let k = choose|k: int| 0 <= k < listed.len() && (#[trigger] listed[k]).ip() == ip;
    lemma_eligible_origin(nets, verdicts[n].addrs, request, k);
    let i = choose|i: int|
        0 <= i < nets.len() && #[trigger] nets[i] == listed[k] && request.wants(nets[i].ip())
            && verdicts[n].addrs[i];
    assert(interfaces[n].addrs@[i].ip() == ip);
}

proof fn lemma_eligible_holds(nets: Seq<IpNet>, allowed: Seq<bool>, request: Request, i: int)
    requires
        0 <= i < nets.len(),
        request.wants(nets[i].ip()),
        allowed[i],
    ensures
        eligible(nets, allowed, request).contains(nets[i]),
    decreases nets.len(),
{
    let rest = nets.drop_last();
    let before = eligible(rest, allowed, request);
    let listed = eligible(nets, allowed, request);
    if i < rest.len() {
        lemma_eligible_holds(rest, allowed, request, i);
        let k = choose|k: int| 0 <= k < before.len() && before[k] == rest[i];
        assert(listed[k] == nets[i]);
    } else {
        assert(listed[listed.len() - 1] == nets[i]);
    }
}

/// Every IPv4 address that is asked for and allowed is gathered.
pub proof fn law_allowed_ipv4_is_gathered(
    interfaces: Seq<Interface>,
    request: Request,
    verdicts: Seq<Verdicts>,
    n: int,
    i: int,
)
    requires
        0 <= n < interfaces.len(),
        0 <= i < interfaces[n].addrs@.len(),
        interfaces[n].addrs@[i] is V4,
        request.wants(interfaces[n].addrs@[i].ip()),
        verdicts[n].name,
        verdicts[n].addrs[i],
    ensures
        gathered(interfaces, request, verdicts).contains(interfaces[n].addrs@[i].ip()),
{
    let nets = interfaces[n].addrs@;
    lemma_eligible_holds(nets, verdicts[n].addrs, request, i);
    let listed = eligible(nets, verdicts[n].addrs, request);
    let k = choose|k: int| 0 <= k < listed.len() && listed[k] == nets[i];
    assert(listed[k].ip() == nets[i].ip());
    assert(offered(interfaces[n].addrs@, request, verdicts[n]).contains(nets[i].ip()));
}

/// A prefix that has an IPv6 address which is asked for and allowed is not left without one: the
/// filters go first, and an address of the prefix that they let through is gathered.
pub proof fn law_allowed_prefix_is_not_left_empty(
    interfaces: Seq<Interface>,
    request: Request,
    verdicts: Seq<Verdicts>,
    n: int,
    i: int,
)
    requires
        0 <= n < interfaces.len(),
        0 <= i < interfaces[n].addrs@.len(),
        interfaces[n].addrs@[i] is V6,
        request.wants(interfaces[n].addrs@[i].ip()),
        verdicts[n].name,
        verdicts[n].addrs[i],
    ensures
        ({
            let net = interfaces[n].addrs@[i]->V6_0;
            let listed = eligible(interfaces[n].addrs@, verdicts[n].addrs, request);
            let group = members(listed, prefix_key(net.addr, net.prefix_len));
            exists|bits: u128|
                group.contains(bits) && #[trigger] gathered(
                    interfaces,
                    request,
                    verdicts,
                ).contains(IpAddr::V6(bits))
        }),
{
    let nets = interfaces[n].addrs@;
    let net = nets[i]->V6_0;
    let key = prefix_key(net.addr, net.prefix_len);
    let listed = eligible(nets, verdicts[n].addrs, request);
    lemma_eligible_holds(nets, verdicts[n].addrs, request, i);
    let k = choose|k: int| 0 <= k < listed.len() && listed[k] == nets[i];
    lemma_listed_is_member(listed, k, key, net.addr);
    law_each_prefix_keeps_one(listed, verdicts[n].picks, key);
    let one = chosen(members(listed, key), verdicts[n].picks[key]);
    assert(offered(interfaces[n].addrs@, request, verdicts[n]).contains(IpAddr::V6(one)));
    assert(gathered(interfaces, request, verdicts).contains(IpAddr::V6(one)));
}

/// Without the request for them, no loopback address is gathered.
pub proof fn law_no_loopback_unless_asked(
    interfaces: Seq<Interface>,
    request: Request,
    verdicts: Seq<Verdicts>,
    ip: IpAddr,
)
    requires
        !request.include_loopback,
        gathered(interfaces, request, verdicts).contains(ip),
    ensures
        !ip.loopback(),
{
    law_gathered_only_what_filters_allow(interfaces, request, verdicts, ip);
}

proof fn lemma_eligible_once(nets: Seq<IpNet>, allowed: Seq<bool>, request: Request)
    requires
        listed_once(nets),
    ensures
        listed_once(eligible(nets, allowed, request)),
    decreases nets.len(),
{
    if nets.len() > 0 {
        let rest = nets.drop_last();
        let before = eligible(rest, allowed, request);
        let listed = eligible(nets, allowed, request);
        lemma_eligible_once(rest, allowed, request);
        assert forall|i: int, j: int| 0 <= i < j < listed.len() implies (#[trigger] listed[i]).ip()
            != (#[trigger] listed[j]).ip() by {
            assert(listed[i] == before[i]);
            if j < before.len() {
                assert(listed[j] == before[j]);
            } else {
                lemma_eligible_origin(rest, allowed, request, i);
                let k = choose|k: int|
                    0 <= k < rest.len() && #[trigger] rest[k] == before[i] && request.wants(
                        rest[k].ip(),
                    ) && allowed[k];
                assert(nets[k].ip() != nets[nets.len() - 1].ip());
            }
        }
    }
}

/// `pick` is never shown an address that a filter refuses or that is not asked for: whatever it is
/// asked about is a group of addresses of one interface in one network of /64 or shorter, none of
/// them link-local, each asked for and let through by the address filter. No address may be listed
/// twice.
pub proof fn law_pick_sees_only_what_filters_allow<A: Fn(IpAddr) -> bool>(
    filter: Option<A>,
    nets: Seq<IpNet>,
    request: Request,
    allowed: Seq<bool>,
    key: (u128, u8),
    bits: u128,
)
    requires
        listed_once(nets),
        may_allow(filter, nets, request, allowed),
        members(eligible(nets, allowed, request), key).len() >= 2,
        members(eligible(nets, allowed, request), key).contains(bits),
    ensures
        key.1 <= 64,
        !link_local(bits),
        network_of(bits, key.1) == key.0,
        nets.contains(IpNet::V6(Ipv6Net { addr: bits, prefix_len: key.1 })),
        request.wants(IpAddr::V6(bits)),
        ip_verdict(filter, IpAddr::V6(bits), true),
{
    let listed = eligible(nets, allowed, request);
    lemma_eligible_once(nets, allowed, request);
    law_groups_share_a_prefix(listed, key, bits);
    let net = IpNet::V6(Ipv6Net { addr: bits, prefix_len: key.1 });
    let k = choose|k: int| 0 <= k < listed.len() && listed[k] == net;
    lemma_eligible_origin(nets, allowed, request, k);
    let i = choose|i: int|
        0 <= i < nets.len() && #[trigger] nets[i] == listed[k] && request.wants(nets[i].ip())
            && allowed[i];
    assert(nets[i] == net);
}

/// A group without the IPv6 loopback address.
pub open spec fn sans_loopback(group: Seq<u128>) -> Seq<u128>
    decreases group.len(),
{
    if group.len() == 0 {
        group
    } else if group.last() == 1 {
        sans_loopback(group.drop_last())
    } else {
        sans_loopback(group.drop_last()).push(group.last())
    }
}

proof fn lemma_sans_loopback(group: Seq<u128>)
    ensures
        forall|c: u128| #[trigger]
            sans_loopback(group).contains(c) <==> group.contains(c) && c != 1,
        sans_loopback(group).len() <= group.len(),
        group.len() > 0 && group[0] != 1 ==> sans_loopback(group).len() > 0 && sans_loopback(
            group,
        )[0] == group[0],
    decreases group.len(),
{
    if group.len() > 0 {
        let rest = group.drop_last();
        let last = group.last();
        lemma_sans_loopback(rest);
        assert forall|c: u128| #[trigger]
            sans_loopback(group).contains(c) <==> group.contains(c) && c != 1 by {
            if group.contains(c) {
                let i = choose|i: int| 0 <= i < group.len() && group[i] == c;
                if i < rest.len() {
                    assert(rest[i] == c);
                    assert(sans_loopback(rest).contains(c) || c == 1);
                }
                if c != 1 {
                    if sans_loopback(rest).contains(c) {
                        let j = choose|j: int|
                            0 <= j < sans_loopback(rest).len() && sans_loopback(rest)[j] == c;
                        assert(sans_loopback(group)[j] == c);
                    } else {
                        assert(sans_loopback(group).last() == c);
                    }
                }
            }
            if sans_loopback(group).contains(c) {
                let j = choose|j: int|
                    0 <= j < sans_loopback(group).len() && sans_loopback(group)[j] == c;
                if j < sans_loopback(rest).len() {
                    assert(sans_loopback(rest)[j] == c);
                    assert(sans_loopback(rest).contains(c));
                    let i = choose|i: int| 0 <= i < rest.len() && rest[i] == c;
                    assert(group[i] == c);
                } else {
                    assert(group[group.len() - 1] == c);
                }
            }
        }
    }
}

/// Where a group keeps another address than the loopback one, it keeps the same without that one.
proof fn lemma_same_choice(group: Seq<u128>, answer: Option<u128>)
    requires
        group.len() > 0,
        chosen(group, answer) != 1,
    ensures
        sans_loopback(group).len() > 0,
        chosen(sans_loopback(group), answer) == chosen(group, answer),
{
    let few = sans_loopback(group);
    let one = chosen(group, answer);
    lemma_sans_loopback(group);
    assert(group.contains(group[0]));
    assert(few.contains(one));
}

/// `all` asks for what `request` asks for, and for loopback addresses.
proof fn lemma_loopback_left_out(
    nets: Seq<IpNet>,
    allowed: Seq<bool>,
    request: Request,
    all: Request,
    key: (u128, u8),
)
    requires
        !request.include_loopback,
        all == (Request { include_loopback: true, ..request }),
    ensures
        members(eligible(nets, allowed, request), key) == sans_loopback(
            members(eligible(nets, allowed, all), key),
        ),
    decreases nets.len(),
{
    if nets.len() > 0 {
        let rest = nets.drop_last();
        let last = nets.last();
        lemma_loopback_left_out(rest, allowed, request, all, key);
        let few = eligible(rest, allowed, request);
        let many = eligible(rest, allowed, all);
        lemma_members_push(few, last, key);
        lemma_members_push(many, last, key);
        if let Some(bits) = addr_in_group(last, key) {
            assert(members(many, key).push(bits).drop_last() =~= members(many, key));
        }
    }
}

/// The request with loopback addresses asked for as well.
pub open spec fn with_loopback(request: Request) -> Request {
    Request { include_loopback: true, ..request }
}

/// No prefix of an interface keeps the IPv6 loopback address where, without it, it would keep
/// another.
pub open spec fn loopback_displaces_none(
    nets: Seq<IpNet>,
    request: Request,
    verdicts: Verdicts,
) -> bool {
    verdicts.name && !request.include_loopback ==> forall|key: (u128, u8)|
        (#[trigger] members(eligible(nets, verdicts.addrs, request), key)).len() > 0 ==> chosen(
            members(eligible(nets, verdicts.addrs, with_loopback(request)), key),
            verdicts.picks[key],
        ) != 1
}

/// The IPv6 loopback address shares its prefix with no other of `nets`.
pub open spec fn loopback_stands_alone(nets: Seq<IpNet>) -> bool {
    forall|i: int, j: int|
        0 <= i < nets.len() && 0 <= j < nets.len() ==> {
            let (a, b) = (#[trigger] nets[i], #[trigger] nets[j]);
            a is V6 && b is V6 && a->V6_0.addr == 1 && b->V6_0.addr != 1 ==> prefix_key(
                a->V6_0.addr,
                a->V6_0.prefix_len,
            ) != prefix_key(b->V6_0.addr, b->V6_0.prefix_len)
        }
}

proof fn lemma_lone_group(nets: Seq<IpNet>, key: (u128, u8), other: u128)
    requires
        loopback_stands_alone(nets),
        members(nets, key).contains(1),
        members(nets, key).contains(other),
    ensures
        other == 1,
{
    lemma_member_is_listed(nets, key, 1);
    lemma_member_is_listed(nets, key, other);
    let i = choose|i: int|
        0 <= i < nets.len() && (#[trigger] nets[i]).ip() == IpAddr::V6(1) && addr_in_group(
            nets[i],
            key,
        ) == Some(1u128);
    let j = choose|j: int|
        0 <= j < nets.len() && (#[trigger] nets[j]).ip() == IpAddr::V6(other) && addr_in_group(
            nets[j],
            key,
        ) == Some(other);
    assert(nets[i] is V6 && nets[j] is V6);
}

/// A loopback address that shares its prefix with no other address that is asked for and allowed
/// takes no other's place.
pub proof fn law_lone_loopback_displaces_none(
    nets: Seq<IpNet>,
    request: Request,
    verdicts: Verdicts,
)
    requires
        loopback_stands_alone(eligible(nets, verdicts.addrs, with_loopback(request))),
    ensures
        loopback_displaces_none(nets, request, verdicts),
{
    let all = with_loopback(request);
    let many = eligible(nets, verdicts.addrs, all);
    let few = eligible(nets, verdicts.addrs, request);
    if verdicts.name && !request.include_loopback {
        assert forall|key: (u128, u8)| (#[trigger] members(few, key)).len() > 0 implies chosen(
            members(many, key),
            verdicts.picks[key],
        ) != 1 by {
            let group = members(many, key);
            lemma_loopback_left_out(nets, verdicts.addrs, request, all, key);
            lemma_sans_loopback(group);
            let other = members(few, key)[0];
            assert(members(few, key).contains(other));
            assert(group.len() > 0 && group.contains(group[0]));
            if group.contains(1) {
                lemma_lone_group(many, key, other);
            }
        }
    }
}

proof fn lemma_eligible_without_loopback(
    nets: Seq<IpNet>,
    allowed: Seq<bool>,
    request: Request,
    net: IpNet,
)
    ensures
        eligible(nets, allowed, request).contains(net) ==> eligible(
            nets,
            allowed,
            with_loopback(request),
        ).contains(net),
        eligible(nets, allowed, with_loopback(request)).contains(net) && !net.ip().loopback()
            ==> eligible(nets, allowed, request).contains(net),
{
    let few = eligible(nets, allowed, request);
    let many = eligible(nets, allowed, with_loopback(request));
    if few.contains(net) {
        let k = choose|k: int| 0 <= k < few.len() && few[k] == net;
        lemma_eligible_origin(nets, allowed, request, k);
        let i = choose|i: int|
            0 <= i < nets.len() && #[trigger] nets[i] == few[k] && request.wants(nets[i].ip())
                && allowed[i];
        lemma_eligible_holds(nets, allowed, with_loopback(request), i);
    }
    if many.contains(net) && !net.ip().loopback() {
        let k = choose|k: int| 0 <= k < many.len() && many[k] == net;
        lemma_eligible_origin(nets, allowed, with_loopback(request), k);
        let i = choose|i: int|
            0 <= i < nets.len() && #[trigger] nets[i] == many[k] && with_loopback(request).wants(
                nets[i].ip(),
            ) && allowed[i];
        lemma_eligible_holds(nets, allowed, request, i);
    }
}

/// Asking for loopback addresses as well only adds addresses: on the same interfaces, with the
/// same verdicts, what was gathered without them is still gathered. The loopback address must not
/// be the one that a prefix keeps in another's place.
pub proof fn law_loopback_only_adds(
    interfaces: Seq<Interface>,
    request: Request,
    verdicts: Seq<Verdicts>,
)
    requires
        forall|n: int|
            0 <= n < interfaces.len() ==> loopback_displaces_none(
                (#[trigger] interfaces[n]).addrs@,
                request,
                verdicts[n],
            ),
    ensures
        gathered(interfaces, request, verdicts).subset_of(
            gathered(interfaces, with_loopback(request), verdicts),
        ),
{
    let all = with_loopback(request);
    assert forall|ip: IpAddr| #[trigger]
        gathered(interfaces, request, verdicts).contains(ip) implies gathered(
        interfaces,
        all,
        verdicts,
    ).contains(ip) by {
        let n = choose|n: int|
            0 <= n < interfaces.len() && offered(
                (#[trigger] interfaces[n]).addrs@,
                request,
                verdicts[n],
            ).contains(ip);
        let nets = interfaces[n].addrs@;
        let v = verdicts[n];
        let few = eligible(nets, v.addrs, request);
        let many = eligible(nets, v.addrs, all);
        if request.include_loopback {
            assert(request == all);
        } else {
            match ip {
                IpAddr::V4(_) => {
                    let k = choose|k: int| 0 <= k < few.len() && (#[trigger] few[k]).ip() == ip;
                    lemma_eligible_without_loopback(nets, v.addrs, request, few[k]);
                    assert(few.contains(few[k]));
                    let j = choose|j: int| 0 <= j < many.len() && many[j] == few[k];
                    assert(many[j].ip() == ip);
                },
                IpAddr::V6(bits) => {
                    let key = choose|key: (u128, u8)|
                        (#[trigger] members(few, key)).len() > 0 && bits == chosen(
                            members(few, key),
                            v.picks[key],
                        );
                    lemma_loopback_left_out(nets, v.addrs, request, all, key);
                    lemma_same_choice(members(many, key), v.picks[key]);
                },
            }
        }
        assert(offered(nets, all, v).contains(ip));
    }
}

/// Asking for loopback addresses as well adds nothing but loopback addresses.
pub proof fn law_nothing_but_loopback_is_added(
    interfaces: Seq<Interface>,
    request: Request,
    verdicts: Seq<Verdicts>,
    ip: IpAddr,
)
    requires
        gathered(interfaces, with_loopback(request), verdicts).contains(ip),
        !ip.loopback(),
    ensures
        gathered(interfaces, request, verdicts).contains(ip),
{
    let all = with_loopback(request);
    let n = choose|n: int|
        0 <= n < interfaces.len() && offered(
            (#[trigger] interfaces[n]).addrs@,
            all,
            verdicts[n],
        ).contains(ip);
    let nets = interfaces[n].addrs@;
    let v = verdicts[n];
    let few = eligible(nets, v.addrs, request);
    let many = eligible(nets, v.addrs, all);
    if request.include_loopback {
        assert(request == all);
    } else {
        match ip {
            IpAddr::V4(_) => {
                let k = choose|k: int| 0 <= k < many.len() && (#[trigger] many[k]).ip() == ip;
                lemma_eligible_without_loopback(nets, v.addrs, request, many[k]);
                assert(many.contains(many[k]));
                let j = choose|j: int| 0 <= j < few.len() && few[j] == many[k];
                assert(few[j].ip() == ip);
            },
            IpAddr::V6(bits) => {
                let key = choose|key: (u128, u8)|
                    (#[trigger] members(many, key)).len() > 0 && bits == chosen(
                        members(many, key),
                        v.picks[key],
                    );
                lemma_loopback_left_out(nets, v.addrs, request, all, key);
                lemma_same_choice(members(many, key), v.picks[key]);
                assert(members(few, key).len() > 0);
            },
        }
    }
    assert(offered(nets, request, v).contains(ip));
}

/// A loopback address that is asked for and allowed is gathered; an IPv6 one as long as it shares
/// its prefix with no other address that is asked for and allowed.
pub proof fn law_allowed_loopback_is_gathered(
    interfaces: Seq<Interface>,
    request: Request,
    verdicts: Seq<Verdicts>,
    n: int,
    i: int,
)
    requires
        0 <= n < interfaces.len(),
        0 <= i < interfaces[n].addrs@.len(),
        interfaces[n].addrs@[i].ip().loopback(),
        request.wants(interfaces[n].addrs@[i].ip()),
        verdicts[n].name,
        verdicts[n].addrs[i],
        interfaces[n].addrs@[i] is V6 ==> loopback_stands_alone(
            eligible(interfaces[n].addrs@, verdicts[n].addrs, request),
        ),
    ensures
        gathered(interfaces, request, verdicts).contains(interfaces[n].addrs@[i].ip()),
{
    let nets = interfaces[n].addrs@;
    match nets[i] {
        IpNet::V4(_) => {
            law_allowed_ipv4_is_gathered(interfaces, request, verdicts, n, i);
        },
        IpNet::V6(net) => {
            let key = prefix_key(net.addr, net.prefix_len);
            let listed = eligible(nets, verdicts[n].addrs, request);
            lemma_eligible_holds(nets, verdicts[n].addrs, request, i);
            let k = choose|k: int| 0 <= k < listed.len() && listed[k] == nets[i];
            lemma_listed_is_member(listed, k, key, net.addr);
            law_each_prefix_keeps_one(listed, verdicts[n].picks, key);
            let one = chosen(members(listed, key), verdicts[n].picks[key]);
            lemma_lone_group(listed, key, one);
            assert(offered(interfaces[n].addrs@, request, verdicts[n]).contains(IpAddr::V6(one)));
        },
    }
}

/// An interface's addresses are looked at one by one: another address, listed last, is let through
/// after what was let through before it, exactly if it is of a family that some network type names,
/// is no loopback address or such are asked for, and is allowed. A loopback address is one of
/// 127.0.0.0/8, or ::1.
pub proof fn law_eligible_one_by_one(
    nets: Seq<IpNet>,
    net: IpNet,
    allowed: Seq<bool>,
    types: Seq<NetworkType>,
    include_loopback: bool,
)
    ensures
        eligible(Seq::empty(), allowed, Request::of(types, include_loopback)).len() == 0,
        ({
            let before = eligible(nets, allowed, Request::of(types, include_loopback));
            let after = eligible(nets.push(net), allowed, Request::of(types, include_loopback));
            let asked = match net {
                IpNet::V4(x) => (exists|t: int|
                    0 <= t < types.len() && ((#[trigger] types[t]) is Udp4 || types[t] is Tcp4))
                    && (include_loopback || !(0x7f00_0000 <= x.addr <= 0x7fff_ffff)),
                IpNet::V6(x) => (exists|t: int|
                    0 <= t < types.len() && ((#[trigger] types[t]) is Udp6 || types[t] is Tcp6))
                    && (include_loopback || x.addr != 1),
            };
            &&& asked && allowed[nets.len() as int] ==> after == before.push(net)
            &&& !(asked && allowed[nets.len() as int]) ==> after == before
        }),
{
    let request = Request::of(types, include_loopback);
    assert(nets.push(net).drop_last() =~= nets);
    assert(request.ipv4 <==> exists|t: int|
        0 <= t < types.len() && ((#[trigger] types[t]) is Udp4 || types[t] is Tcp4)) by {
        if request.ipv4 {
            let t = choose|t: int| 0 <= t < types.len() && (#[trigger] types[t]).ipv4();
            assert(types[t] is Udp4 || types[t] is Tcp4);
        }
        if exists|t: int|
            0 <= t < types.len() && ((#[trigger] types[t]) is Udp4 || types[t] is Tcp4) {
            let t = choose|t: int|
                0 <= t < types.len() && ((#[trigger] types[t]) is Udp4 || types[t] is Tcp4);
            assert(types[t].ipv4());
        }
    }
    assert(request.ipv6 <==> exists|t: int|
        0 <= t < types.len() && ((#[trigger] types[t]) is Udp6 || types[t] is Tcp6)) by {
        if request.ipv6 {
            let t = choose|t: int| 0 <= t < types.len() && (#[trigger] types[t]).ipv6();
            assert(types[t] is Udp6 || types[t] is Tcp6);
        }
        if exists|t: int|
            0 <= t < types.len() && ((#[trigger] types[t]) is Udp6 || types[t] is Tcp6) {
            let t = choose|t: int|
                0 <= t < types.len() && ((#[trigger] types[t]) is Udp6 || types[t] is Tcp6);
            assert(types[t].ipv6());
        }
    }
}

/// An IPv4 address is gathered exactly if an interface whose name is allowed lists it, it is
/// allowed, some network type names its family, and it is outside 127.0.0.0/8 or loopback
/// addresses are asked for.
pub proof fn law_gathered_ipv4(
    interfaces: Seq<Interface>,
    types: Seq<NetworkType>,
    include_loopback: bool,
    verdicts: Seq<Verdicts>,
    bits: u32,
)
    ensures
        gathered(interfaces, Request::of(types, include_loopback), verdicts).contains(
            IpAddr::V4(bits),
        ) <==> {
            &&& exists|t: int|
                0 <= t < types.len() && ((#[trigger] types[t]) is Udp4 || types[t] is Tcp4)
            &&& include_loopback || !(0x7f00_0000 <= bits <= 0x7fff_ffff)
            &&& exists|n: int, i: int|
                0 <= n < interfaces.len() && 0 <= i < interfaces[n].addrs@.len() && (
                #[trigger] interfaces[n].addrs@[i]) is V4 && interfaces[n].addrs@[i]->V4_0.addr
                    == bits && verdicts[n].name && verdicts[n].addrs[i]
        },
{
    let request = Request::of(types, include_loopback);
    let ip = IpAddr::V4(bits);
    assert(request.wants(ip) <==> (exists|t: int|
        0 <= t < types.len() && ((#[trigger] types[t]) is Udp4 || types[t] is Tcp4)) && (
    include_loopback || !(0x7f00_0000 <= bits <= 0x7fff_ffff))) by {
        if request.ipv4 {
            let t = choose|t: int| 0 <= t < types.len() && (#[trigger] types[t]).ipv4();
            assert(types[t] is Udp4 || types[t] is Tcp4);
        }
        if exists|t: int|
            0 <= t < types.len() && ((#[trigger] types[t]) is Udp4 || types[t] is Tcp4) {
            let t = choose|t: int|
                0 <= t < types.len() && ((#[trigger] types[t]) is Udp4 || types[t] is Tcp4);
            assert(types[t].ipv4());
        }
    }
    if gathered(interfaces, request, verdicts).contains(ip) {
        law_gathered_only_what_filters_allow(interfaces, request, verdicts, ip);
        let (n, i) = choose|n: int, i: int|
            0 <= n < interfaces.len() && verdicts[n].name && 0 <= i < interfaces[n].addrs@.len()
                && (#[trigger] interfaces[n].addrs@[i]).ip() == ip && verdicts[n].addrs[i];
        assert(interfaces[n].addrs@[i] is V4);
    }
    if request.wants(ip) && exists|n: int, i: int|
        0 <= n < interfaces.len() && 0 <= i < interfaces[n].addrs@.len() && (
        #[trigger] interfaces[n].addrs@[i]) is V4 && interfaces[n].addrs@[i]->V4_0.addr == bits
            && verdicts[n].name && verdicts[n].addrs[i] {
        let (n, i) = choose|n: int, i: int|
            0 <= n < interfaces.len() && 0 <= i < interfaces[n].addrs@.len() && (
            #[trigger] interfaces[n].addrs@[i]) is V4 && interfaces[n].addrs@[i]->V4_0.addr
                == bits && verdicts[n].name && verdicts[n].addrs[i];
        law_allowed_ipv4_is_gathered(interfaces, request, verdicts, n, i);
    }
}

/// An IPv6 address is gathered exactly if some interface whose name is allowed keeps it among the
/// addresses of its own that are let through, one per prefix.
pub proof fn law_gathered_ipv6(
    interfaces: Seq<Interface>,
    request: Request,
    verdicts: Seq<Verdicts>,
    bits: u128,
)
    ensures
        gathered(interfaces, request, verdicts).contains(IpAddr::V6(bits)) <==> exists|n: int|
            0 <= n < interfaces.len() && verdicts[n].name && one_per_prefix(
                eligible((#[trigger] interfaces[n]).addrs@, verdicts[n].addrs, request),
                verdicts[n].picks,
            ).contains(bits),
        gathered(interfaces, request, verdicts).contains(IpAddr::V6(bits)) ==> exists|
            n: int,
            i: int,
        |
            0 <= n < interfaces.len() && 0 <= i < interfaces[n].addrs@.len() && (
            #[trigger] interfaces[n].addrs@[i]) is V6 && interfaces[n].addrs@[i]->V6_0.addr == bits
                && verdicts[n].name && verdicts[n].addrs[i],
        gathered(interfaces, request, verdicts).contains(IpAddr::V6(bits)) && bits == 1
            ==> request.include_loopback,
        gathered(interfaces, request, verdicts).contains(IpAddr::V6(bits)) ==> request.ipv6,
{
    let ip = IpAddr::V6(bits);
    if gathered(interfaces, request, verdicts).contains(ip) {
        law_gathered_only_what_filters_allow(interfaces, request, verdicts, ip);
        let (n, i) = choose|n: int, i: int|
            0 <= n < interfaces.len() && verdicts[n].name && 0 <= i < interfaces[n].addrs@.len()
                && (#[trigger] interfaces[n].addrs@[i]).ip() == ip && verdicts[n].addrs[i];
        assert(interfaces[n].addrs@[i] is V6);
        let m = choose|m: int|
            0 <= m < interfaces.len() && offered(
                (#[trigger] interfaces[m]).addrs@,
                request,
                verdicts[m],
            ).contains(ip);
        assert(one_per_prefix(
            eligible(interfaces[m].addrs@, verdicts[m].addrs, request),
            verdicts[m].picks,
        ).contains(bits));
    }
    if exists|n: int|
        0 <= n < interfaces.len() && verdicts[n].name && one_per_prefix(
            eligible((#[trigger] interfaces[n]).addrs@, verdicts[n].addrs, request),
            verdicts[n].picks,
        ).contains(bits) {
        let n = choose|n: int|
            0 <= n < interfaces.len() && verdicts[n].name && one_per_prefix(
                eligible((#[trigger] interfaces[n]).addrs@, verdicts[n].addrs, request),
                verdicts[n].picks,
            ).contains(bits);
        assert(offered(interfaces[n].addrs@, request, verdicts[n]).contains(ip));
    }
}

/// The verdicts are the filters' own: each is an answer that the filter gives on the name or the
/// address itself, and without a filter every name and address is let through. What `pick` said
/// is heard of every group of two or more.
pub proof fn law_verdicts_are_the_filters_own<
    N: Fn(&str) -> bool,
    A: Fn(IpAddr) -> bool,
    P: Fn(&[u128]) -> Option<u128>,
>(
    name_filter: Option<N>,
    ip_filter: Option<A>,
    pick: &P,
    interface: Interface,
    request: Request,
    verdicts: Verdicts,
    i: int,
)
    requires
        heard(name_filter, ip_filter, pick, interface, request, verdicts),
    ensures
        name_filter is None ==> verdicts.name,
        name_filter matches Some(f) ==> exists|s: &str|
            s@ == interface.name@ && #[trigger] call_ensures(f, (s,), verdicts.name),
        verdicts.name && 0 <= i < interface.addrs@.len() && request.wants(
            interface.addrs@[i].ip(),
        ) ==> {
            &&& ip_filter is None ==> verdicts.addrs[i]
            &&& ip_filter matches Some(f) ==> call_ensures(
                f,
                (interface.addrs@[i].ip(),),
                verdicts.addrs[i],
            )
        },
        verdicts.name ==> all_answered(
            pick,
            eligible(interface.addrs@, verdicts.addrs, request),
            verdicts.picks,
        ),
{
}

/// Every interface is heard: there is a verdict on the name of each, the filter's own, and on each
/// address asked for of those whose names are allowed.
pub proof fn law_every_interface_is_heard<
    N: Fn(&str) -> bool,
    A: Fn(IpAddr) -> bool,
    P: Fn(&[u128]) -> Option<u128>,
>(
    name_filter: Option<N>,
    ip_filter: Option<A>,
    pick: &P,
    interfaces: Seq<Interface>,
    request: Request,
    verdicts: Seq<Verdicts>,
    n: int,
    i: int,
)
    requires
        all_heard(name_filter, ip_filter, pick, interfaces, request, verdicts),
        0 <= n < interfaces.len(),
    ensures
        verdicts.len() == interfaces.len(),
        name_filter is None ==> verdicts[n].name,
        name_filter matches Some(f) ==> exists|s: &str|
            s@ == interfaces[n].name@ && #[trigger] call_ensures(f, (s,), verdicts[n].name),
        verdicts[n].name && 0 <= i < interfaces[n].addrs@.len() && request.wants(
            interfaces[n].addrs@[i].ip(),
        ) ==> {
            &&& ip_filter is None ==> verdicts[n].addrs[i]
            &&& ip_filter matches Some(f) ==> call_ensures(
                f,
                (interfaces[n].addrs@[i].ip(),),
                verdicts[n].addrs[i],
            )
        },
        verdicts[n].name ==> all_answered(
            pick,
            eligible(interfaces[n].addrs@, verdicts[n].addrs, request),
            verdicts[n].picks,
        ),
{
    assert(heard(name_filter, ip_filter, pick, interfaces[n], request, verdicts[n]));
    law_verdicts_are_the_filters_own(
        name_filter,
        ip_filter,
        pick,
        interfaces[n],
        request,
        verdicts[n],
        i,
    );
}

} // verus!

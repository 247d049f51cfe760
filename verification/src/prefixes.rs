//! One address per IPv6 prefix.

use crate::addr::{ipv6_network, network_of, IpAddr, IpNet, Ipv6Net};
use std::collections::HashSet;
use vstd::arithmetic::div_mod::{
    lemma_div_denominator, lemma_fundamental_div_mod, lemma_mod_bound, lemma_mod_decreases,
    lemma_mod_multiples_basic,
};
use vstd::arithmetic::mul::lemma_mul_is_commutative;
use vstd::arithmetic::power2::{
    lemma2_to64, lemma2_to64_rest, lemma_pow2_adds, lemma_pow2_pos, pow2,
};
use vstd::prelude::*;
use vstd::seq_lib::seq_to_set_is_finite;
use vstd::set_lib::{lemma_int_range, lemma_len_subset, lemma_map_size, set_int_range};

verus! {

/// fe80::/10.
pub open spec fn link_local(addr: u128) -> bool {
    0xfe80_0000_0000_0000_0000_0000_0000_0000 <= addr
        <= 0xfebf_ffff_ffff_ffff_ffff_ffff_ffff_ffff
}

/// The prefix an IPv6 address is grouped under: its network for a known prefix of /64 or shorter,
/// itself for a longer one (an enumeration that reports no mask leaves an address at /128) and
/// for a link-local address.
pub open spec fn prefix_key(addr: u128, prefix_len: u8) -> (u128, u8) {
    if prefix_len <= 64 && !link_local(addr) {
        (network_of(addr, prefix_len), prefix_len)
    } else {
        (addr, 128)
    }
}

/// The address of `net` if it is an IPv6 one grouped under `key`.
pub open spec fn addr_in_group(net: IpNet, key: (u128, u8)) -> Option<u128> {
    match net {
        IpNet::V6(net) => if prefix_key(net.addr, net.prefix_len) == key {
            Some(net.addr)
        } else {
            None
        },
        IpNet::V4(_) => None,
    }
}

/// The IPv6 addresses of `nets` grouped under `key`, in the order they are listed.
pub open spec fn members(nets: Seq<IpNet>, key: (u128, u8)) -> Seq<u128> {
    nets.filter_map(|net: IpNet| addr_in_group(net, key))
}

/// The one address a group keeps: the answer if there was someone to ask and the answer belongs
/// to the group, else the first listed.
pub open spec fn chosen(members: Seq<u128>, answer: Option<u128>) -> u128 {
    match answer {
        Some(c) => if members.len() >= 2 && members.contains(c) {
            c
        } else {
            members[0]
        },
        None => members[0],
    }
}

/// The answers that were given for the groups, by the groups' keys.
pub type Picks = Map<(u128, u8), Option<u128>>;

/// The addresses kept of `nets`: of each group the one that its answer leaves.
pub open spec fn one_per_prefix(nets: Seq<IpNet>, picks: Picks) -> Set<u128> {
    Set::new(
        |a: u128|
            exists|key: (u128, u8)|
                (#[trigger] members(nets, key)).len() > 0 && a == chosen(
                    members(nets, key),
                    picks[key],
                ),
    )
}

/// `answer` is what `pick` may give when it is asked about `members`.
pub open spec fn answered<F: Fn(&[u128]) -> Option<u128>>(
    pick: &F,
    members: Seq<u128>,
    answer: Option<u128>,
) -> bool {
    exists|s: &[u128]| s@ == members && #[trigger] call_ensures(*pick, (s,), answer)
}

/// Every group of two or more has its answer from `pick`.
pub open spec fn all_answered<F: Fn(&[u128]) -> Option<u128>>(
    pick: &F,
    nets: Seq<IpNet>,
    picks: Picks,
) -> bool {
    forall|key: (u128, u8)|
        (#[trigger] members(nets, key)).len() >= 2 ==> answered(
            pick,
            members(nets, key),
            picks[key],
        )
}

pub(crate) proof fn lemma_members_push(nets: Seq<IpNet>, net: IpNet, key: (u128, u8))
    ensures
        members(nets.push(net), key) == match addr_in_group(net, key) {
            Some(a) => members(nets, key).push(a),
            None => members(nets, key),
        },
{
    assert(nets.push(net).drop_last() =~= nets);
}

fn is_link_local(addr: u128) -> (r: bool)
    ensures
        r == link_local(addr),
{
    let first: u16 = (addr >> 112) as u16;
    assert((((addr >> 112) as u16) & 0xffc0 == 0xfe80) <==> (
    0xfe80_0000_0000_0000_0000_0000_0000_0000 <= addr
        <= 0xfebf_ffff_ffff_ffff_ffff_ffff_ffff_ffff)) by (bit_vector);
    first & 0xffc0 == 0xfe80
}

fn group_key(addr: u128, prefix_len: u8) -> (r: (u128, u8))
    ensures
        r == prefix_key(addr, prefix_len),
{
    if prefix_len <= 64 && !is_link_local(addr) {
        (ipv6_network(addr, prefix_len), prefix_len)
    } else {
        (addr, 128)
    }
}

/// Whether `addrs` holds `addr`.
fn holds(addrs: &[u128], addr: u128) -> (r: bool)
    ensures
        r == addrs@.contains(addr),
{
    for i in 0..addrs.len()
        invariant
            forall|j: int| 0 <= j < i ==> addrs@[j] != addr,
    {
        if addrs[i] == addr {
            return true;
        }
    }
    false
}

/// The one address of a group that stays, given what the OS answered for it. Only a group of two
/// or more is asked about, and only an answer that is one of its own addresses counts; without
/// one the first listed stays.
pub fn keep_one(members: &[u128], answer: Option<u128>) -> (r: u128)
    requires
        members@.len() > 0,
    ensures
        r == chosen(members@, answer),
        members@.contains(r),
        answer matches Some(c) ==> members@.contains(c) ==> r == c,
        answer is None ==> r == members@[0],
        answer matches Some(c) ==> !members@.contains(c) ==> r == members@[0],
{
    match answer {
        Some(c) if members.len() >= 2 && holds(members, c) => c,
        _ => {
            assert(members@[0] == members@.first());
            members[0]
        },
    }
}

/// A prefix and the addresses listed under it.
struct Group {
    key: (u128, u8),
    members: Vec<u128>,
}

/// `groups` are the groups of `nets`, each once.
spec fn grouped(groups: Seq<Group>, nets: Seq<IpNet>) -> bool {
    &&& forall|g: int|
        0 <= g < groups.len() ==> {
            &&& (#[trigger] groups[g]).members@ == members(nets, groups[g].key)
            &&& groups[g].members@.len() > 0
        }
    &&& forall|g: int, h: int|
        0 <= g < h < groups.len() ==> (#[trigger] groups[g]).key != (#[trigger] groups[h]).key
    &&& forall|key: (u128, u8)|
        (#[trigger] members(nets, key)).len() > 0 ==> exists|g: int|
            0 <= g < groups.len() && (#[trigger] groups[g]).key == key
}

/// Adds an address to its group, opening the group where it is the first.
fn add_to_group(groups: &mut Vec<Group>, v6: Ipv6Net, Ghost(nets): Ghost<Seq<IpNet>>)
    requires
        grouped(old(groups)@, nets),
    ensures
        grouped(final(groups)@, nets.push(IpNet::V6(v6))),
{
    let addr: u128 = v6.addr;
    let key = group_key(addr, v6.prefix_len);
    let ghost net = IpNet::V6(v6);
    let n: usize = groups.len();
    proof {
        assert forall|k: (u128, u8)| #[trigger]
            members(nets.push(net), k) == if k == key {
                members(nets, k).push(addr)
            } else {
                members(nets, k)
            } by {
            lemma_members_push(nets, net, k);
        }
    }
    for g in 0..n
        invariant
            n == groups.len(),
            *groups == *old(groups),
            forall|h: int| 0 <= h < g ==> (#[trigger] groups@[h]).key != key,
            grouped(groups@, nets),
            key == prefix_key(addr, v6.prefix_len),
            addr == v6.addr,
            net == IpNet::V6(v6),
            forall|k: (u128, u8)| #[trigger]
                members(nets.push(net), k) == if k == key {
                    members(nets, k).push(addr)
                } else {
                    members(nets, k)
                },
    {
        if groups[g].key.0 == key.0 && groups[g].key.1 == key.1 {
            groups[g].members.push(addr);
            assert forall|k: (u128, u8)| (#[trigger] members(nets.push(net), k)).len()
                > 0 implies exists|h: int|
                0 <= h < groups.len() && (#[trigger] groups@[h]).key == k by {
                if k == key {
                    assert(groups@[g as int].key == k);
                } else {
                    let h = choose|h: int|
                        0 <= h < old(groups)@.len() && (#[trigger] old(groups)@[h]).key == k;
                    assert(groups@[h].key == k);
                }
            }
            return ;
        }
    }
    let mut list: Vec<u128> = Vec::new();
    list.push(addr);
    proof {
        if members(nets, key).len() > 0 {
            let h = choose|h: int| 0 <= h < groups@.len() && (#[trigger] groups@[h]).key == key;
            assert(false);
        }
        assert(list@ =~= members(nets, key).push(addr));
    }
    groups.push(Group { key, members: list });
    assert forall|k: (u128, u8)| (#[trigger] members(nets.push(net), k)).len()
        > 0 implies exists|h: int| 0 <= h < groups.len() && (#[trigger] groups@[h]).key == k by {
        if k == key {
            assert(groups@[groups@.len() - 1].key == k);
        } else {
            let h = choose|h: int|
                0 <= h < old(groups)@.len() && (#[trigger] old(groups)@[h]).key == k;
            assert(groups@[h].key == k);
        }
    }
}

/// Of the IPv6 addresses that one interface holds in one prefix, the one the OS sends from, as
/// far as `pick` can tell, else the first listed, which on some systems is the stable one.
///
/// Beside the temporary address that privacy extensions rotate, a prefix usually carries a stable
/// one that the OS never picks as a source. A host candidate for it would hand the peer an
/// identifier that outlives every rotation, so each prefix offers one address only. `pick` is
/// asked about groups of two or more and about nothing else. A prefix longer than /64 is a prefix
/// of its own, link-local addresses are left to the caller's filter, and IPv4 is not looked at.
pub fn ipv6_one_per_prefix<F: Fn(&[u128]) -> Option<u128>>(nets: &[IpNet], pick: &F) -> (kept:
    HashSet<u128>)
    requires
        forall|s: &[u128], key: (u128, u8)|
            s@.len() >= 2 && s@ == #[trigger] members(nets@, key) ==> #[trigger] call_requires(
                *pick,
                (s,),
            ),
    ensures
        exists|picks: Picks| #[trigger]
            all_answered(pick, nets@, picks) && kept@ == one_per_prefix(nets@, picks),
{
    let mut groups: Vec<Group> = Vec::new();
    assert(nets@.take(0) =~= Seq::<IpNet>::empty());
    for i in 0..nets.len()
        invariant
            grouped(groups@, nets@.take(i as int)),
    {
        assert(nets@.take(i + 1) =~= nets@.take(i as int).push(nets@[i as int]));
        match nets[i] {
            IpNet::V6(v6) => {
                add_to_group(&mut groups, v6, Ghost(nets@.take(i as int)));
            },
            IpNet::V4(_) => {
                proof {
                    assert forall|k: (u128, u8)| #[trigger]
                        members(nets@.take(i + 1), k) == members(nets@.take(i as int), k) by {
                        lemma_members_push(nets@.take(i as int), nets@[i as int], k);
                    }
                }
            },
        }
    }
    assert(nets@.take(nets@.len() as int) =~= nets@);
    let ghost mut picks: Picks = Map::empty();
    let mut kept: HashSet<u128> = HashSet::new();
    for g in 0..groups.len()
        invariant
            grouped(groups@, nets@),
            forall|s: &[u128], key: (u128, u8)|
                s@.len() >= 2 && s@ == #[trigger] members(nets@, key)
                    ==> #[trigger] call_requires(*pick, (s,)),
            forall|h: int|
                0 <= h < g && (#[trigger] groups@[h]).members@.len() >= 2 ==> answered(
                    pick,
                    groups@[h].members@,
                    picks[groups@[h].key],
                ),
            forall|a: u128|
                kept@.contains(a) <==> exists|h: int|
                    0 <= h < g && a == chosen(
                        (#[trigger] groups@[h]).members@,
                        picks[groups@[h].key],
                    ),
    {
        let members = groups[g].members.as_slice();
        let answer = if members.len() >= 2 {
            pick(members)
        } else {
            None
        };
        let ghost before = picks;
        proof {
            picks = picks.insert(groups@[g as int].key, answer);
        }
        let one: u128 = keep_one(members, answer);
        kept.insert(one);
        assert(forall|h: int|
            0 <= h < g ==> picks[(#[trigger] groups@[h]).key] == before[groups@[h].key]);
    }
    proof {
        assert forall|a: u128|
            kept@.contains(a) <==> #[trigger] one_per_prefix(nets@, picks).contains(a) by {
            if kept@.contains(a) {
                let h = choose|h: int|
                    0 <= h < groups@.len() && a == chosen(
                        (#[trigger] groups@[h]).members@,
                        picks[groups@[h].key],
                    );
                assert(members(nets@, groups@[h].key).len() > 0);
            }
            if one_per_prefix(nets@, picks).contains(a) {
                let key = choose|key: (u128, u8)|
                    (#[trigger] members(nets@, key)).len() > 0 && a == chosen(
                        members(nets@, key),
                        picks[key],
                    );
                let h = choose|h: int| 0 <= h < groups@.len() && (#[trigger] groups@[h]).key == key;
                assert(a == chosen(groups@[h].members@, picks[groups@[h].key]));
            }
        }
        assert(kept@ =~= one_per_prefix(nets@, picks));
        assert forall|key: (u128, u8)| (#[trigger] members(nets@, key)).len() >= 2 implies answered(
            pick,
            members(nets@, key),
            picks[key],
        ) by {
            let h = choose|h: int| 0 <= h < groups@.len() && (#[trigger] groups@[h]).key == key;
            assert(groups@[h].members@.len() >= 2);
        }
        assert(all_answered(pick, nets@, picks));
    }
    kept
}

/// Only IPv6 addresses that are listed are kept.
pub proof fn law_kept_addresses_are_listed(nets: Seq<IpNet>, picks: Picks, bits: u128)
    requires
        one_per_prefix(nets, picks).contains(bits),
    ensures
        exists|i: int| 0 <= i < nets.len() && (#[trigger] nets[i]).ip() == IpAddr::V6(bits),
{
    let key = choose|key: (u128, u8)|
        (#[trigger] members(nets, key)).len() > 0 && bits == chosen(
            members(nets, key),
            picks[key],
        );
    lemma_member_is_listed(nets, key, bits);
}

pub(crate) proof fn lemma_member_is_listed(nets: Seq<IpNet>, key: (u128, u8), bits: u128)
    requires
        members(nets, key).contains(bits),
    ensures
        exists|i: int|
            0 <= i < nets.len() && (#[trigger] nets[i]).ip() == IpAddr::V6(bits) && addr_in_group(
                nets[i],
                key,
            ) == Some(bits),
    decreases nets.len(),
{
    if nets.len() > 0 {
        let rest = nets.drop_last();
        lemma_members_push(rest, nets.last(), key);
        assert(rest.push(nets.last()) =~= nets);
        if members(rest, key).contains(bits) {
            lemma_member_is_listed(rest, key, bits);
            let i = choose|i: int|
                0 <= i < rest.len() && (#[trigger] rest[i]).ip() == IpAddr::V6(bits)
                    && addr_in_group(rest[i], key) == Some(bits);
            assert(nets[i] == rest[i]);
        } else {
            let list = members(nets, key);
            let j = choose|j: int| 0 <= j < list.len() && list[j] == bits;
            assert(j == list.len() - 1 || members(rest, key)[j] == bits);
            assert(nets[nets.len() - 1].ip() == IpAddr::V6(bits));
        }
    }
}

/// A prefix that has addresses keeps one of its own, and any other of its addresses that stays is
/// kept for another prefix it is listed under as well.
pub proof fn law_each_prefix_keeps_one(nets: Seq<IpNet>, picks: Picks, key: (u128, u8))
    requires
        members(nets, key).len() > 0,
    ensures
        members(nets, key).contains(chosen(members(nets, key), picks[key])),
        one_per_prefix(nets, picks).contains(chosen(members(nets, key), picks[key])),
        forall|other: u128|
            members(nets, key).contains(other) && other != chosen(members(nets, key), picks[key])
                && #[trigger] one_per_prefix(nets, picks).contains(other) ==> exists|
                key2: (u128, u8),
            |
                key2 != key && (#[trigger] members(nets, key2)).len() > 0 && other == chosen(
                    members(nets, key2),
                    picks[key2],
                ),
{
    assert(members(nets, key)[0] == members(nets, key).first());
}

/// No address is listed twice.
pub open spec fn listed_once(nets: Seq<IpNet>) -> bool {
    forall|i: int, j: int|
        0 <= i < j < nets.len() ==> (#[trigger] nets[i]).ip() != (#[trigger] nets[j]).ip()
}

proof fn lemma_members_once(nets: Seq<IpNet>, key: (u128, u8))
    requires
        listed_once(nets),
    ensures
        members(nets, key).no_duplicates(),
    decreases nets.len(),
{
    if nets.len() > 0 {
        let rest = nets.drop_last();
        let last = nets.last();
        lemma_members_once(rest, key);
        lemma_members_push(rest, last, key);
        assert(rest.push(last) =~= nets);
        if let Some(bits) = addr_in_group(last, key) {
            if members(rest, key).contains(bits) {
                lemma_member_is_listed(rest, key, bits);
                let i = choose|i: int|
                    0 <= i < rest.len() && (#[trigger] rest[i]).ip() == IpAddr::V6(bits)
                        && addr_in_group(rest[i], key) == Some(bits);
                assert(nets[i].ip() != nets[nets.len() - 1].ip());
            }
        }
    }
}

/// A group that `pick` is asked about shares one network under a prefix of /64 or shorter, and
/// holds no link-local address; as long as no address is listed twice.
pub proof fn law_groups_share_a_prefix(nets: Seq<IpNet>, key: (u128, u8), bits: u128)
    requires
        listed_once(nets),
        members(nets, key).len() >= 2,
        members(nets, key).contains(bits),
    ensures
        key.1 <= 64,
        !link_local(bits),
        network_of(bits, key.1) == key.0,
        nets.contains(IpNet::V6(Ipv6Net { addr: bits, prefix_len: key.1 })),
{
    let group = members(nets, key);
    lemma_members_once(nets, key);
    lemma_member_is_listed(nets, key, bits);
    let i = choose|i: int|
        0 <= i < nets.len() && (#[trigger] nets[i]).ip() == IpAddr::V6(bits) && addr_in_group(
            nets[i],
            key,
        ) == Some(bits);
    if key.1 > 64 {
        assert(group.contains(group[0]) && group.contains(group[1]));
        lemma_member_is_listed(nets, key, group[0]);
        lemma_member_is_listed(nets, key, group[1]);
        assert(group[0] == key.0 && group[1] == key.0);
        assert(false);
    }
}

pub(crate) proof fn lemma_listed_is_member(nets: Seq<IpNet>, i: int, key: (u128, u8), bits: u128)
    requires
        0 <= i < nets.len(),
        addr_in_group(nets[i], key) == Some(bits),
    ensures
        members(nets, key).contains(bits),
    decreases nets.len(),
{
    let rest = nets.drop_last();
    lemma_members_push(rest, nets.last(), key);
    assert(rest.push(nets.last()) =~= nets);
    let list = members(nets, key);
    if i < rest.len() {
        lemma_listed_is_member(rest, i, key, bits);
        let j = choose|j: int|
            0 <= j < members(rest, key).len() && members(rest, key)[j] == bits;
        assert(list[j] == bits);
    } else {
        assert(list[list.len() - 1] == bits);
    }
}

/// A link-local address, and one whose prefix is longer than /64, always stays, whatever is
/// answered about it.
pub proof fn law_ungrouped_addresses_stay(nets: Seq<IpNet>, picks: Picks, i: int)
    requires
        0 <= i < nets.len(),
        nets[i] matches IpNet::V6(net) && (net.prefix_len > 64
            || 0xfe80_0000_0000_0000_0000_0000_0000_0000 <= net.addr
            <= 0xfebf_ffff_ffff_ffff_ffff_ffff_ffff_ffff),
    ensures
        one_per_prefix(nets, picks).contains(nets[i]->V6_0.addr),
{
    let bits = nets[i]->V6_0.addr;
    let key = (bits, 128u8);
    lemma_listed_is_member(nets, i, key, bits);
    let one = chosen(members(nets, key), picks[key]);
    law_each_prefix_keeps_one(nets, picks, key);
    lemma_member_is_listed(nets, key, one);
    assert(one == bits);
}

/// `addr` with its bit `bit`, counted from the low end, flipped.
pub open spec fn flipped(addr: u128, bit: u128) -> u128 {
    addr ^ (1u128 << bit)
}

/// An address in the prefix of `members` that is none of them, for the OS to be asked which
/// source it would use towards it: the first member with one bit of its interface identifier
/// flipped, the lowest that gets it off the list.
pub fn ipv6_probe_target(members: &[u128]) -> (r: Option<u128>)
    ensures
        match r {
            Some(target) => {
                &&& members@.len() > 0
                &&& !members@.contains(target)
                &&& exists|bit: u128|
                    {
                        &&& bit < 64
                        &&& target == #[trigger] flipped(members@[0], bit)
                        &&& target == members@[0] ^ (1u128 << bit)
                        &&& forall|b: u128|
                            b < bit ==> members@.contains(#[trigger] flipped(members@[0], b))
                    }
            },
            None => members@.len() == 0 || forall|b: u128|
                b < 64 ==> members@.contains(#[trigger] flipped(members@[0], b)),
        },
{
    if members.len() == 0 {
        return None;
    }
    let first: u128 = members[0];
    let mut bit: u128 = 0;
    while bit < 64
        invariant
            bit <= 64,
            members@.len() > 0,
            first == members@[0],
            forall|b: u128| b < bit ==> members@.contains(#[trigger] flipped(first, b)),
        decreases 64 - bit,
    {
        let target: u128 = first ^ (1u128 << bit);
        assert(target == flipped(first, bit));
        if !holds(members, target) {
            return Some(target);
        }
        bit = bit + 1;
    }
    None
}

/// The IPv6 source the OS chose, from the local address of a connected probe socket.
pub fn ipv6_source(local: IpAddr) -> (r: Option<u128>)
    ensures
        r == match local {
            IpAddr::V6(bits) => Some(bits),
            IpAddr::V4(_) => None,
        },
{
    match local {
        IpAddr::V6(bits) => Some(bits),
        IpAddr::V4(_) => None,
    }
}

/// A probe target is another address of the same prefix: flipping an identifier bit changes the
/// address and leaves the network under every prefix of /64 or shorter as it was.
pub proof fn law_probe_stays_in_prefix(addr: u128, bit: u128, prefix_len: u8)
    requires
        bit < 64,
        prefix_len <= 64,
    ensures
        flipped(addr, bit) != addr,
        network_of(flipped(addr, bit), prefix_len) == network_of(addr, prefix_len),
{
    let other = flipped(addr, bit);
    assert(other != addr) by (bit_vector)
        requires
            other == addr ^ (1u128 << bit),
            bit < 64,
    ;
    assert(other / 0x1_0000_0000_0000_0000u128 == addr / 0x1_0000_0000_0000_0000u128)
        by (bit_vector)
        requires
            other == addr ^ (1u128 << bit),
            bit < 64,
    ;
    let low = (64 - prefix_len) as nat;
    let host = pow2((128 - prefix_len) as nat) as int;
    lemma_pow2_adds(64, low);
    lemma2_to64();
    lemma2_to64_rest();
    lemma_pow2_pos(low);
    let half = 0x1_0000_0000_0000_0000int;
    assert(host == half * pow2(low));
    lemma_div_denominator(addr as int, half, pow2(low) as int);
    lemma_div_denominator(other as int, half, pow2(low) as int);
    lemma_fundamental_div_mod(addr as int, host);
    lemma_fundamental_div_mod(other as int, host);
}

/// A list of at most 64 addresses always has a probe target: not all of the first one's flips can
/// be on it.
pub proof fn law_short_lists_have_a_probe_target(members: Seq<u128>)
    requires
        0 < members.len() <= 64,
    ensures
        exists|bit: u128| bit < 64 && !members.contains(#[trigger] flipped(members[0], bit)),
{
    let first = members[0];
    let f = |b: int| flipped(first, b as u128);
    let bits = set_int_range(0, 64);
    let flips = bits.map(f);
    lemma_int_range(0, 64);
    assert forall|b: int, c: int|
        bits.contains(b) && bits.contains(c) && #[trigger] f(b) == #[trigger] f(c) implies b
        == c by {
        let (u, v) = (b as u128, c as u128);
        assert(u < 64 && v < 64 && (first ^ (1u128 << u)) == (first ^ (1u128 << v)) ==> u == v)
            by (bit_vector);
    }
    lemma_map_size(bits, flips, f);
    assert(!flips.contains(first)) by {
        if flips.contains(first) {
            let b = choose|b: int| bits.contains(b) && f(b) == first;
            law_probe_stays_in_prefix(first, b as u128, 0);
        }
    }
    if forall|bit: u128| bit < 64 ==> members.contains(#[trigger] flipped(first, bit)) {
        assert(flips.insert(first).subset_of(members.to_set())) by {
            assert forall|a: u128|
                flips.insert(first).contains(a) implies members.to_set().contains(a) by {
                if flips.contains(a) {
                    let b = choose|b: int| bits.contains(b) && f(b) == a;
                    assert(members.contains(flipped(first, b as u128)));
                }
            }
        }
        seq_to_set_is_finite(members);
        lemma_len_subset(flips.insert(first), members.to_set());
        members.lemma_cardinality_of_set();
    }
}

/// A flip changes the one bit it is for and no other.
pub proof fn law_flip_changes_one_bit(addr: u128, bit: u128)
    requires
        bit < 128,
    ensures
        flipped(addr, bit) ^ addr == 1u128 << bit,
        flipped(flipped(addr, bit), bit) == addr,
{
    assert((addr ^ (1u128 << bit)) ^ addr == 1u128 << bit) by (bit_vector);
    assert((addr ^ (1u128 << bit)) ^ (1u128 << bit) == addr) by (bit_vector);
}

/// An address is link-local exactly if its first ten bits are those of fe80.
pub proof fn law_link_local_by_its_first_bits(addr: u128)
    ensures
        link_local(addr) <==> addr >> 118 == 0x3fa,
{
    assert((0xfe80_0000_0000_0000_0000_0000_0000_0000 <= addr
        <= 0xfebf_ffff_ffff_ffff_ffff_ffff_ffff_ffff) <==> addr >> 118 == 0x3fa) by (bit_vector);
}

/// The network of an address is the last multiple of the prefix's block size that is not above it.
pub proof fn law_network_is_the_blocks_first(addr: u128, prefix_len: u8)
    requires
        prefix_len <= 128,
    ensures
        network_of(addr, prefix_len) <= addr < network_of(addr, prefix_len) + pow2(
            (128 - prefix_len) as nat,
        ),
        network_of(addr, prefix_len) as int % pow2((128 - prefix_len) as nat) as int == 0,
{
    let host = pow2((128 - prefix_len) as nat) as int;
    lemma_pow2_pos((128 - prefix_len) as nat);
    lemma_mod_bound(addr as int, host);
    lemma_fundamental_div_mod(addr as int, host);
    lemma_mod_multiples_basic(addr as int / host, host);
    lemma_mul_is_commutative(addr as int / host, host);
    assert(addr as int % host <= addr) by {
        lemma_mod_decreases(addr as nat, host as nat);
    }
}

/// The addresses of `nets` in the network `network` of length `len`, as they are listed.
proof fn lemma_network_group(nets: Seq<IpNet>, network: u128, len: u8)
    requires
        len <= 64,
    ensures
        nets.filter_map(
            |n: IpNet|
                match n {
                    IpNet::V6(x) => if x.prefix_len == len && !(
                    0xfe80_0000_0000_0000_0000_0000_0000_0000 <= x.addr
                        <= 0xfebf_ffff_ffff_ffff_ffff_ffff_ffff_ffff) && network_of(x.addr, len)
                        == network {
                        Some(x.addr)
                    } else {
                        None
                    },
                    IpNet::V4(_) => None,
                },
        ) == members(nets, (network, len)),
{
    let f = |n: IpNet|
        match n {
            IpNet::V6(x) => if x.prefix_len == len && !(0xfe80_0000_0000_0000_0000_0000_0000_0000
                <= x.addr <= 0xfebf_ffff_ffff_ffff_ffff_ffff_ffff_ffff) && network_of(x.addr, len)
                == network {
                Some(x.addr)
            } else {
                None
            },
            IpNet::V4(_) => None,
        };
    let g = |n: IpNet| addr_in_group(n, (network, len));
    assert(f =~= g);
}

/// One network keeps one address. Take all listed IPv6 addresses with one prefix length of 64 or
/// less in one network, link-local ones apart. Where there is one, it is kept. Where there are
/// more, `pick` is asked about all of them, in the order they are listed, and what it answers is
/// kept if it is one of them, else the first; of the others none is kept, unless it is listed with
/// another prefix length as well.
pub proof fn law_network_keeps_one<F: Fn(&[u128]) -> Option<u128>>(
    pick: &F,
    nets: Seq<IpNet>,
    picks: Picks,
    network: u128,
    len: u8,
)
    requires
        all_answered(pick, nets, picks),
        len <= 64,
    ensures
        ({
            let kept = one_per_prefix(nets, picks);
            let group = nets.filter_map(
                |n: IpNet|
                    match n {
                        IpNet::V6(x) => if x.prefix_len == len && !(
                        0xfe80_0000_0000_0000_0000_0000_0000_0000 <= x.addr
                            <= 0xfebf_ffff_ffff_ffff_ffff_ffff_ffff_ffff) && network_of(
                            x.addr,
                            len,
                        ) == network {
                            Some(x.addr)
                        } else {
                            None
                        },
                        IpNet::V4(_) => None,
                    },
            );
            &&& group.len() == 1 ==> kept.contains(group[0])
            &&& group.len() >= 2 ==> exists|answer: Option<u128>, one: u128| #[trigger]
                answered(pick, group, answer) && #[trigger] kept.contains(one) && {
                    &&& answer matches Some(c) ==> group.contains(c) ==> one == c
                    &&& answer matches Some(c) ==> !group.contains(c) ==> one == group[0]
                    &&& answer is None ==> one == group[0]
                    &&& forall|other: u128| #[trigger]
                        group.contains(other) && other != one && (forall|k: int|
                            0 <= k < nets.len() && (#[trigger] nets[k]) is V6
                                && nets[k]->V6_0.addr == other ==> nets[k]->V6_0.prefix_len == len)
                            ==> !kept.contains(other)
                }
        }),
{
    let kept = one_per_prefix(nets, picks);
    let key = (network, len);
    let group = members(nets, key);
    lemma_network_group(nets, network, len);
    if group.len() >= 1 {
        law_each_prefix_keeps_one(nets, picks, key);
    }
    if group.len() >= 2 {
        let answer = picks[key];
        let one = chosen(group, answer);
        assert(answered(pick, group, answer));
        assert(kept.contains(one));
        assert forall|other: u128| #[trigger]
            group.contains(other) && other != one && (forall|k: int|
                0 <= k < nets.len() && (#[trigger] nets[k]) is V6 && nets[k]->V6_0.addr == other
                    ==> nets[k]->V6_0.prefix_len == len) implies !kept.contains(other) by {
            lemma_member_is_listed(nets, key, other);
            if kept.contains(other) {
                let key2 = choose|key2: (u128, u8)|
                    (#[trigger] members(nets, key2)).len() > 0 && other == chosen(
                        members(nets, key2),
                        picks[key2],
                    );
                assert(members(nets, key2).contains(other)) by {
                    law_each_prefix_keeps_one(nets, picks, key2);
                }
                lemma_member_is_listed(nets, key2, other);
                let i = choose|i: int|
                    0 <= i < nets.len() && (#[trigger] nets[i]).ip() == IpAddr::V6(other)
                        && addr_in_group(nets[i], key2) == Some(other);
                assert(nets[i] is V6 && nets[i]->V6_0.prefix_len == len);
                assert(key2 == key);
            }
        }
    }
}

proof fn lemma_two_members(nets: Seq<IpNet>, i: int, j: int, key: (u128, u8))
    requires
        0 <= i < j < nets.len(),
        addr_in_group(nets[i], key) is Some,
        addr_in_group(nets[j], key) is Some,
    ensures
        members(nets, key).len() >= 2,
    decreases nets.len(),
{
    let rest = nets.drop_last();
    lemma_members_push(rest, nets.last(), key);
    assert(rest.push(nets.last()) =~= nets);
    if j < rest.len() {
        lemma_two_members(rest, i, j, key);
    } else {
        lemma_listed_is_member(rest, i, key, addr_in_group(nets[i], key)->0);
    }
}

/// Two listed addresses of one network are asked about together. If they are not link-local, and
/// have one prefix length of 64 or less and one network, `pick` is asked about a list that holds
/// both; and if it names one of that list, no other address of that network and length is kept
/// that is listed once.
pub proof fn law_same_network_is_asked_together<F: Fn(&[u128]) -> Option<u128>>(
    pick: &F,
    nets: Seq<IpNet>,
    picks: Picks,
    i: int,
    j: int,
)
    requires
        all_answered(pick, nets, picks),
        0 <= i < j < nets.len(),
        nets[i] is V6,
        nets[j] is V6,
        nets[i]->V6_0.prefix_len <= 64,
        nets[j]->V6_0.prefix_len == nets[i]->V6_0.prefix_len,
        !(0xfe80_0000_0000_0000_0000_0000_0000_0000 <= nets[i]->V6_0.addr
            <= 0xfebf_ffff_ffff_ffff_ffff_ffff_ffff_ffff),
        !(0xfe80_0000_0000_0000_0000_0000_0000_0000 <= nets[j]->V6_0.addr
            <= 0xfebf_ffff_ffff_ffff_ffff_ffff_ffff_ffff),
        network_of(nets[i]->V6_0.addr, nets[i]->V6_0.prefix_len) == network_of(
            nets[j]->V6_0.addr,
            nets[j]->V6_0.prefix_len,
        ),
    ensures
        exists|group: Seq<u128>, answer: Option<u128>| #[trigger]
            answered(pick, group, answer) && {
                &&& group.contains(nets[i]->V6_0.addr)
                &&& group.contains(nets[j]->V6_0.addr)
                &&& answer matches Some(c) ==> group.contains(c) ==> {
                    &&& one_per_prefix(nets, picks).contains(c)
                    &&& forall|k: int|
                        0 <= k < nets.len() && (#[trigger] nets[k]) is V6 && nets[k]->V6_0.addr
                            != c && nets[k]->V6_0.prefix_len == nets[i]->V6_0.prefix_len && !(
                        0xfe80_0000_0000_0000_0000_0000_0000_0000 <= nets[k]->V6_0.addr
                            <= 0xfebf_ffff_ffff_ffff_ffff_ffff_ffff_ffff) && network_of(
                            nets[k]->V6_0.addr,
                            nets[k]->V6_0.prefix_len,
                        ) == network_of(nets[i]->V6_0.addr, nets[i]->V6_0.prefix_len) && (forall|
                            m: int,
                        |
                            0 <= m < nets.len() && m != k ==> (#[trigger] nets[m]).ip()
                                != nets[k].ip()) ==> !one_per_prefix(nets, picks).contains(
                            nets[k]->V6_0.addr,
                        )
                }
            },
{
    let (a, b) = (nets[i]->V6_0.addr, nets[j]->V6_0.addr);
    let len = nets[i]->V6_0.prefix_len;
    let network = network_of(a, len);
    let key = (network, len);
    let group = members(nets, key);
    law_network_keeps_one(pick, nets, picks, network, len);
    lemma_network_group(nets, network, len);
    lemma_listed_is_member(nets, i, key, a);
    lemma_listed_is_member(nets, j, key, b);
    lemma_two_members(nets, i, j, key);
    let (answer, one) = choose|answer: Option<u128>, one: u128| #[trigger]
        answered(pick, group, answer) && #[trigger] one_per_prefix(nets, picks).contains(one) && {
            &&& answer matches Some(c) ==> group.contains(c) ==> one == c
            &&& answer matches Some(c) ==> !group.contains(c) ==> one == group[0]
            &&& answer is None ==> one == group[0]
            &&& forall|other: u128| #[trigger]
                group.contains(other) && other != one && (forall|k: int|
                    0 <= k < nets.len() && (#[trigger] nets[k]) is V6 && nets[k]->V6_0.addr
                        == other ==> nets[k]->V6_0.prefix_len == len) ==> !one_per_prefix(
                    nets,
                    picks,
                ).contains(other)
        };
    if let Some(c) = answer {
        if group.contains(c) {
            assert forall|k: int|
                0 <= k < nets.len() && (#[trigger] nets[k]) is V6 && nets[k]->V6_0.addr != c
                    && nets[k]->V6_0.prefix_len == len && !(
                0xfe80_0000_0000_0000_0000_0000_0000_0000 <= nets[k]->V6_0.addr
                    <= 0xfebf_ffff_ffff_ffff_ffff_ffff_ffff_ffff) && network_of(
                    nets[k]->V6_0.addr,
                    nets[k]->V6_0.prefix_len,
                ) == network && (forall|m: int|
                    0 <= m < nets.len() && m != k ==> (#[trigger] nets[m]).ip()
                        != nets[k].ip()) implies !one_per_prefix(nets, picks).contains(
                nets[k]->V6_0.addr,
            ) by {
                let other = nets[k]->V6_0.addr;
                lemma_listed_is_member(nets, k, key, other);
                assert forall|m: int|
                    0 <= m < nets.len() && (#[trigger] nets[m]) is V6 && nets[m]->V6_0.addr
                        == other implies nets[m]->V6_0.prefix_len == len by {
                    assert(m == k);
                }
                assert(group.contains(other) && other != one);
            }
        }
    }
}

/// A probe target is a neighbour that nobody has: it is not on the list, shares its upper 64 bits
/// with the first address, and differs from it in one bit. Every address that differs in a lower
/// bit is on the list. Where the list is not empty and has at most 64 addresses, there is one.
pub proof fn law_probe_target_is_a_free_neighbour(members: &[u128], r: Option<u128>)
    requires
        call_ensures(ipv6_probe_target, (members,), r),
    ensures
        members@.len() == 0 ==> r is None,
        0 < members@.len() <= 64 ==> r is Some,
        r matches Some(target) ==> {
            &&& !members@.contains(target)
            &&& target >> 64 == members@[0] >> 64
            &&& target != members@[0]
            &&& exists|bit: u128|
                bit < 64 && (target ^ members@[0]) == #[trigger] (1u128 << bit) && forall|b: u128|
                    b < bit ==> members@.contains(members@[0] ^ (#[trigger] (1u128 << b)))
        },
{
    if 0 < members@.len() <= 64 {
        law_short_lists_have_a_probe_target(members@);
    }
    if let Some(target) = r {
        let first = members@[0];
        let bit = choose|bit: u128|
            {
                &&& bit < 64
                &&& target == #[trigger] flipped(first, bit)
                &&& target == first ^ (1u128 << bit)
                &&& forall|b: u128| b < bit ==> members@.contains(#[trigger] flipped(first, b))
            };
        law_flip_changes_one_bit(first, bit);
        law_probe_stays_in_prefix(first, bit, 64);
        assert((first ^ (1u128 << bit)) >> 64 == first >> 64) by (bit_vector)
            requires
                bit < 64,
        ;
        assert forall|b: u128| b < bit implies members@.contains(
            first ^ (#[trigger] (1u128 << b)),
        ) by {
            assert(members@.contains(flipped(first, b)));
        }
        assert((target ^ first) == (1u128 << bit));
    }
}

/// What is kept of a group is one of its own: the answer where it is one of them, else the first.
pub proof fn law_kept_is_one_of_the_group(members: &[u128], answer: Option<u128>, r: u128)
    requires
        members@.len() > 0,
        call_ensures(keep_one, (members, answer), r),
    ensures
        members@.contains(r),
        r == members@[0] || answer == Some(r),
        answer matches Some(c) ==> members@.contains(c) ==> r == c,
        answer matches Some(c) ==> !members@.contains(c) ==> r == members@[0],
        answer is None ==> r == members@[0],
{
}

} // verus!

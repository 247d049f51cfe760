//! The adapter list of Windows, as interfaces with addresses and netmasks.

use crate::adapter_codes::IpDadState;
use crate::addr::{SocketAddr, SocketAddrV4, SocketAddrV6};
use crate::bytes::{be, law_be_is_network_order, le16, le32, read_be, read_le16, read_le32};
use crate::text::{decimal, from_utf8_lossy, to_decimal, utf8_lossy};
use vstd::arithmetic::power2::{
    lemma2_to64, lemma2_to64_rest, lemma_pow2_adds, lemma_pow2_pos,
    lemma_pow2_strictly_increases, lemma_pow2_unfold, pow2,
};
use vstd::prelude::*;
use vstd::utf8::{decode_utf8, decode_utf8_encode_utf8, valid_utf8};

verus! {

/// The address family of IPv4.
pub const AF_INET: u16 = 2;

/// The address family of IPv6.
pub const AF_INET6: u16 = 23;

/// An address of an adapter.
pub struct IpAdapterUnicastAddress {
    /// The size of the system's record of the address; zero where there is none.
    pub length: u32,
    /// The socket address as it lies in memory: the family first, in the little-endian order of
    /// the system, then what the family defines.
    pub address: Vec<u8>,
    pub dad_state: IpDadState,
    /// The length of the prefix that is on the link.
    pub on_link_prefix_length: u8,
}

/// An adapter with its addresses.
pub struct IpAdapterAddresses {
    /// The bytes of the adapter's name up to the terminating zero, if it has a name.
    pub adapter_name: Option<Vec<u8>>,
    pub ipv6_if_index: u32,
    pub unicast_addresses: Vec<IpAdapterUnicastAddress>,
}

impl IpAdapterUnicastAddress {
    /// The record holds a whole socket address of its family: the family itself, and 16 bytes for
    /// an IPv4 one, 28 for an IPv6 one.
    pub open spec fn readable(&self) -> bool {
        self.length != 0 ==> {
            &&& self.address@.len() >= 2
            &&& self.family() == AF_INET ==> self.address@.len() >= 16
            &&& self.family() == AF_INET6 ==> self.address@.len() >= 28
        }
    }

    pub open spec fn family(&self) -> int {
        le16(self.address@, 0)
    }

    pub open spec fn has_family(&self, family: u16) -> bool {
        self.length != 0 && self.family() == family
    }

    /// The IPv4 socket address held after the family and the port, port left at zero.
    pub open spec fn v4(&self) -> SocketAddrV4 {
        SocketAddrV4 { ip: be(self.address@, 4, 4) as u32, port: 0 }
    }

    /// The IPv6 socket address held after the family and the port, port left at zero.
    pub open spec fn v6(&self) -> SocketAddrV6 {
        SocketAddrV6 {
            ip: be(self.address@, 8, 16) as u128,
            port: 0,
            flowinfo: le32(self.address@, 4) as u32,
            scope_id: le32(self.address@, 24) as u32,
        }
    }
}

/// Whether the record holds an IPv4 address.
pub fn is_ipv4_enabled(unicast_addr: &IpAdapterUnicastAddress) -> (r: bool)
    requires
        unicast_addr.readable(),
    ensures
        r == unicast_addr.has_family(AF_INET),
        r == (unicast_addr.length != 0 && unicast_addr.address@[0] == 2
            && unicast_addr.address@[1] == 0),
{
    unicast_addr.length != 0 && read_le16(unicast_addr.address.as_slice(), 0) == AF_INET
}

/// Whether the record holds an IPv6 address.
pub fn is_ipv6_enabled(unicast_addr: &IpAdapterUnicastAddress) -> (r: bool)
    requires
        unicast_addr.readable(),
    ensures
        r == unicast_addr.has_family(AF_INET6),
        r == (unicast_addr.length != 0 && unicast_addr.address@[0] == 23
            && unicast_addr.address@[1] == 0),
{
    unicast_addr.length != 0 && read_le16(unicast_addr.address.as_slice(), 0) == AF_INET6
}

/// The IPv4 socket address of the record, with port zero.
pub fn v4_socket_from_adapter(unicast_addr: &IpAdapterUnicastAddress) -> (r: SocketAddrV4)
    requires
        unicast_addr.address@.len() >= 16,
    ensures
        r == unicast_addr.v4(),
        r.ip == be(unicast_addr.address@, 4, 4),
        r.port == 0,
{
    proof {
        lemma2_to64();
    }
    SocketAddrV4 { ip: read_be(unicast_addr.address.as_slice(), 4, 4) as u32, port: 0 }
}

/// The IPv6 socket address of the record, with port zero. The address is read in the order it has
/// on the wire; the flow label and the scope are the system's own numbers.
pub fn v6_socket_from_adapter(unicast_addr: &IpAdapterUnicastAddress) -> (r: SocketAddrV6)
    requires
        unicast_addr.address@.len() >= 28,
    ensures
        r == unicast_addr.v6(),
        r.ip == be(unicast_addr.address@, 8, 16),
        r.port == 0,
        r.flowinfo == le32(unicast_addr.address@, 4),
        r.scope_id == le32(unicast_addr.address@, 24),
{
    let bytes = unicast_addr.address.as_slice();
    SocketAddrV6 {
        ip: read_be(bytes, 8, 16),
        port: 0,
        flowinfo: read_le32(bytes, 4),
        scope_id: read_le32(bytes, 24),
    }
}

/// The netmask of an IPv4 prefix: its first `prefix_len` bits set, and all of them for a length
/// past 32.
pub open spec fn mask_bits_v4(prefix_len: u8) -> int {
    if prefix_len <= 32 {
        0x1_0000_0000 - pow2((32 - prefix_len) as nat)
    } else {
        0xffff_ffff
    }
}

/// The netmask of an IPv6 prefix: its first `prefix_len` bits set, and all of them for a length
/// past 128.
pub open spec fn mask_bits_v6(prefix_len: u8) -> int {
    if prefix_len <= 128 {
        0x1_0000_0000_0000_0000_0000_0000_0000_0000 - pow2((128 - prefix_len) as nat)
    } else {
        0xffff_ffff_ffff_ffff_ffff_ffff_ffff_ffff
    }
}

proof fn lemma_one_shl_u128(k: u128)
    requires
        k < 128,
    ensures
        (1u128 << k) == pow2(k as nat),
    decreases k,
{
    if k == 0 {
        assert((1u128 << 0u128) == 1) by (bit_vector);
        lemma2_to64();
    } else {
        let j = (k - 1) as u128;
        lemma_one_shl_u128(j);
        lemma_pow2_unfold(k as nat);
        assert((1u128 << k) == 2 * (1u128 << j)) by (bit_vector)
            requires
                0 < k < 128,
                j == k - 1,
        ;
    }
}

/// The on-link prefix as an IPv4 netmask.
pub fn v4_mask(prefix_len: u8) -> (r: SocketAddr)
    ensures
        r matches SocketAddr::V4(a) && a.ip == mask_bits_v4(prefix_len) && a.port == 0,
        prefix_len <= 32 ==> r->V4_0.ip + pow2((32 - prefix_len) as nat) == 0x1_0000_0000,
        prefix_len > 32 ==> r->V4_0.ip == 0xffff_ffff,
{
    let n: u32 = if prefix_len < 32 {
        prefix_len as u32
    } else {
        32
    };
    let bits: u32 = if n == 0 {
        0
    } else {
        u32::MAX << (32 - n)
    };
    proof {
        lemma2_to64();
        if n > 0 {
            let k = (32 - n) as u32;
            let wide = k as u128;
            lemma_one_shl_u128(wide);
            assert((0xffff_ffffu32 << k) == 0x1_0000_0000u128 - (1u128 << wide)) by (bit_vector)
                requires
                    k < 32,
                    wide == k as u128,
            ;
        }
    }
    SocketAddr::V4(SocketAddrV4 { ip: bits, port: 0 })
}

/// The on-link prefix as an IPv6 netmask.
pub fn v6_mask(prefix_len: u8) -> (r: SocketAddr)
    ensures
        r matches SocketAddr::V6(a) && a.ip == mask_bits_v6(prefix_len) && a.port == 0
            && a.flowinfo == 0 && a.scope_id == 0,
        prefix_len <= 128 ==> r->V6_0.ip + pow2((128 - prefix_len) as nat)
            == 0x1_0000_0000_0000_0000_0000_0000_0000_0000,
        prefix_len > 128 ==> r->V6_0.ip == 0xffff_ffff_ffff_ffff_ffff_ffff_ffff_ffff,
{
    let n: u128 = if prefix_len < 128 {
        prefix_len as u128
    } else {
        128
    };
    let bits: u128 = if n == 0 {
        0
    } else {
        u128::MAX << (128 - n)
    };
    proof {
        lemma2_to64();
        lemma2_to64_rest();
        lemma_pow2_adds(64, 64);
        if n > 0 {
            let k = (128 - n) as u128;
            lemma_one_shl_u128(k);
            assert((0xffff_ffff_ffff_ffff_ffff_ffff_ffff_ffffu128 << k)
                == 0xffff_ffff_ffff_ffff_ffff_ffff_ffff_ffffu128 - (1u128 << k) + 1)
                by (bit_vector)
                requires
                    k < 128,
            ;
        }
    }
    SocketAddr::V6(SocketAddrV6 { ip: bits, port: 0, flowinfo: 0, scope_id: 0 })
}

/// The prefix length can be read back off its netmask: no two lengths of a family share one.
pub proof fn law_masks_round_trip(m: u8, n: u8)
    ensures
        m <= 32 && n <= 32 && mask_bits_v4(m) == mask_bits_v4(n) ==> m == n,
        m <= 128 && n <= 128 && mask_bits_v6(m) == mask_bits_v6(n) ==> m == n,
{
    if m < n && n <= 32 {
        lemma_pow2_strictly_increases((32 - n) as nat, (32 - m) as nat);
    }
    if n < m && m <= 32 {
        lemma_pow2_strictly_increases((32 - m) as nat, (32 - n) as nat);
    }
    if m < n && n <= 128 {
        lemma_pow2_strictly_increases((128 - n) as nat, (128 - m) as nat);
    }
    if n < m && m <= 128 {
        lemma_pow2_strictly_increases((128 - m) as nat, (128 - n) as nat);
    }
}

/// What an interface is listed for.
#[derive(Clone, Copy, Debug, PartialEq, Eq, Structural)]
pub enum Kind {
    Ipv4,
    Ipv6,
}

/// Where an interface's packets go next.
#[derive(Clone, Copy, Debug, PartialEq, Eq, Structural)]
pub enum NextHop {
    Broadcast(SocketAddr),
    Destination(SocketAddr),
}

/// One address of a named interface.
#[derive(Debug)]
pub struct Interface {
    pub name: String,
    pub kind: Kind,
    pub addr: Option<SocketAddr>,
    pub mask: Option<SocketAddr>,
    pub hop: Option<NextHop>,
}

/// An [`Interface`] with its name as text.
pub struct InterfaceView {
    pub name: Seq<char>,
    pub kind: Kind,
    pub addr: Option<SocketAddr>,
    pub mask: Option<SocketAddr>,
    pub hop: Option<NextHop>,
}

impl View for Interface {
    type V = InterfaceView;

    open spec fn view(&self) -> InterfaceView {
        InterfaceView {
            name: self.name@,
            kind: self.kind,
            addr: self.addr,
            mask: self.mask,
            hop: self.hop,
        }
    }
}

impl IpAdapterAddresses {
    /// The adapter's own name, or its index where it has none. A name that is not UTF-8 is read
    /// with replacement characters.
    pub open spec fn name(&self) -> Seq<char> {
        match self.adapter_name {
            Some(bytes) => if valid_utf8(bytes@) {
                decode_utf8(bytes@)
            } else {
                utf8_lossy(bytes@)
            },
            None => decimal(self.ipv6_if_index as nat),
        }
    }

    /// What an address of the adapter is listed as: nothing if it is deprecated, for such a one
    /// comes with an interface index that is not to be trusted, or of neither IP family. The
    /// scope of an IPv6 address is the adapter's index.
    pub open spec fn entry(&self, unicast: IpAdapterUnicastAddress) -> Option<InterfaceView> {
        if unicast.dad_state == IpDadState::IpDadStateDeprecated {
            None
        } else if unicast.has_family(AF_INET) {
            Some(
                InterfaceView {
                    name: self.name(),
                    kind: Kind::Ipv4,
                    addr: Some(SocketAddr::V4(unicast.v4())),
                    mask: Some(
                        SocketAddr::V4(
                            SocketAddrV4 {
                                ip: mask_bits_v4(unicast.on_link_prefix_length) as u32,
                                port: 0,
                            },
                        ),
                    ),
                    hop: None,
                },
            )
        } else if unicast.has_family(AF_INET6) {
            Some(
                InterfaceView {
                    name: self.name(),
                    kind: Kind::Ipv6,
                    addr: Some(
                        SocketAddr::V6(
                            SocketAddrV6 { scope_id: self.ipv6_if_index, ..unicast.v6() },
                        ),
                    ),
                    mask: Some(
                        SocketAddr::V6(
                            SocketAddrV6 {
                                ip: mask_bits_v6(unicast.on_link_prefix_length) as u128,
                                port: 0,
                                flowinfo: 0,
                                scope_id: 0,
                            },
                        ),
                    ),
                    hop: None,
                },
            )
        } else {
            None
        }
    }

    /// What the adapter's addresses are listed as, in their order.
    pub open spec fn entries(&self) -> Seq<InterfaceView> {
        self.unicast_addresses@.filter_map(|u: IpAdapterUnicastAddress| self.entry(u))
    }

    /// Every record that will be read holds a whole socket address.
    pub open spec fn readable(&self) -> bool {
        forall|i: int|
            0 <= i < self.unicast_addresses@.len() && (
            #[trigger] self.unicast_addresses@[i]).dad_state != IpDadState::IpDadStateDeprecated
                ==> self.unicast_addresses@[i].readable()
    }
}

/// What all adapters' addresses are listed as, adapter by adapter.
pub open spec fn listed(adapters: Seq<IpAdapterAddresses>) -> Seq<InterfaceView>
    decreases adapters.len(),
{
    if adapters.len() == 0 {
        Seq::empty()
    } else {
        listed(adapters.drop_last()) + adapters.last().entries()
    }
}

/// The adapter's own name, so that one adapter's addresses are kept apart from another's: with
/// every adapter under one name, Ethernet and Wi-Fi on the same LAN would fold into a single
/// choice of address per prefix. The index stands in for a missing name.
pub fn adapter_name(adapter: &IpAdapterAddresses) -> (r: String)
    ensures
        r@ == adapter.name(),
        adapter.adapter_name matches Some(name) ==> valid_utf8(name@) ==> r@ == decode_utf8(name@),
        adapter.adapter_name is None ==> r@ == decimal(adapter.ipv6_if_index as nat),
{
    match &adapter.adapter_name {
        Some(name) => from_utf8_lossy(name.as_slice()),
        None => to_decimal(adapter.ipv6_if_index),
    }
}

/// Lists the addresses of one adapter after what `list` holds.
fn add_adapter(list: &mut Vec<Interface>, adapter: &IpAdapterAddresses)
    requires
        adapter.readable(),
    ensures
        final(list)@.map_values(|i: Interface| i@) == old(list)@.map_values(|i: Interface| i@)
            + adapter.entries(),
{
    let name = adapter_name(adapter);
    let records = adapter.unicast_addresses.as_slice();
    let ghost before = list@.map_values(|i: Interface| i@);
    let ghost f = |u: IpAdapterUnicastAddress| adapter.entry(u);
    assert(records@.take(0) =~= Seq::<IpAdapterUnicastAddress>::empty());
    assert(list@.map_values(|i: Interface| i@) =~= before + records@.take(0).filter_map(f));
    for i in 0..records.len()
        invariant
            adapter.readable(),
            records@ == adapter.unicast_addresses@,
            name@ == adapter.name(),
            f == |u: IpAdapterUnicastAddress| adapter.entry(u),
            list@.map_values(|i: Interface| i@) == before + records@.take(i as int).filter_map(f),
    {
        let record = &records[i];
        assert(records@.take(i + 1).drop_last() =~= records@.take(i as int));
        let ghost list_before = list@;
        if record.dad_state != IpDadState::IpDadStateDeprecated {
            if is_ipv4_enabled(record) {
                list.push(
                    Interface {
                        name: name.clone(),
                        kind: Kind::Ipv4,
                        addr: Some(SocketAddr::V4(v4_socket_from_adapter(record))),
                        mask: Some(v4_mask(record.on_link_prefix_length)),
                        hop: None,
                    },
                );
            } else if is_ipv6_enabled(record) {
                let mut socket = v6_socket_from_adapter(record);
                socket.scope_id = adapter.ipv6_if_index;
                list.push(
                    Interface {
                        name: name.clone(),
                        kind: Kind::Ipv6,
                        addr: Some(SocketAddr::V6(socket)),
                        mask: Some(v6_mask(record.on_link_prefix_length)),
                        hop: None,
                    },
                );
            }
        }
        proof {
            match adapter.entry(*record) {
                Some(view) => {
                    assert(list@.last()@ == view);
                    assert(list@.map_values(|i: Interface| i@) =~= list_before.map_values(
                        |i: Interface| i@,
                    ).push(view));
                },
                None => {},
            }
            assert(list@.map_values(|i: Interface| i@) =~= before + records@.take(
                i + 1,
            ).filter_map(f));
        }
    }
    assert(records@.take(records@.len() as int) =~= records@);
}

/// The interfaces that the adapter list holds, one for each usable IP address.
pub fn map_adapter_addresses(adapters: &[IpAdapterAddresses]) -> (r: Vec<Interface>)
    requires
        forall|i: int| 0 <= i < adapters@.len() ==> (#[trigger] adapters@[i]).readable(),
    ensures
        r@.map_values(|i: Interface| i@) == listed(adapters@),
{
    let mut list: Vec<Interface> = Vec::new();
    assert(adapters@.take(0) =~= Seq::<IpAdapterAddresses>::empty());
    assert(list@.map_values(|i: Interface| i@) =~= Seq::<InterfaceView>::empty());
    for i in 0..adapters.len()
        invariant
            forall|j: int| 0 <= j < adapters@.len() ==> (#[trigger] adapters@[j]).readable(),
            list@.map_values(|i: Interface| i@) == listed(adapters@.take(i as int)),
    {
        assert(adapters@.take(i + 1).drop_last() =~= adapters@.take(i as int));
        add_adapter(&mut list, &adapters[i]);
    }
    assert(adapters@.take(adapters@.len() as int) =~= adapters@);
    list
}

/// The adapter list was written.
pub const ERROR_SUCCESS: u32 = 0;

pub const ERROR_NOT_ENOUGH_MEMORY: u32 = 8;

pub const ERROR_INVALID_PARAMETER: u32 = 87;

/// The buffer is too small for the adapter list.
pub const ERROR_BUFFER_OVERFLOW: u32 = 111;

pub const ERROR_NO_DATA: u32 = 232;

pub const ERROR_ADDRESS_NOT_ASSOCIATED: u32 = 1228;

/// The kind of a failure to get the adapter list.
#[derive(Clone, Copy, Debug, PartialEq, Eq, Structural)]
pub enum ErrorKind {
    AddrNotAvailable,
    InvalidInput,
    Other,
}

/// What to do after the system was asked for the adapter list.
#[derive(Debug)]
pub enum BufferStep {
    /// The buffer holds the list.
    Ready,
    /// The buffer must hold this many bytes; then ask again.
    Grow(u32),
    /// There is no list to be had.
    Failed(ErrorKind, &'static str),
}

/// The kind of failure that a return code stands for.
pub open spec fn failure_kind(ret_code: u32) -> ErrorKind {
    if ret_code == ERROR_ADDRESS_NOT_ASSOCIATED || ret_code == ERROR_NO_DATA {
        ErrorKind::AddrNotAvailable
    } else if ret_code == ERROR_INVALID_PARAMETER {
        ErrorKind::InvalidInput
    } else {
        ErrorKind::Other
    }
}

/// What is said of the failure that a return code stands for.
pub open spec fn failure_text(ret_code: u32) -> Seq<char> {
    if ret_code == ERROR_ADDRESS_NOT_ASSOCIATED {
        "An address has not yet been associated with the network endpoint."@
    } else if ret_code == ERROR_INVALID_PARAMETER {
        "One of the parameters is invalid."@
    } else if ret_code == ERROR_NOT_ENOUGH_MEMORY {
        "Insufficient memory resources are available to complete the operation."@
    } else if ret_code == ERROR_NO_DATA {
        "No addresses were found for the requested parameters."@
    } else {
        "Some Other Error Occurred."@
    }
}

/// What to do after the system answered the request for the adapter list with `ret_code`, and
/// gave `length` as the size it needs.
pub fn local_ifaces_with_buffer(ret_code: u32, length: u32) -> (r: BufferStep)
    ensures
        (r is Ready) == (ret_code == 0),
        (r is Grow) == (ret_code == 111),
        match r {
            BufferStep::Ready => ret_code == ERROR_SUCCESS,
            BufferStep::Grow(size) => ret_code == ERROR_BUFFER_OVERFLOW && size == length,
            BufferStep::Failed(kind, text) => {
                &&& ret_code != ERROR_SUCCESS
                &&& ret_code != ERROR_BUFFER_OVERFLOW
                &&& kind == failure_kind(ret_code)
                &&& text@ == failure_text(ret_code)
            },
        },
{
    if ret_code == ERROR_SUCCESS {
        BufferStep::Ready
    } else if ret_code == ERROR_ADDRESS_NOT_ASSOCIATED {
        BufferStep::Failed(
            ErrorKind::AddrNotAvailable,
            "An address has not yet been associated with the network endpoint.",
        )
    } else if ret_code == ERROR_BUFFER_OVERFLOW {
        BufferStep::Grow(length)
    } else if ret_code == ERROR_INVALID_PARAMETER {
        BufferStep::Failed(ErrorKind::InvalidInput, "One of the parameters is invalid.")
    } else if ret_code == ERROR_NOT_ENOUGH_MEMORY {
        BufferStep::Failed(
            ErrorKind::Other,
            "Insufficient memory resources are available to complete the operation.",
        )
    } else if ret_code == ERROR_NO_DATA {
        BufferStep::Failed(
            ErrorKind::AddrNotAvailable,
            "No addresses were found for the requested parameters.",
        )
    } else {
        BufferStep::Failed(ErrorKind::Other, "Some Other Error Occurred.")
    }
}

proof fn lemma_masks_in_numbers(prefix_len: u8)
    ensures
        prefix_len <= 32 ==> mask_bits_v4(prefix_len) + pow2((32 - prefix_len) as nat)
            == 0x1_0000_0000,
        prefix_len >= 32 ==> mask_bits_v4(prefix_len) == 0xffff_ffff,
        0 <= mask_bits_v4(prefix_len) <= 0xffff_ffff,
        prefix_len <= 128 ==> mask_bits_v6(prefix_len) + pow2((128 - prefix_len) as nat)
            == 0x1_0000_0000_0000_0000_0000_0000_0000_0000,
        prefix_len >= 128 ==> mask_bits_v6(prefix_len)
            == 0xffff_ffff_ffff_ffff_ffff_ffff_ffff_ffff,
        0 <= mask_bits_v6(prefix_len) <= 0xffff_ffff_ffff_ffff_ffff_ffff_ffff_ffff,
{
    lemma2_to64();
    lemma2_to64_rest();
    lemma_pow2_adds(64, 64);
    if 0 < prefix_len <= 32 {
        lemma_pow2_strictly_increases((32 - prefix_len) as nat, 32);
    }
    if prefix_len <= 32 {
        lemma_pow2_pos((32 - prefix_len) as nat);
    }
    if 0 < prefix_len <= 128 {
        lemma_pow2_strictly_increases((128 - prefix_len) as nat, 128);
    }
    if prefix_len <= 128 {
        lemma_pow2_pos((128 - prefix_len) as nat);
    }
}

/// A netmask has its first `prefix_len` bits set and no other: what is missing to all bits set,
/// and one more, is two to the number of the bits that follow. From the size of the address on,
/// all bits are set.
pub proof fn law_mask_has_its_leading_bits(prefix_len: u8)
    ensures
        prefix_len <= 32 ==> mask_bits_v4(prefix_len) + pow2((32 - prefix_len) as nat)
            == 0x1_0000_0000,
        prefix_len >= 32 ==> mask_bits_v4(prefix_len) == 0xffff_ffff,
        prefix_len == 0 ==> mask_bits_v4(prefix_len) == 0 && mask_bits_v6(prefix_len) == 0,
        prefix_len <= 128 ==> mask_bits_v6(prefix_len) + pow2((128 - prefix_len) as nat)
            == 0x1_0000_0000_0000_0000_0000_0000_0000_0000,
        prefix_len >= 128 ==> mask_bits_v6(prefix_len)
            == 0xffff_ffff_ffff_ffff_ffff_ffff_ffff_ffff,
{
    lemma_masks_in_numbers(prefix_len);
    lemma2_to64();
    lemma2_to64_rest();
    lemma_pow2_adds(64, 64);
}

/// What one record comes to, in its own fields: an IPv4 or IPv6 address that is not deprecated is
/// an interface, under the adapter's name, with the address of the record, port zero, and the
/// netmask of its prefix. The scope of an IPv6 address is the adapter's index, whatever the
/// address is and whatever scope the record holds. Any other record comes to nothing.
pub proof fn law_record_in_fields(adapter: IpAdapterAddresses, record: IpAdapterUnicastAddress)
    ensures
        adapter.entry(record) is Some <==> {
            &&& record.dad_state != IpDadState::IpDadStateDeprecated
            &&& record.length != 0
            &&& (record.address@[0] == 2 || record.address@[0] == 23)
            &&& record.address@[1] == 0
        },
        adapter.entry(record) matches Some(e) ==> {
            &&& e.hop is None
            &&& adapter.adapter_name matches Some(name) ==> valid_utf8(name@) ==> e.name
                == decode_utf8(name@)
            &&& adapter.adapter_name matches Some(name) ==> !valid_utf8(name@) ==> e.name
                == utf8_lossy(name@)
            &&& adapter.adapter_name is None ==> e.name == decimal(adapter.ipv6_if_index as nat)
            &&& (e.kind is Ipv4) == (record.address@[0] == 2)
            &&& e.kind is Ipv4 ==> {
                &&& e.addr is Some && e.addr->0 is V4
                &&& e.addr->0->V4_0.ip == be(record.address@, 4, 4)
                &&& e.addr->0->V4_0.port == 0
                &&& e.mask is Some && e.mask->0 is V4
                &&& e.mask->0->V4_0.port == 0
                &&& record.on_link_prefix_length <= 32 ==> e.mask->0->V4_0.ip + pow2(
                    (32 - record.on_link_prefix_length) as nat,
                ) == 0x1_0000_0000
                &&& record.on_link_prefix_length > 32 ==> e.mask->0->V4_0.ip == 0xffff_ffff
            }
            &&& e.kind is Ipv6 ==> {
                &&& e.addr is Some && e.addr->0 is V6
                &&& e.addr->0->V6_0.scope_id == adapter.ipv6_if_index
                &&& e.addr->0->V6_0.ip == be(record.address@, 8, 16)
                &&& e.addr->0->V6_0.port == 0
                &&& e.addr->0->V6_0.flowinfo == le32(record.address@, 4)
                &&& e.mask is Some && e.mask->0 is V6
                &&& e.mask->0->V6_0.port == 0
                &&& e.mask->0->V6_0.flowinfo == 0
                &&& e.mask->0->V6_0.scope_id == 0
                &&& record.on_link_prefix_length <= 128 ==> e.mask->0->V6_0.ip + pow2(
                    (128 - record.on_link_prefix_length) as nat,
                ) == 0x1_0000_0000_0000_0000_0000_0000_0000_0000
                &&& record.on_link_prefix_length > 128 ==> e.mask->0->V6_0.ip
                    == 0xffff_ffff_ffff_ffff_ffff_ffff_ffff_ffff
            }
        },
{
    lemma_masks_in_numbers(record.on_link_prefix_length);
    law_be_is_network_order(record.address@, 4, 0, 4);
    law_be_is_network_order(record.address@, 8, 0, 16);
    lemma2_to64();
    lemma2_to64_rest();
    lemma_pow2_adds(64, 64);
}

/// Every interface of the list comes from a record of some adapter, and an IPv6 one has that
/// adapter's index as its scope and the sixteen bytes of the record as its address, whatever they
/// are and whatever scope the record holds.
pub proof fn law_scope_is_the_adapters_index(adapters: Seq<IpAdapterAddresses>, k: int)
    requires
        0 <= k < listed(adapters).len(),
    ensures
        exists|n: int, i: int|
            0 <= n < adapters.len() && 0 <= i < adapters[n].unicast_addresses@.len() && {
                let record = #[trigger] adapters[n].unicast_addresses@[i];
                let e = listed(adapters)[k];
                &&& record.dad_state != IpDadState::IpDadStateDeprecated
                &&& e.kind is Ipv4 ==> e.addr is Some && e.addr->0 is V4
                    && e.addr->0->V4_0.ip == be(record.address@, 4, 4)
                &&& e.kind is Ipv6 ==> e.addr is Some && e.addr->0 is V6
                    && e.addr->0->V6_0.scope_id == adapters[n].ipv6_if_index
                    && e.addr->0->V6_0.ip == be(record.address@, 8, 16)
            },
{
    law_only_usable_addresses_are_listed(adapters, k);
    let (n, i) = choose|n: int, i: int|
        0 <= n < adapters.len() && 0 <= i < adapters[n].unicast_addresses@.len() && {
            let unicast = #[trigger] adapters[n].unicast_addresses@[i];
            &&& unicast.dad_state != IpDadState::IpDadStateDeprecated
            &&& adapters[n].entry(unicast) == Some(listed(adapters)[k])
            &&& listed(adapters)[k].name == adapters[n].name()
        };
    law_record_in_fields(adapters[n], adapters[n].unicast_addresses@[i]);
}

proof fn lemma_entries_concat(
    adapter: IpAdapterAddresses,
    xs: Seq<IpAdapterUnicastAddress>,
    ys: Seq<IpAdapterUnicastAddress>,
)
    ensures
        (xs + ys).filter_map(|u: IpAdapterUnicastAddress| adapter.entry(u)) == xs.filter_map(
            |u: IpAdapterUnicastAddress| adapter.entry(u),
        ) + ys.filter_map(|u: IpAdapterUnicastAddress| adapter.entry(u)),
    decreases ys.len(),
{
    let f = |u: IpAdapterUnicastAddress| adapter.entry(u);
    if ys.len() == 0 {
        assert(xs + ys =~= xs);
        assert(xs.filter_map(f) + ys.filter_map(f) =~= xs.filter_map(f));
    } else {
        lemma_entries_concat(adapter, xs, ys.drop_last());
        assert((xs + ys).drop_last() =~= xs + ys.drop_last());
        assert((xs + ys).filter_map(f) =~= xs.filter_map(f) + ys.filter_map(f));
    }
}

/// The list keeps the order of adapters and records and leaves nothing out: of two parts of the
/// adapter list it is what the first comes to and then what the second comes to, and likewise of
/// two parts of an adapter's records. One record comes to its own entry, or to nothing.
pub proof fn law_list_is_put_together(
    xs: Seq<IpAdapterAddresses>,
    ys: Seq<IpAdapterAddresses>,
    whole: IpAdapterAddresses,
    first: IpAdapterAddresses,
    second: IpAdapterAddresses,
)
    requires
        whole.unicast_addresses@ == first.unicast_addresses@ + second.unicast_addresses@,
        whole.adapter_name == first.adapter_name,
        whole.adapter_name == second.adapter_name,
        whole.ipv6_if_index == first.ipv6_if_index,
        whole.ipv6_if_index == second.ipv6_if_index,
    ensures
        listed(xs + ys) == listed(xs) + listed(ys),
        listed(seq![whole]) == listed(seq![first]) + listed(seq![second]),
        first.unicast_addresses@.len() == 0 ==> listed(seq![first]).len() == 0,
        first.unicast_addresses@.len() == 1 ==> listed(seq![first]) == match first.entry(
            first.unicast_addresses@[0],
        ) {
            Some(e) => seq![e],
            None => Seq::empty(),
        },
    decreases ys.len(),
{
    if ys.len() == 0 {
        assert(xs + ys =~= xs);
        assert(listed(xs) + listed(ys) =~= listed(xs));
    } else {
        law_list_is_put_together(xs, ys.drop_last(), whole, first, second);
        assert((xs + ys).drop_last() =~= xs + ys.drop_last());
        assert(listed(xs + ys) =~= listed(xs) + listed(ys));
    }
    let us = first.unicast_addresses@;
    let vs = second.unicast_addresses@;
    lemma_entries_concat(whole, us, vs);
    let f = |u: IpAdapterUnicastAddress| whole.entry(u);
    assert(f =~= |u: IpAdapterUnicastAddress| first.entry(u));
    assert(f =~= |u: IpAdapterUnicastAddress| second.entry(u));
    lemma_listed_of_one(whole);
    lemma_listed_of_one(first);
    lemma_listed_of_one(second);
    assert(listed(seq![whole]) =~= listed(seq![first]) + listed(seq![second]));
    if us.len() == 1 {
        assert(us.drop_last() =~= Seq::<IpAdapterUnicastAddress>::empty());
        assert(us.drop_last().filter_map(f).len() == 0);
        assert(us.filter_map(f) =~= match first.entry(us[0]) {
            Some(e) => seq![e],
            None => Seq::empty(),
        });
    }
}

proof fn lemma_listed_of_one(adapter: IpAdapterAddresses)
    ensures
        listed(seq![adapter]) == adapter.entries(),
{
    assert(seq![adapter].drop_last() =~= Seq::<IpAdapterAddresses>::empty());
    assert(listed(Seq::<IpAdapterAddresses>::empty()) =~= Seq::<InterfaceView>::empty());
    assert(listed(seq![adapter]) =~= adapter.entries());
}

/// What the system's answers stand for, by number: 0 is success, 111 a buffer that is too small,
/// 1228 and 232 the lack of an address, 87 a bad parameter, and the rest some other failure.
pub proof fn law_failures_by_number(ret_code: u32)
    ensures
        failure_kind(1228) is AddrNotAvailable,
        failure_kind(232) is AddrNotAvailable,
        failure_kind(87) is InvalidInput,
        ret_code != 1228 && ret_code != 232 && ret_code != 87 ==> failure_kind(ret_code) is Other,
        failure_text(1228)
            == "An address has not yet been associated with the network endpoint."@,
        failure_text(87) == "One of the parameters is invalid."@,
        failure_text(8)
            == "Insufficient memory resources are available to complete the operation."@,
        failure_text(232) == "No addresses were found for the requested parameters."@,
        ret_code != 1228 && ret_code != 232 && ret_code != 87 && ret_code != 8 ==> failure_text(
            ret_code,
        ) == "Some Other Error Occurred."@,
{
}

/// Adapters stay apart: two whose names are different UTF-8 texts are listed under different
/// names.
pub proof fn law_adapters_stay_apart(a: IpAdapterAddresses, b: IpAdapterAddresses)
    requires
        a.adapter_name matches Some(name) && valid_utf8(name@),
        b.adapter_name matches Some(name) && valid_utf8(name@),
        a.adapter_name->0@ != b.adapter_name->0@,
    ensures
        a.name() != b.name(),
{
    decode_utf8_encode_utf8(a.adapter_name->0@);
    decode_utf8_encode_utf8(b.adapter_name->0@);
}

/// A deprecated address is never listed, and every listed interface is the entry of a usable
/// address of some adapter, under that adapter's name.
pub proof fn law_only_usable_addresses_are_listed(adapters: Seq<IpAdapterAddresses>, k: int)
    requires
        0 <= k < listed(adapters).len(),
    ensures
        exists|n: int, i: int|
            0 <= n < adapters.len() && 0 <= i < adapters[n].unicast_addresses@.len() && {
                let unicast = #[trigger] adapters[n].unicast_addresses@[i];
                &&& unicast.dad_state != IpDadState::IpDadStateDeprecated
                &&& adapters[n].entry(unicast) == Some(listed(adapters)[k])
                &&& listed(adapters)[k].name == adapters[n].name()
            },
    decreases adapters.len(),
{
    let rest = adapters.drop_last();
    let last = adapters.last();
    if k < listed(rest).len() {
        law_only_usable_addresses_are_listed(rest, k);
        let (n, i) = choose|n: int, i: int|
            0 <= n < rest.len() && 0 <= i < rest[n].unicast_addresses@.len() && {
                let unicast = #[trigger] rest[n].unicast_addresses@[i];
                &&& unicast.dad_state != IpDadState::IpDadStateDeprecated
                &&& rest[n].entry(unicast) == Some(listed(rest)[k])
                &&& listed(rest)[k].name == rest[n].name()
            };
        assert(adapters[n].unicast_addresses@[i] == rest[n].unicast_addresses@[i]);
    } else {
        let j = k - listed(rest).len();
        lemma_entry_origin(last, last.unicast_addresses@, j);
        let i = choose|i: int|
            0 <= i < last.unicast_addresses@.len() && last.entry(
                #[trigger] last.unicast_addresses@[i],
            ) == Some(last.entries()[j]);
        let n = adapters.len() - 1;
        assert(adapters[n].unicast_addresses@[i] == last.unicast_addresses@[i]);
    }
}

proof fn lemma_entry_origin(
    adapter: IpAdapterAddresses,
    records: Seq<IpAdapterUnicastAddress>,
    j: int,
)
    requires
        0 <= j < records.filter_map(|u: IpAdapterUnicastAddress| adapter.entry(u)).len(),
    ensures
        exists|i: int|
            0 <= i < records.len() && adapter.entry(#[trigger] records[i]) == Some(
                records.filter_map(|u: IpAdapterUnicastAddress| adapter.entry(u))[j],
            ),
    decreases records.len(),
{
    let f = |u: IpAdapterUnicastAddress| adapter.entry(u);
    if records.len() > 0 {
        let rest = records.drop_last();
        if j < rest.filter_map(f).len() {
            lemma_entry_origin(adapter, rest, j);
            let i = choose|i: int|
                0 <= i < rest.len() && adapter.entry(#[trigger] rest[i]) == Some(
                    rest.filter_map(f)[j],
                );
            assert(records[i] == rest[i]);
        } else {
            assert(adapter.entry(records[records.len() - 1]) == Some(records.filter_map(f)[j]));
        }
    }
}

/// The system is asked again for one answer only, with the size it gave; the list is taken for one
/// answer only; and every other answer ends in a failure.
pub proof fn law_asked_again_only_for_more_room(ret_code: u32, length: u32, r: BufferStep)
    requires
        call_ensures(local_ifaces_with_buffer, (ret_code, length), r),
    ensures
        r is Ready <==> ret_code == 0,
        r is Grow <==> ret_code == 111,
        r matches BufferStep::Grow(size) ==> size == length,
        r matches BufferStep::Failed(kind, _) ==> {
            &&& kind is AddrNotAvailable <==> ret_code == 1228 || ret_code == 232
            &&& kind is InvalidInput <==> ret_code == 87
        },
{
}

} // verus!

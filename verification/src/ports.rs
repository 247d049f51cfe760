//! Which UDP ports to try for a listener.

use crate::addr::{IpAddr, SocketAddr};
use crate::error::Error;
use vstd::arithmetic::div_mod::{
    lemma_mod_add_multiples_vanish, lemma_mod_bound, lemma_small_mod,
};
use vstd::prelude::*;

verus! {

/// A walk over the ports `min..=max`, once around from a starting port.
#[derive(Clone, Copy, Debug, PartialEq, Eq, Structural)]
pub struct PortScan {
    min: u16,
    max: u16,
    start: u16,
    current: u16,
}

impl PortScan {
    pub closed spec fn min(self) -> int {
        self.min as int
    }

    pub closed spec fn max(self) -> int {
        self.max as int
    }

    /// The port the walk begins at.
    pub closed spec fn start(self) -> int {
        self.start as int
    }

    /// The port to try now.
    pub closed spec fn port(self) -> int {
        self.current as int
    }

    pub open spec fn wf(self) -> bool {
        &&& 1 <= self.min() <= self.start() <= self.max() <= 0xFFFF
        &&& self.min() <= self.port() <= self.max()
    }

    /// The number of ports in the range.
    pub open spec fn size(self) -> int {
        self.max() - self.min() + 1
    }

    /// The port that comes up after `k` failures.
    pub open spec fn port_at(self, k: int) -> int {
        if self.start() + k <= self.max() {
            self.start() + k
        } else {
            self.start() + k - self.size()
        }
    }

    /// How many ports failed before the current one.
    pub open spec fn failures(self) -> int {
        if self.port() >= self.start() {
            self.port() - self.start()
        } else {
            self.port() - self.start() + self.size()
        }
    }

    /// The port that `random` falls on in `min..=max`.
    pub open spec fn port_for(min: u16, max: u16, random: u16) -> int {
        random as int % (max - min + 1) + min
    }

    /// A walk from the port that `random` falls on.
    pub fn new(min: u16, max: u16, random: u16) -> (r: PortScan)
        requires
            1 <= min <= max,
        ensures
            r.wf(),
            r.min() == min,
            r.max() == max,
            r.start() == Self::port_for(min, max, random),
            r.port() == r.start(),
    {
        let start: u16 = random % (max - min + 1) + min;
        PortScan { min, max, start, current: start }
    }

    /// The port to try now.
    pub fn current(&self) -> (r: u16)
        ensures
            r == self.port(),
    {
        self.current
    }

    /// Moves on after the current port could not be bound, and gives the next one to try, or the
    /// error once every port of the range has failed. The last port of all has none after it to
    /// step to, so a walk that stands there does not move on.
    pub fn advance(&mut self) -> (r: Result<u16, Error>)
        requires
            old(self).wf(),
            old(self).port() < 0xFFFF,
        ensures
            final(self).wf(),
            final(self).min() == old(self).min(),
            final(self).max() == old(self).max(),
            final(self).start() == old(self).start(),
            match r {
                Ok(port) => {
                    &&& old(self).failures() + 1 < old(self).size()
                    &&& final(self).failures() == old(self).failures() + 1
                    &&& port == final(self).port()
                },
                Err(e) => {
                    &&& e == Error::ErrPort
                    &&& old(self).failures() + 1 == old(self).size()
                    &&& final(self).failures() == 0
                },
            },
            final(self).port() == final(self).port_at(final(self).failures()),
            final(self).port() == if old(self).port() == old(self).max() {
                old(self).min()
            } else {
                old(self).port() + 1
            },
            (r is Err) == (final(self).port() == old(self).start()),
    {
        self.current = self.current + 1;
        if self.current > self.max {
            self.current = self.min;
        }
        if self.current == self.start {
            Err(Error::ErrPort)
        } else {
            Ok(self.current)
        }
    }
}

/// The walk tries every port of the range, each once: the ports that come up after none to all
/// but one failure are distinct and leave none out.
pub proof fn law_scan_tries_each_port_once(scan: PortScan)
    requires
        scan.wf(),
    ensures
        scan.port_at(0) == scan.start(),
        forall|k: int|
            0 <= k < scan.size() ==> scan.min() <= #[trigger] scan.port_at(k) <= scan.max(),
        forall|j: int, k: int|
            0 <= j < k < scan.size() ==> #[trigger] scan.port_at(j) != #[trigger] scan.port_at(k),
        forall|port: int|
            #![trigger scan.port_at(port - scan.start())]
            scan.start() <= port <= scan.max() ==> scan.port_at(port - scan.start()) == port,
        forall|port: int|
            #![trigger scan.port_at(port - scan.start() + scan.size())]
            scan.min() <= port < scan.start() ==> scan.port_at(
                port - scan.start() + scan.size(),
            ) == port,
{
}

/// How a listener is to be bound.
#[derive(Clone, Copy, Debug, PartialEq, Eq, Structural)]
pub enum Listen {
    /// At this address, and nowhere else: the outcome of binding it is the outcome.
    Once(SocketAddr),
    /// At the first port of the walk that can be bound on this address.
    Range(IpAddr, PortScan),
}

impl Listen {
    /// The address to bind now.
    pub fn address(&self) -> (r: SocketAddr)
        ensures
            r == match *self {
                Listen::Once(laddr) => laddr,
                Listen::Range(ip, scan) => SocketAddr::spec_new(ip, scan.port() as u16),
            },
            *self matches Listen::Range(ip, scan) ==> match r {
                SocketAddr::V4(a) => ip == IpAddr::V4(a.ip) && a.port == scan.port(),
                SocketAddr::V6(a) => {
                    &&& ip == IpAddr::V6(a.ip)
                    &&& a.port == scan.port()
                    &&& a.flowinfo == 0
                    &&& a.scope_id == 0
                },
            },
    {
        match *self {
            Listen::Once(laddr) => laddr,
            Listen::Range(ip, scan) => SocketAddr::new(ip, scan.current()),
        }
    }
}

/// The range that two bounds stand for, where zero is no bound.
pub open spec fn port_range(port_max: u16, port_min: u16) -> (u16, u16) {
    (
        if port_min == 0 {
            1
        } else {
            port_min
        },
        if port_max == 0 {
            0xFFFF
        } else {
            port_max
        },
    )
}

/// What is to be bound: the address itself if it names a port or no bound is given, else a port
/// of the range, if it has any.
pub open spec fn listen_as(
    port_max: u16,
    port_min: u16,
    laddr: SocketAddr,
    random: u16,
    r: Result<Listen, Error>,
) -> bool {
    let (min, max) = port_range(port_max, port_min);
    if laddr.spec_port() != 0 || (port_min == 0 && port_max == 0) {
        r == Ok::<Listen, Error>(Listen::Once(laddr))
    } else if min > max {
        r == Err::<Listen, Error>(Error::ErrPort)
    } else {
        &&& r matches Ok(Listen::Range(ip, scan))
        &&& ip == laddr.spec_ip()
        &&& scan.wf()
        &&& scan.min() == min
        &&& scan.max() == max
        &&& scan.start() == PortScan::port_for(min, max, random)
        &&& scan.port() == scan.start()
    }
}

/// Who asks for a port of a range gets one, whatever the address: an address without a port, of
/// either family, is never bound as it is where a bound is given. It is bound at a port between
/// the bounds, where a missing lower bound is 1 and a missing upper one the last port of all; or
/// not at all, exactly where the bounds leave no port between them.
pub proof fn law_range_is_kept(
    port_max: u16,
    port_min: u16,
    laddr: SocketAddr,
    random: u16,
    r: Result<Listen, Error>,
)
    requires
        listen_as(port_max, port_min, laddr, random, r),
        (laddr matches SocketAddr::V4(a) && a.port == 0) || (laddr matches SocketAddr::V6(a)
            && a.port == 0),
        port_min != 0 || port_max != 0,
    ensures
        r is Err <==> port_max != 0 && port_max < port_min,
        r matches Err(e) ==> e is ErrPort,
        r matches Ok(listen) ==> {
            &&& listen is Range
            &&& laddr matches SocketAddr::V4(a) ==> listen->Range_0 == IpAddr::V4(a.ip)
            &&& laddr matches SocketAddr::V6(a) ==> listen->Range_0 == IpAddr::V6(a.ip)
            &&& 1 <= listen->Range_1.port() <= 0xFFFF
            &&& port_min <= listen->Range_1.port()
            &&& port_max != 0 ==> listen->Range_1.port() <= port_max
            &&& forall|port: int|
                #![trigger listen->Range_1.port_at(port - listen->Range_1.start())]
                #![trigger listen->Range_1.port_at(
                    port - listen->Range_1.start() + listen->Range_1.size(),
                )]
                1 <= port <= 0xFFFF && port_min <= port && (port_max != 0 ==> port <= port_max)
                    ==> {
                    ||| listen->Range_1.port_at(port - listen->Range_1.start()) == port
                    ||| listen->Range_1.port_at(
                        port - listen->Range_1.start() + listen->Range_1.size(),
                    ) == port
                }
        },
{
}

/// An address that names its port is bound as it is, and so is any where no bound is given.
pub proof fn law_named_port_is_bound_as_it_is(
    port_max: u16,
    port_min: u16,
    laddr: SocketAddr,
    random: u16,
    r: Result<Listen, Error>,
)
    requires
        listen_as(port_max, port_min, laddr, random, r),
        (laddr matches SocketAddr::V4(a) && a.port != 0) || (laddr matches SocketAddr::V6(a)
            && a.port != 0) || (port_min == 0 && port_max == 0),
    ensures
        r == Ok::<Listen, Error>(Listen::Once(laddr)),
{
}

/// Every port of the range is the first for some random number: the smallest numbers begin at the
/// ports of the range, one after the other, and numbers that differ by the size of the range begin
/// at the same port.
pub proof fn law_starts_are_spread(min: u16, max: u16, random: u16)
    requires
        1 <= min <= max,
    ensures
        min <= PortScan::port_for(min, max, random) <= max,
        random <= max - min ==> PortScan::port_for(min, max, random) == min + random,
        random + (max - min + 1) <= 0xFFFF ==> PortScan::port_for(
            min,
            max,
            (random + (max - min + 1)) as u16,
        ) == PortScan::port_for(min, max, random),
{
    let size = max - min + 1;
    lemma_mod_bound(random as int, size);
    if random <= max - min {
        lemma_small_mod(random as nat, size as nat);
    }
    lemma_mod_add_multiples_vanish(random as int, size);
}

/// How to listen near `laddr` with a port in `port_min..=port_max`, beginning at the port that
/// `random` falls on.
pub fn listen_from(port_max: u16, port_min: u16, laddr: SocketAddr, random: u16) -> (r: Result<
    Listen,
    Error,
>)
    ensures
        listen_as(port_max, port_min, laddr, random, r),
        (match laddr {
            SocketAddr::V4(a) => a.port,
            SocketAddr::V6(a) => a.port,
        }) != 0 || (port_min == 0 && port_max == 0) ==> r == Ok::<Listen, Error>(
            Listen::Once(laddr),
        ),
        (match laddr {
            SocketAddr::V4(a) => a.port,
            SocketAddr::V6(a) => a.port,
        }) == 0 && (port_min != 0 || port_max != 0) ==> match r {
            Ok(listen) => {
                &&& listen matches Listen::Range(ip, scan)
                &&& ip == match laddr {
                    SocketAddr::V4(a) => IpAddr::V4(a.ip),
                    SocketAddr::V6(a) => IpAddr::V6(a.ip),
                }
                &&& scan.wf()
                &&& port_min == 0 ==> scan.min() == 1
                &&& port_min != 0 ==> scan.min() == port_min
                &&& port_max == 0 ==> scan.max() == 0xFFFF
                &&& port_max != 0 ==> scan.max() == port_max
                &&& scan.port() == scan.start()
                &&& port_min <= scan.port()
                &&& 1 <= scan.port() <= 0xFFFF
                &&& port_max != 0 ==> scan.port() <= port_max
            },
            Err(e) => e == Error::ErrPort && port_max != 0 && port_min > port_max,
        },
        r matches Ok(Listen::Range(_, scan)) ==> scan.start() - scan.min() == random as int % (
        scan.max() - scan.min() + 1),
{
    if laddr.port() != 0 || (port_min == 0 && port_max == 0) {
        return Ok(Listen::Once(laddr));
    }
    let i: u16 = if port_min == 0 {
        1
    } else {
        port_min
    };
    let j: u16 = if port_max == 0 {
        0xFFFF
    } else {
        port_max
    };
    if i > j {
        return Err(Error::ErrPort);
    }
    Ok(Listen::Range(laddr.ip(), PortScan::new(i, j, random)))
}

/// A number from `rand::random`, of which nothing more is said: every `u16` may come.
#[verifier::external_body]
fn random_u16() -> (r: u16) {
    rand::random::<u16>()
}

/// How to listen near `laddr` with a port in `port_min..=port_max`, beginning at a random port of
/// the range.
pub fn listen_udp_in_port_range(port_max: u16, port_min: u16, laddr: SocketAddr) -> (r: Result<
    Listen,
    Error,
>)
    ensures
        exists|random: u16| #[trigger] listen_as(port_max, port_min, laddr, random, r),
        (match laddr {
            SocketAddr::V4(a) => a.port,
            SocketAddr::V6(a) => a.port,
        }) != 0 || (port_min == 0 && port_max == 0) ==> r == Ok::<Listen, Error>(
            Listen::Once(laddr),
        ),
        (match laddr {
            SocketAddr::V4(a) => a.port,
            SocketAddr::V6(a) => a.port,
        }) == 0 && (port_min != 0 || port_max != 0) ==> match r {
            Ok(listen) => {
                &&& listen matches Listen::Range(ip, scan)
                &&& ip == match laddr {
                    SocketAddr::V4(a) => IpAddr::V4(a.ip),
                    SocketAddr::V6(a) => IpAddr::V6(a.ip),
                }
                &&& scan.wf()
                &&& port_min == 0 ==> scan.min() == 1
                &&& port_min != 0 ==> scan.min() == port_min
                &&& port_max == 0 ==> scan.max() == 0xFFFF
                &&& port_max != 0 ==> scan.max() == port_max
                &&& scan.port() == scan.start()
                &&& port_min <= scan.port()
                &&& 1 <= scan.port() <= 0xFFFF
                &&& port_max != 0 ==> scan.port() <= port_max
            },
            Err(e) => e == Error::ErrPort && port_max != 0 && port_min > port_max,
        },
{
    let random: u16 = random_u16();
    listen_from(port_max, port_min, laddr, random)
}

} // verus!

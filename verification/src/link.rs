//! A simulated one-way link: serialization at a rate, a finite buffer, stalls and capacity dips,
//! loss, jitter and reordering.
//!
//! Times are nanoseconds on the caller's clock. The time a packet takes at the link's rate is the
//! caller's to compute.

use rand::rngs::StdRng;
use rand::Rng;
use std::collections::VecDeque;
use vstd::arithmetic::div_mod::{
    lemma_fundamental_div_mod, lemma_mod_bound, lemma_mod_multiples_vanish, lemma_small_mod,
};
use vstd::prelude::*;

verus! {

/// What a link does to its packets.
#[derive(Clone, Copy, Debug, PartialEq, Eq, Structural)]
pub struct Impairment {
    pub delay: u64,
    /// Per cent of packets lost. With `burst` at zero each packet is drawn for, else the path's
    /// bad state loses every packet.
    pub loss: u64,
    pub burst: u64,
    pub jitter: u64,
    /// Jitter is drawn for each packet, rather than shared by consecutive ones.
    pub jitter_iid: bool,
    /// Per mille of packets that arrive `reorder_by` early.
    pub reorder: u64,
    pub reorder_by: u64,
    /// The buffer at the bottleneck, in bytes; zero is unbounded.
    ///
    /// A bound on the waiting time would also turn packets away from an empty buffer during a
    /// stall, and so make a black hole of it.
    pub queue_bytes: u64,
    /// Every `spike_every` the link sends nothing for `spike_len`.
    pub spike_every: u64,
    pub spike_len: u64,
    /// Every `dip_every` the link runs at its lower rate for `dip_len`.
    pub dip_every: u64,
    pub dip_len: u64,
}

/// What went through a link. The counters wrap around.
#[derive(Clone, Copy, Debug, PartialEq, Eq, Structural)]
pub struct LinkStats {
    pub pkts: u64,
    /// Bytes handed to the link, counted before the buffer decides.
    pub offered: u64,
    /// Bytes that the bottleneck put on the wire.
    pub bytes: u64,
    pub dropped: u64,
    /// Bytes that the buffer turned away.
    pub drop_bytes: u64,
}

/// Packets still to drop, once some more have passed.
#[derive(Clone, Copy, Debug, PartialEq, Eq, Structural)]
pub struct TailDrop {
    pub skip: u64,
    pub next: u64,
}

/// One direction of a path.
#[derive(Debug)]
pub struct Link {
    pub impairment: Impairment,
    pub stats: LinkStats,
    pub tail: TailDrop,
    /// Departure and size of every packet in the buffer, first the one that leaves first.
    buffered: VecDeque<(u64, u64)>,
    buffered_bytes: u64,
    last_depart: u64,
    last_at: u64,
}

/// A [`Link`] with its buffer as a sequence.
pub struct LinkView {
    pub impairment: Impairment,
    pub stats: LinkStats,
    pub tail: TailDrop,
    pub buffered: Seq<(u64, u64)>,
    pub last_depart: u64,
    pub last_at: u64,
}

/// A packet handed to a link.
#[derive(Clone, Copy, Debug, PartialEq, Eq, Structural)]
pub struct Packet {
    pub sent: u64,
    /// The bytes it takes on the wire.
    pub wire: u64,
    /// The time it takes at the link's rate.
    pub tx: u64,
    /// The time it takes during a dip.
    pub dip_tx: u64,
    /// The link's impairments apply.
    pub impaired: bool,
}

pub open spec fn max(a: int, b: int) -> int {
    if a < b {
        b
    } else {
        a
    }
}

/// What a counter at `count` shows once it has counted `n` more.
pub open spec fn plus(count: u64, n: u64) -> u64 {
    if count + n <= u64::MAX {
        (count + n) as u64
    } else {
        (count + n - 0x1_0000_0000_0000_0000) as u64
    }
}

/// How far `t` is into its period, in whole microseconds from `epoch` on.
pub open spec fn phase(t: int, epoch: u64, every: u64) -> int {
    if t < epoch {
        0
    } else {
        (t - epoch) / 1000 % (every as int / 1000) * 1000
    }
}

/// When the link begins to send a packet: once it is there and the one before is gone, and not
/// during a stall.
pub open spec fn start_of(l: LinkView, p: Packet, epoch: u64) -> int {
    let free = max(p.sent as int, l.last_depart as int);
    let gone = phase(free, epoch, l.impairment.spike_every);
    if p.impaired && l.impairment.spike_every > 0 && gone < l.impairment.spike_len {
        free + l.impairment.spike_len - gone
    } else {
        free
    }
}

/// The link runs at its lower rate.
pub open spec fn dipped(l: LinkView, p: Packet, epoch: u64) -> bool {
    &&& p.impaired
    &&& l.impairment.dip_every > 0
    &&& phase(start_of(l, p, epoch), epoch, l.impairment.dip_every) < l.impairment.dip_len
}

/// When a packet has left the link, if the buffer takes it.
pub open spec fn depart_of(l: LinkView, p: Packet, epoch: u64) -> int {
    start_of(l, p, epoch) + if dipped(l, p, epoch) {
        p.dip_tx
    } else {
        p.tx
    }
}

/// What of a buffer has not departed by `now`.
pub open spec fn still_waiting(buffered: Seq<(u64, u64)>, now: u64) -> Seq<(u64, u64)>
    decreases buffered.len(),
{
    if buffered.len() == 0 || buffered[0].0 > now {
        buffered
    } else {
        still_waiting(buffered.drop_first(), now)
    }
}

/// The bytes in a buffer.
pub open spec fn bytes_in(buffered: Seq<(u64, u64)>) -> int
    decreases buffered.len(),
{
    if buffered.len() == 0 {
        0
    } else {
        buffered[0].1 + bytes_in(buffered.drop_first())
    }
}

/// The buffer has no room for a packet.
pub open spec fn overflows(l: LinkView, p: Packet) -> bool {
    &&& p.impaired
    &&& l.impairment.queue_bytes > 0
    &&& bytes_in(still_waiting(l.buffered, p.sent)) + p.wire > l.impairment.queue_bytes
}

/// The counters after a packet was offered.
pub open spec fn counted(stats: LinkStats, p: Packet, turned_away: bool) -> LinkStats {
    if !p.impaired {
        stats
    } else {
        let offered = LinkStats {
            pkts: plus(stats.pkts, 1),
            offered: plus(stats.offered, p.wire),
            ..stats
        };
        if turned_away {
            LinkStats {
                dropped: plus(stats.dropped, 1),
                drop_bytes: plus(stats.drop_bytes, p.wire),
                ..offered
            }
        } else {
            LinkStats { bytes: plus(stats.bytes, p.wire), ..offered }
        }
    }
}

/// The link after a packet was offered, and the packet's departure unless it was turned away.
pub open spec fn offered(l: LinkView, p: Packet, epoch: u64) -> (LinkView, Option<u64>) {
    let waiting = still_waiting(l.buffered, p.sent);
    if overflows(l, p) {
        (LinkView { stats: counted(l.stats, p, true), buffered: waiting, ..l }, None)
    } else {
        let depart = depart_of(l, p, epoch) as u64;
        (
            LinkView {
                stats: counted(l.stats, p, false),
                buffered: waiting.push((depart, p.wire)),
                last_depart: depart,
                ..l
            },
            Some(depart),
        )
    }
}

impl TailDrop {
    /// The next packet is one to drop.
    pub open spec fn hits(self) -> bool {
        self.skip == 0 && self.next > 0
    }

    /// What is left once a packet has gone by.
    pub open spec fn stepped(self) -> TailDrop {
        if self.skip > 0 {
            TailDrop { skip: (self.skip - 1) as u64, ..self }
        } else if self.next > 0 {
            TailDrop { next: (self.next - 1) as u64, ..self }
        } else {
            self
        }
    }

    /// What is left once `n` packets have gone by.
    pub open spec fn after(self, n: nat) -> TailDrop
        decreases n,
    {
        if n == 0 {
            self
        } else {
            self.after((n - 1) as nat).stepped()
        }
    }

    /// Lets a packet go by, and tells whether to drop it.
    pub fn step(&mut self) -> (r: bool)
        ensures
            r == old(self).hits(),
            *final(self) == old(self).stepped(),
    {
        if self.skip > 0 {
            self.skip = self.skip - 1;
            false
        } else if self.next > 0 {
            self.next = self.next - 1;
            true
        } else {
            false
        }
    }
}

/// The packet is lost on the way, given a draw from 0 to 99 and the path's state.
pub open spec fn lost(im: Impairment, draw: u64, bad: bool) -> bool {
    if im.burst == 0 {
        draw < im.loss
    } else {
        bad
    }
}

/// The link after a packet that departed met its fate, and whether it goes on.
pub open spec fn survived(l: LinkView, impaired: bool, draw: u64, bad: bool) -> (LinkView, bool) {
    let gone = impaired && (lost(l.impairment, draw, bad) || l.tail.hits());
    let stats = if gone {
        LinkStats { dropped: plus(l.stats.dropped, 1), ..l.stats }
    } else {
        l.stats
    };
    (LinkView { stats, tail: l.tail.stepped(), ..l }, !gone)
}

/// Packets arrive in the order in which they departed.
pub open spec fn in_order(im: Impairment) -> bool {
    !(im.jitter_iid && im.jitter > 0) && im.reorder == 0
}

/// When a packet arrives that departed at `depart`, given its jitter in microseconds and a draw
/// from 0 to 999.
pub open spec fn arrival_of(
    l: LinkView,
    depart: u64,
    impaired: bool,
    jitter_us: u64,
    draw: u64,
) -> int {
    let im = l.impairment;
    let delayed = depart + im.delay;
    let jittered = if impaired && im.jitter > 0 {
        delayed + jitter_us * 1000
    } else {
        delayed
    };
    let reordered = if impaired && im.reorder > 0 && draw < im.reorder {
        max(depart as int, jittered - im.reorder_by)
    } else {
        jittered
    };
    if in_order(im) {
        max(reordered, l.last_at as int)
    } else {
        reordered
    }
}

/// The link after a packet's arrival was settled.
pub open spec fn arrived(l: LinkView, at: int) -> LinkView {
    if in_order(l.impairment) {
        LinkView { last_at: at as u64, ..l }
    } else {
        l
    }
}

/// What the draws for a packet came to.
pub struct Draws {
    pub loss: u64,
    pub jitter_us: u64,
    pub reorder: u64,
}

/// The link after a packet was carried, and when the packet arrives unless it was dropped.
pub open spec fn carried(l: LinkView, p: Packet, epoch: u64, bad: bool, draws: Draws) -> (
    LinkView,
    Option<u64>,
) {
    let (l1, depart) = offered(l, p, epoch);
    match depart {
        None => (l1, None),
        Some(depart) => {
            let (l2, on) = survived(l1, p.impaired, draws.loss, bad);
            if on {
                let at = arrival_of(l2, depart, p.impaired, draws.jitter_us, draws.reorder);
                (arrived(l2, at), Some(at as u64))
            } else {
                (l2, None)
            }
        },
    }
}

/// The draws are within their ranges, and jitter that is not drawn is the path's.
pub open spec fn drawn(im: Impairment, path_jitter_us: u32, draws: Draws) -> bool {
    &&& draws.loss <= 99
    &&& if im.jitter_iid {
        draws.jitter_us <= im.jitter / 1000
    } else {
        draws.jitter_us == path_jitter_us
    }
    &&& draws.reorder <= 999
}

/// The generator of random numbers that draws for a link.
#[verifier::external_type_specification]
#[verifier::external_body]
pub struct ExStdRng(StdRng);

/// A number from `rand::Rng::gen_range`, of which nothing more is said than that it is at most
/// `most`: which one comes rests on the generator.
#[verifier::external_body]
fn draw(rng: &mut StdRng, most: u64) -> (r: u64)
    ensures
        r <= most,
{
    rng.gen_range(0..=most)
}

impl View for Link {
    type V = LinkView;

    closed spec fn view(&self) -> LinkView {
        LinkView {
            impairment: self.impairment,
            stats: self.stats,
            tail: self.tail,
            buffered: self.buffered@,
            last_depart: self.last_depart,
            last_at: self.last_at,
        }
    }
}

proof fn lemma_bytes_in_push(buffered: Seq<(u64, u64)>, p: (u64, u64))
    ensures
        bytes_in(buffered.push(p)) == bytes_in(buffered) + p.1,
        bytes_in(buffered) >= 0,
    decreases buffered.len(),
{
    if buffered.len() == 0 {
        assert(buffered.push(p).drop_first() =~= buffered);
    } else {
        lemma_bytes_in_push(buffered.drop_first(), p);
        assert(buffered.push(p).drop_first() =~= buffered.drop_first().push(p));
    }
}

/// How far `t` is into its period.
fn phase_at(t: u64, epoch: u64, every: u64) -> (r: u64)
    requires
        every >= 1000,
    ensures
        r == phase(t as int, epoch, every),
{
    if t < epoch {
        0
    } else {
        let micros: u64 = (t - epoch) / 1000 % (every / 1000);
        proof {
            lemma_mod_bound((t - epoch) / 1000, every as int / 1000);
            lemma_fundamental_div_mod(every as int, 1000);
        }
        micros * 1000
    }
}

impl Link {
    pub closed spec fn wf(self) -> bool {
        self.buffered_bytes == bytes_in(self.buffered@)
    }

    /// A link that has carried nothing, at time `now`.
    pub fn new(impairment: Impairment, now: u64) -> (r: Link)
        ensures
            r.wf(),
            r@ == (LinkView {
                impairment,
                stats: LinkStats { pkts: 0, offered: 0, bytes: 0, dropped: 0, drop_bytes: 0 },
                tail: TailDrop { skip: 0, next: 0 },
                buffered: Seq::empty(),
                last_depart: now,
                last_at: now,
            }),
    {
        Link {
            impairment,
            stats: LinkStats { pkts: 0, offered: 0, bytes: 0, dropped: 0, drop_bytes: 0 },
            tail: TailDrop { skip: 0, next: 0 },
            buffered: VecDeque::new(),
            buffered_bytes: 0,
            last_depart: now,
            last_at: now,
        }
    }

    /// Takes out of the buffer what has departed by `now`.
    fn drain(&mut self, now: u64)
        requires
            old(self).wf(),
        ensures
            final(self).wf(),
            final(self)@ == (LinkView {
                buffered: still_waiting(old(self)@.buffered, now),
                ..old(self)@
            }),
    {
        while self.buffered.len() > 0 && self.buffered[0].0 <= now
            invariant
                self.wf(),
                still_waiting(self.buffered@, now) == still_waiting(old(self)@.buffered, now),
                self@ == (LinkView { buffered: self.buffered@, ..old(self)@ }),
            decreases self.buffered@.len(),
        {
            let ghost before = self.buffered@;
            proof {
                lemma_bytes_in_push(before.drop_first(), (0, 0));
            }
            if let Some((_, n)) = self.buffered.pop_front() {
                assert(self.buffered@ =~= before.drop_first());
                self.buffered_bytes = self.buffered_bytes - n;
            }
        }
    }

    /// When a packet has left the link, if the buffer takes it.
    fn departure(&self, p: Packet, epoch: u64) -> (r: u64)
        requires
            self@.accepts(p, epoch),
        ensures
            r == depart_of(self@, p, epoch),
    {
        let mut start: u64 = if p.sent < self.last_depart {
            self.last_depart
        } else {
            p.sent
        };
        let im = self.impairment;
        if p.impaired && im.spike_every > 0 {
            let gone: u64 = phase_at(start, epoch, im.spike_every);
            if gone < im.spike_len {
                start = start + (im.spike_len - gone);
            }
        }
        let dipped = p.impaired && im.dip_every > 0 && phase_at(start, epoch, im.dip_every)
            < im.dip_len;
        start + if dipped {
            p.dip_tx
        } else {
            p.tx
        }
    }

    /// The bytes in the buffer that have not departed by `now`.
    fn waiting_bytes(&self, now: u64) -> (r: u64)
        requires
            self.wf(),
        ensures
            r == bytes_in(still_waiting(self@.buffered, now)),
    {
        let mut bytes: u64 = self.buffered_bytes;
        let mut k: usize = 0;
        let ghost all = self.buffered@;
        assert(all.skip(0) =~= all);
        while k < self.buffered.len() && self.buffered[k].0 <= now
            invariant
                all == self.buffered@,
                k <= all.len(),
                bytes == bytes_in(all.skip(k as int)),
                still_waiting(all.skip(k as int), now) == still_waiting(all, now),
            decreases all.len() - k,
        {
            proof {
                lemma_bytes_in_push(all.skip(k + 1), (0, 0));
                assert(all.skip(k as int).drop_first() =~= all.skip(k + 1));
            }
            bytes = bytes - self.buffered[k].1;
            k = k + 1;
        }
        bytes
    }

    /// Whether a packet can be carried: whether the times and sizes it leads to can be counted.
    pub fn can_carry(&self, p: Packet, epoch: u64, path_jitter_us: u32) -> (r: bool)
        requires
            self.wf(),
        ensures
            r == self@.carries(p, epoch, path_jitter_us),
    {
        let im = self.impairment;
        let top: u128 = u64::MAX as u128;
        if p.impaired && ((im.spike_every > 0 && im.spike_every < 1000) || (im.dip_every > 0
            && im.dip_every < 1000)) {
            return false;
        }
        let free: u64 = if p.sent < self.last_depart {
            self.last_depart
        } else {
            p.sent
        };
        let mut start: u128 = free as u128;
        if p.impaired && im.spike_every > 0 {
            let gone: u64 = phase_at(free, epoch, im.spike_every);
            if gone < im.spike_len {
                start = start + (im.spike_len - gone) as u128;
            }
        }
        if start > top {
            return false;
        }
        let dipped = p.impaired && im.dip_every > 0 && phase_at(start as u64, epoch, im.dip_every)
            < im.dip_len;
        let depart: u128 = start + if dipped {
            p.dip_tx as u128
        } else {
            p.tx as u128
        };
        let jitter: u128 = if (im.jitter as u128) < path_jitter_us as u128 * 1000 {
            path_jitter_us as u128 * 1000
        } else {
            im.jitter as u128
        };
        depart + im.delay as u128 + jitter <= top && self.waiting_bytes(p.sent) as u128
            + p.wire as u128 <= top
    }

    /// Hands a packet to the link, and gives its departure unless the buffer turns it away.
    pub fn offer(&mut self, p: Packet, epoch: u64) -> (r: Option<u64>)
        requires
            old(self).wf(),
            old(self)@.accepts(p, epoch),
        ensures
            final(self).wf(),
            (final(self)@, r) == offered(old(self)@, p, epoch),
    {
        let depart: u64 = self.departure(p, epoch);
        if p.impaired {
            self.stats.pkts = self.stats.pkts.wrapping_add(1);
            self.stats.offered = self.stats.offered.wrapping_add(p.wire);
        }
        self.drain(p.sent);
        let room: u64 = self.impairment.queue_bytes;
        if p.impaired && room > 0 && self.buffered_bytes + p.wire > room {
            self.stats.dropped = self.stats.dropped.wrapping_add(1);
            self.stats.drop_bytes = self.stats.drop_bytes.wrapping_add(p.wire);
            return None;
        }
        if p.impaired {
            self.stats.bytes = self.stats.bytes.wrapping_add(p.wire);
        }
        proof {
            lemma_bytes_in_push(self.buffered@, (depart, p.wire));
        }
        self.buffered.push_back((depart, p.wire));
        self.buffered_bytes = self.buffered_bytes + p.wire;
        self.last_depart = depart;
        Some(depart)
    }

    /// Settles whether a packet that departed goes on.
    pub fn survive(&mut self, impaired: bool, draw: u64, bad: bool) -> (r: bool)
        requires
            old(self).wf(),
        ensures
            final(self).wf(),
            (final(self)@, r) == survived(old(self)@, impaired, draw, bad),
    {
        let lost = if self.impairment.burst == 0 {
            draw < self.impairment.loss
        } else {
            bad
        };
        let forced = self.tail.step();
        if impaired && (lost || forced) {
            self.stats.dropped = self.stats.dropped.wrapping_add(1);
            return false;
        }
        true
    }

    /// Settles when a packet that goes on arrives.
    pub fn arrive(&mut self, depart: u64, impaired: bool, jitter_us: u64, draw: u64) -> (r: u64)
        requires
            old(self).wf(),
            depart + old(self)@.impairment.delay + jitter_us * 1000 <= u64::MAX,
        ensures
            final(self).wf(),
            r == arrival_of(old(self)@, depart, impaired, jitter_us, draw),
            final(self)@ == arrived(old(self)@, r as int),
    {
        let im = self.impairment;
        let mut at: u64 = depart + im.delay;
        if impaired && im.jitter > 0 {
            at = at + jitter_us * 1000;
        }
        if impaired && im.reorder > 0 && draw < im.reorder {
            at = if at < im.reorder_by || at - im.reorder_by < depart {
                depart
            } else {
                at - im.reorder_by
            };
        }
        if !(im.jitter_iid && im.jitter > 0) && im.reorder == 0 {
            if at < self.last_at {
                at = self.last_at;
            }
            self.last_at = at;
        }
        at
    }

    /// Carries a packet over the link, on a path that jitters by `path_jitter_us` and is in the
    /// bad state or not, and gives the packet's arrival unless it was dropped.
    pub fn carry(
        &mut self,
        rng: &mut StdRng,
        p: Packet,
        epoch: u64,
        path_jitter_us: u32,
        bad: bool,
    ) -> (r: Option<u64>)
        requires
            old(self).wf(),
            old(self)@.carries(p, epoch, path_jitter_us),
        ensures
            final(self).wf(),
            exists|draws: Draws| #[trigger]
                drawn(old(self)@.impairment, path_jitter_us, draws) && (final(self)@, r)
                    == carried(old(self)@, p, epoch, bad, draws),
    {
        let im = self.impairment;
        let ghost mut draws = Draws {
            loss: 0,
            jitter_us: if im.jitter_iid {
                0
            } else {
                path_jitter_us as u64
            },
            reorder: 0,
        };
        let depart: u64 = match self.offer(p, epoch) {
            Some(depart) => depart,
            None => {
                assert(drawn(old(self)@.impairment, path_jitter_us, draws));
                return None;
            },
        };
        let loss: u64 = if im.burst == 0 {
            draw(rng, 99)
        } else {
            0
        };
        proof {
            draws = Draws { loss, ..draws };
        }
        if !self.survive(p.impaired, loss, bad) {
            assert(drawn(old(self)@.impairment, path_jitter_us, draws));
            return None;
        }
        let jitter_us: u64 = if !im.jitter_iid {
            path_jitter_us as u64
        } else if p.impaired && im.jitter > 0 {
            draw(rng, im.jitter / 1000)
        } else {
            0
        };
        let reorder: u64 = if p.impaired && im.reorder > 0 {
            draw(rng, 999)
        } else {
            0
        };
        proof {
            draws = Draws { jitter_us, reorder, ..draws };
        }
        let at: u64 = self.arrive(depart, p.impaired, jitter_us, reorder);
        assert(drawn(old(self)@.impairment, path_jitter_us, draws));
        Some(at)
    }
}

impl LinkView {
    /// The periods are whole microseconds or none, and the sums that a packet leads to fit.
    pub open spec fn accepts(self, p: Packet, epoch: u64) -> bool {
        &&& p.impaired ==> {
            &&& self.impairment.spike_every == 0 || self.impairment.spike_every >= 1000
            &&& self.impairment.dip_every == 0 || self.impairment.dip_every >= 1000
        }
        &&& depart_of(self, p, epoch) <= u64::MAX
        &&& bytes_in(still_waiting(self.buffered, p.sent)) + p.wire <= u64::MAX
    }

    /// The link takes the packet, and its arrival fits too, whatever the jitter.
    pub open spec fn carries(self, p: Packet, epoch: u64, path_jitter_us: u32) -> bool {
        &&& self.accepts(p, epoch)
        &&& depart_of(self, p, epoch) + self.impairment.delay + max(
            self.impairment.jitter as int,
            path_jitter_us * 1000,
        ) <= u64::MAX
    }
}

/// What was offered is what went out and what the buffer turned away.
pub open spec fn balanced(stats: LinkStats) -> bool {
    stats.offered == plus(stats.bytes, stats.drop_bytes)
}

/// The bytes offered and the bytes sent differ by exactly the bytes that the buffer turned away,
/// and no packet changes that.
pub proof fn law_offered_is_sent_or_turned_away(
    l: LinkView,
    p: Packet,
    epoch: u64,
    bad: bool,
    draws: Draws,
)
    requires
        balanced(l.stats),
    ensures
        balanced(carried(l, p, epoch, bad, draws).0.stats),
{
}

/// A buffer that has room for a packet holds no more than its size afterwards, and one that is
/// not full stays so.
pub proof fn law_buffer_keeps_its_bound(l: LinkView, p: Packet, epoch: u64)
    requires
        p.impaired,
        l.impairment.queue_bytes > 0,
        bytes_in(l.buffered) <= l.impairment.queue_bytes,
    ensures
        bytes_in(offered(l, p, epoch).0.buffered) <= l.impairment.queue_bytes,
{
    let waiting = still_waiting(l.buffered, p.sent);
    lemma_waiting_is_less(l.buffered, p.sent);
    lemma_bytes_in_push(waiting, (depart_of(l, p, epoch) as u64, p.wire));
}

proof fn lemma_waiting_is_less(buffered: Seq<(u64, u64)>, now: u64)
    ensures
        bytes_in(still_waiting(buffered, now)) <= bytes_in(buffered),
    decreases buffered.len(),
{
    if buffered.len() > 0 && buffered[0].0 <= now {
        lemma_waiting_is_less(buffered.drop_first(), now);
    }
}

/// The departures in the buffer never decrease, nor does the last one lie after `last_depart`.
pub open spec fn departs_in_order(l: LinkView) -> bool {
    &&& forall|i: int, j: int|
        0 <= i <= j < l.buffered.len() ==> (#[trigger] l.buffered[i]).0 <= (
        #[trigger] l.buffered[j]).0
    &&& forall|i: int| 0 <= i < l.buffered.len() ==> (#[trigger] l.buffered[i]).0 <= l.last_depart
}

proof fn lemma_waiting_is_suffix(buffered: Seq<(u64, u64)>, now: u64) -> (k: int)
    ensures
        0 <= k <= buffered.len(),
        still_waiting(buffered, now) == buffered.skip(k),
        forall|i: int| 0 <= i < k ==> (#[trigger] buffered[i]).0 <= now,
        k < buffered.len() ==> buffered[k].0 > now,
    decreases buffered.len(),
{
    if buffered.len() == 0 || buffered[0].0 > now {
        assert(buffered.skip(0) =~= buffered);
        0
    } else {
        let rest = buffered.drop_first();
        let k = lemma_waiting_is_suffix(rest, now);
        assert(rest.skip(k) =~= buffered.skip(k + 1));
        assert forall|i: int| 0 <= i < k + 1 implies (#[trigger] buffered[i]).0 <= now by {
            if i > 0 {
                assert(buffered[i] == rest[i - 1]);
            }
        }
        k + 1
    }
}

/// Packets leave in the order in which they were offered, and what waits when a packet is offered
/// is exactly what has yet to depart.
pub proof fn law_departures_in_order(l: LinkView, p: Packet, epoch: u64)
    requires
        departs_in_order(l),
        depart_of(l, p, epoch) <= u64::MAX,
    ensures
        departs_in_order(offered(l, p, epoch).0),
        l.last_depart <= depart_of(l, p, epoch),
        forall|i: int|
            0 <= i < l.buffered.len() ==> ((#[trigger] l.buffered[i]).0 > p.sent <==> i
                >= l.buffered.len() - still_waiting(l.buffered, p.sent).len()),
{
    let k = lemma_waiting_is_suffix(l.buffered, p.sent);
    assert forall|i: int| 0 <= i < l.buffered.len() implies ((#[trigger] l.buffered[i]).0 > p.sent
        <==> i >= k) by {
        if i >= k {
            assert(l.buffered[k].0 <= l.buffered[i].0);
        }
    }
}

/// The `n`-th packet from now on is dropped exactly if `skip` have passed before it and fewer
/// than `next` were dropped.
pub proof fn law_tail_drop_is_exact(tail: TailDrop, n: nat)
    ensures
        tail.after(n).hits() <==> tail.skip <= n < tail.skip + tail.next,
{
    lemma_after(tail, n);
}

proof fn lemma_after(tail: TailDrop, n: nat)
    ensures
        n <= tail.skip ==> tail.after(n) == (TailDrop { skip: (tail.skip - n) as u64, ..tail }),
        tail.skip <= n <= tail.skip + tail.next ==> tail.after(n) == (TailDrop {
            skip: 0,
            next: (tail.skip + tail.next - n) as u64,
        }),
        tail.skip + tail.next <= n ==> tail.after(n) == (TailDrop { skip: 0, next: 0 }),
    decreases n,
{
    if n > 0 {
        lemma_after(tail, (n - 1) as nat);
    }
}

/// No packet arrives before it departed, and without independent jitter or reordering none
/// arrives before the one that was carried before it.
pub proof fn law_arrivals(l: LinkView, depart: u64, impaired: bool, jitter_us: u64, draw: u64)
    ensures
        arrival_of(l, depart, impaired, jitter_us, draw) >= depart,
        in_order(l.impairment) ==> arrival_of(l, depart, impaired, jitter_us, draw) >= l.last_at,
{
}

/// Without impairment every packet goes through: it leaves once the one before is gone, and
/// arrives after the delay, or with the one before where the order is kept and that one arrives
/// later.
pub proof fn law_unimpaired_link_only_delays(
    l: LinkView,
    p: Packet,
    epoch: u64,
    bad: bool,
    draws: Draws,
)
    requires
        !p.impaired,
        depart_of(l, p, epoch) <= u64::MAX,
    ensures
        ({
            let depart = max(p.sent as int, l.last_depart as int) + p.tx;
            let (after, at) = carried(l, p, epoch, bad, draws);
            &&& after.last_depart == depart
            &&& at == Some(
                if in_order(l.impairment) {
                    max(depart + l.impairment.delay, l.last_at as int) as u64
                } else {
                    (depart + l.impairment.delay) as u64
                },
            )
            &&& after.stats == l.stats
        }),
{
}

/// How far into a period of whole microseconds a moment is that lies `k` periods and `d` after the
/// epoch.
proof fn lemma_phase(t: int, epoch: u64, every: u64, k: nat, d: nat)
    requires
        every >= 1000,
        d < every as int / 1000 * 1000,
        t == epoch + k * (every as int / 1000 * 1000) + d,
    ensures
        phase(t, epoch, every) == d as int / 1000 * 1000,
{
    let q = every as int / 1000;
    let x = d as int / 1000;
    assert(k * (q * 1000) == 1000 * (q * k)) by (nonlinear_arith);
    assert(q * k >= 0) by (nonlinear_arith)
        requires
            q >= 0,
    ;
    assert((t - epoch) / 1000 == q * k + x);
    lemma_mod_multiples_vanish(k as int, x, q);
    lemma_small_mod(x as nat, q as nat);
}

/// Stalls begin with the epoch and come back every period. A packet that the link could begin to
/// send `d` into the `k`-th period is held to the end of the stall if `d` lies within it, and not
/// held otherwise; `d` is counted in whole microseconds, and what it has beyond them is kept.
/// Before the epoch the link is taken to be at the beginning of a stall. Without stalls, or without
/// impairment, nothing is held.
pub proof fn law_stalls_follow_the_epoch(l: LinkView, p: Packet, epoch: u64, k: nat, d: nat)
    ensures
        ({
            let free = if p.sent < l.last_depart {
                l.last_depart as int
            } else {
                p.sent as int
            };
            let every = l.impairment.spike_every as int / 1000 * 1000;
            let len = l.impairment.spike_len as int;
            &&& !p.impaired || l.impairment.spike_every == 0 ==> start_of(l, p, epoch) == free
            &&& p.impaired && l.impairment.spike_every >= 1000 && d < every && free == epoch + k
                * every + d ==> start_of(l, p, epoch) == if d as int / 1000 * 1000 < len {
                epoch + k * every + len + d as int % 1000
            } else {
                free
            }
            &&& p.impaired && l.impairment.spike_every >= 1000 && free < epoch ==> start_of(
                l,
                p,
                epoch,
            ) == free + len
        }),
{
    let free = if p.sent < l.last_depart {
        l.last_depart as int
    } else {
        p.sent as int
    };
    let every = l.impairment.spike_every as int / 1000 * 1000;
    if l.impairment.spike_every >= 1000 && d < every && free == epoch + k * every + d {
        lemma_phase(free, epoch, l.impairment.spike_every, k, d);
    }
}

/// Dips begin with the epoch and come back every period: a packet that the link begins to send `d`
/// into the `k`-th period, in whole microseconds, takes the time of the lower rate if `d` lies
/// within the dip, else that of the full rate. Without dips, or without impairment, it takes the
/// time of the full rate.
pub proof fn law_dips_follow_the_epoch(l: LinkView, p: Packet, epoch: u64, k: nat, d: nat)
    ensures
        ({
            let start = start_of(l, p, epoch);
            let every = l.impairment.dip_every as int / 1000 * 1000;
            let len = l.impairment.dip_len as int;
            &&& !p.impaired || l.impairment.dip_every == 0 ==> depart_of(l, p, epoch) == start
                + p.tx
            &&& p.impaired && l.impairment.dip_every >= 1000 && d < every && start == epoch + k
                * every + d ==> depart_of(l, p, epoch) == start + if d as int / 1000 * 1000 < len {
                p.dip_tx
            } else {
                p.tx
            }
            &&& p.impaired && l.impairment.dip_every >= 1000 && start < epoch ==> depart_of(
                l,
                p,
                epoch,
            ) == start + if len > 0 {
                p.dip_tx
            } else {
                p.tx
            }
        }),
{
    let start = start_of(l, p, epoch);
    let every = l.impairment.dip_every as int / 1000 * 1000;
    if l.impairment.dip_every >= 1000 && d < every && start == epoch + k * every + d {
        lemma_phase(start, epoch, l.impairment.dip_every, k, d);
    }
}

proof fn lemma_waiting_shifted(a: Seq<(u64, u64)>, b: Seq<(u64, u64)>, delta: u64, now: u64)
    requires
        a.len() == b.len(),
        now + delta <= u64::MAX,
        forall|i: int|
            0 <= i < a.len() ==> (#[trigger] b[i]).0 == a[i].0 + delta && b[i].1 == a[i].1,
    ensures
        bytes_in(still_waiting(b, (now + delta) as u64)) == bytes_in(still_waiting(a, now)),
        still_waiting(b, (now + delta) as u64).len() == still_waiting(a, now).len(),
    decreases a.len(),
{
    if a.len() > 0 {
        assert(b[0].0 == a[0].0 + delta);
        if a[0].0 > now {
            lemma_bytes_alike(a, b);
        } else {
            assert forall|i: int| 0 <= i < a.drop_first().len() implies (
            #[trigger] b.drop_first()[i]).0 == a.drop_first()[i].0 + delta && b.drop_first()[i].1
                == a.drop_first()[i].1 by {
                assert(b[i + 1].0 == a[i + 1].0 + delta);
            }
            lemma_waiting_shifted(a.drop_first(), b.drop_first(), delta, now);
        }
    }
}

proof fn lemma_bytes_alike(a: Seq<(u64, u64)>, b: Seq<(u64, u64)>)
    requires
        a.len() == b.len(),
        forall|i: int| 0 <= i < a.len() ==> (#[trigger] b[i]).1 == a[i].1,
    ensures
        bytes_in(a) == bytes_in(b),
    decreases a.len(),
{
    if a.len() > 0 {
        assert(b[0].1 == a[0].1);
        assert forall|i: int| 0 <= i < a.drop_first().len() implies (
        #[trigger] b.drop_first()[i]).1 == a.drop_first()[i].1 by {
            assert(b[i + 1].1 == a[i + 1].1);
        }
        lemma_bytes_alike(a.drop_first(), b.drop_first());
    }
}

/// Only distances in time count: with the epoch, the packet's send time and all that the link
/// remembers moved by the same amount, the packet is turned away or not as before, departs and
/// arrives later by that amount, and is counted the same.
pub proof fn law_only_distances_count(
    l: LinkView,
    p: Packet,
    epoch: u64,
    delta: u64,
    l2: LinkView,
    p2: Packet,
    epoch2: u64,
)
    requires
        l2.impairment == l.impairment,
        l2.stats == l.stats,
        l2.tail == l.tail,
        l2.last_depart == l.last_depart + delta,
        l2.last_at == l.last_at + delta,
        l2.buffered.len() == l.buffered.len(),
        forall|i: int|
            0 <= i < l.buffered.len() ==> (#[trigger] l2.buffered[i]).0 == l.buffered[i].0 + delta
                && l2.buffered[i].1 == l.buffered[i].1,
        p2 == (Packet { sent: p2.sent, ..p }),
        p2.sent == p.sent + delta,
        epoch2 == epoch + delta,
        depart_of(l, p, epoch) + delta <= u64::MAX,
    ensures
        start_of(l2, p2, epoch2) == start_of(l, p, epoch) + delta,
        depart_of(l2, p2, epoch2) == depart_of(l, p, epoch) + delta,
        offered(l, p, epoch).1 is None <==> offered(l2, p2, epoch2).1 is None,
        offered(l, p, epoch).1 matches Some(d) ==> offered(l2, p2, epoch2).1 == Some(
            (d + delta) as u64,
        ),
        offered(l2, p2, epoch2).0.stats == offered(l, p, epoch).0.stats,
        forall|depart: u64, jitter_us: u64, draw: u64|
            depart + delta <= u64::MAX ==> arrival_of(
                l2,
                (depart + delta) as u64,
                p.impaired,
                jitter_us,
                draw,
            ) == #[trigger] arrival_of(l, depart, p.impaired, jitter_us, draw) + delta,
{
    lemma_waiting_shifted(l.buffered, l2.buffered, delta, p.sent);
}

proof fn lemma_bytes_are_summed(buffered: Seq<(u64, u64)>)
    ensures
        bytes_in(buffered) == buffered.fold_left(0int, |sum: int, x: (u64, u64)| sum + x.1),
    decreases buffered.len(),
{
    if buffered.len() > 0 {
        let rest = buffered.drop_last();
        lemma_bytes_are_summed(rest);
        lemma_bytes_in_push(rest, buffered.last());
        assert(rest.push(buffered.last()) =~= buffered);
    }
}

proof fn lemma_filter_is_suffix(buffered: Seq<(u64, u64)>, k: int, now: u64)
    requires
        0 <= k <= buffered.len(),
        forall|i: int| 0 <= i < k ==> (#[trigger] buffered[i]).0 <= now,
        forall|i: int| k <= i < buffered.len() ==> (#[trigger] buffered[i]).0 > now,
    ensures
        buffered.filter(|x: (u64, u64)| x.0 > now) == buffered.skip(k),
    decreases buffered.len(),
{
    reveal(Seq::filter);
    let f = |x: (u64, u64)| x.0 > now;
    if buffered.len() > 0 {
        let rest = buffered.drop_last();
        if k < buffered.len() {
            lemma_filter_is_suffix(rest, k, now);
            assert(buffered[buffered.len() - 1].0 > now);
            assert(rest.skip(k).push(buffered.last()) =~= buffered.skip(k));
        } else {
            lemma_filter_is_suffix(rest, k - 1, now);
            assert(buffered[buffered.len() - 1].0 <= now);
            assert(rest.skip(k - 1) =~= buffered.skip(k));
        }
    } else {
        assert(buffered.skip(k) =~= buffered);
    }
}

/// A packet is turned away exactly if impairment applies, the buffer has a size, and the sizes of
/// the packets that have yet to depart when it is sent, and its own, come to more than that. One
/// that is taken departs, waits behind the others with its size, and is the last to have departed.
pub proof fn law_full_buffer_turns_away(l: LinkView, p: Packet, epoch: u64)
    requires
        departs_in_order(l),
    ensures
        ({
            let waiting = l.buffered.filter(|x: (u64, u64)| x.0 > p.sent);
            let bytes = waiting.fold_left(0int, |sum: int, x: (u64, u64)| sum + x.1);
            let (after, departed) = offered(l, p, epoch);
            &&& departed is None <==> p.impaired && l.impairment.queue_bytes > 0 && bytes + p.wire
                > l.impairment.queue_bytes
            &&& departed is None ==> after.buffered == waiting && after.last_depart
                == l.last_depart
            &&& departed matches Some(depart) ==> after.buffered == waiting.push((depart, p.wire))
            &&& departed matches Some(depart) ==> after.last_depart == depart && depart
                == depart_of(l, p, epoch) as u64
            &&& after.last_at == l.last_at
            &&& after.tail == l.tail
            &&& after.impairment == l.impairment
        }),
{
    let k = lemma_waiting_is_suffix(l.buffered, p.sent);
    assert forall|i: int| k <= i < l.buffered.len() implies (#[trigger] l.buffered[i]).0
        > p.sent by {
        assert(l.buffered[k].0 <= l.buffered[i].0);
    }
    lemma_filter_is_suffix(l.buffered, k, p.sent);
    lemma_bytes_are_summed(still_waiting(l.buffered, p.sent));
}

/// Counters count, modulo what they can hold: an impaired packet is one more, its bytes are
/// offered, and they are either sent, or turned away with one packet more dropped. Without
/// impairment nothing is counted.
pub proof fn law_counters_count(l: LinkView, p: Packet, epoch: u64)
    ensures
        ({
            let (before, after) = (l.stats, offered(l, p, epoch).0.stats);
            let m = 0x1_0000_0000_0000_0000int;
            let away = offered(l, p, epoch).1 is None;
            &&& !p.impaired ==> after == before
            &&& p.impaired ==> {
                &&& after.pkts - before.pkts == 1 || after.pkts - before.pkts == 1 - m
                &&& after.offered - before.offered == p.wire || after.offered - before.offered
                    == p.wire - m
                &&& !away ==> after.drop_bytes == before.drop_bytes && after.dropped
                    == before.dropped
                &&& !away ==> after.bytes - before.bytes == p.wire || after.bytes - before.bytes
                    == p.wire - m
                &&& away ==> after.bytes == before.bytes
                &&& away ==> after.dropped - before.dropped == 1 || after.dropped - before.dropped
                    == 1 - m
                &&& away ==> after.drop_bytes - before.drop_bytes == p.wire || after.drop_bytes
                    - before.drop_bytes == p.wire - m
            }
        }),
{
}

/// A packet that departed is dropped exactly if impairment applies and it is lost or one to drop:
/// lost if its draw is below the per cent of loss, or in bursts if the path is in its bad state; to
/// drop if none is to be let pass first and some are left to drop. Every packet, impaired or not,
/// uses up one to let pass or else one to drop.
pub proof fn law_fates(l: LinkView, impaired: bool, draw: u64, bad: bool)
    ensures
        ({
            let (after, on) = survived(l, impaired, draw, bad);
            &&& !on <==> impaired && {
                ||| l.impairment.burst == 0 && draw < l.impairment.loss
                ||| l.impairment.burst != 0 && bad
                ||| l.tail.skip == 0 && l.tail.next != 0
            }
            &&& l.tail.skip != 0 ==> after.tail.skip == l.tail.skip - 1 && after.tail.next
                == l.tail.next
            &&& l.tail.skip == 0 && l.tail.next != 0 ==> after.tail.skip == 0 && after.tail.next
                == l.tail.next - 1
            &&& l.tail.skip == 0 && l.tail.next == 0 ==> after.tail == l.tail
            &&& on ==> after.stats == l.stats
            &&& !on ==> after.stats == (LinkStats {
                dropped: if l.stats.dropped == u64::MAX {
                    0
                } else {
                    (l.stats.dropped + 1) as u64
                },
                ..l.stats
            })
            &&& after.buffered == l.buffered
            &&& after.last_depart == l.last_depart
            &&& after.last_at == l.last_at
            &&& after.impairment == l.impairment
        }),
{
}

/// When a packet arrives, in numbers: after the delay, and after the jitter where impairment
/// applies and there is jitter. One that is drawn for reordering comes earlier by the amount set
/// for that, but not before it departed. Where jitter is shared and nothing is reordered, a packet
/// arrives no earlier than the one before, and the next one no earlier than it.
pub proof fn law_arrival_in_numbers(
    l: LinkView,
    depart: u64,
    impaired: bool,
    jitter_us: u64,
    draw: u64,
)
    ensures
        ({
            let im = l.impairment;
            let at = arrival_of(l, depart, impaired, jitter_us, draw);
            let due = depart + im.delay + if impaired && im.jitter != 0 {
                jitter_us * 1000
            } else {
                0
            };
            let shuffles = (im.jitter_iid && im.jitter != 0) || im.reorder != 0;
            &&& shuffles && impaired && draw < im.reorder ==> at == due - im.reorder_by || (at
                == depart && due - im.reorder_by <= depart)
            &&& shuffles && impaired && draw < im.reorder ==> at >= depart
            &&& shuffles && !(impaired && draw < im.reorder) ==> at == due
            &&& !shuffles && due >= l.last_at ==> at == due
            &&& !shuffles && due < l.last_at ==> at == l.last_at
            &&& !shuffles ==> arrived(l, at) == (LinkView { last_at: at as u64, ..l })
            &&& shuffles ==> arrived(l, at) == l
        }),
{
}

/// A packet is carried in three steps, and each only if the one before let it go on: it is offered,
/// it meets its fate, and its arrival is settled.
pub proof fn law_carried_in_steps(l: LinkView, p: Packet, epoch: u64, bad: bool, draws: Draws)
    ensures
        ({
            let (l1, depart) = offered(l, p, epoch);
            let (l2, on) = survived(l1, p.impaired, draws.loss, bad);
            let at = arrival_of(
                l2,
                depart->0,
                p.impaired,
                draws.jitter_us,
                draws.reorder,
            );
            let (after, arrival) = carried(l, p, epoch, bad, draws);
            &&& depart is None ==> after == l1 && arrival is None
            &&& depart is Some && !on ==> after == l2 && arrival is None
            &&& depart is Some && on ==> after == arrived(l2, at) && arrival == Some(at as u64)
        }),
{
}

/// A packet can be carried exactly if the periods that matter to it are none or at least a
/// microsecond, its departure and the delay leave room for the most jitter that may be drawn and
/// for the path's own, and the bytes that have yet to depart when it is sent leave room for its
/// own.
pub proof fn law_carries_what_can_be_counted(
    l: LinkView,
    p: Packet,
    epoch: u64,
    path_jitter_us: u32,
)
    requires
        departs_in_order(l),
    ensures
        ({
            let im = l.impairment;
            let due = depart_of(l, p, epoch) + im.delay;
            let waiting = l.buffered.filter(|x: (u64, u64)| x.0 > p.sent);
            let bytes = waiting.fold_left(0int, |sum: int, x: (u64, u64)| sum + x.1);
            l.carries(p, epoch, path_jitter_us) <==> {
                &&& !p.impaired || im.spike_every == 0 || im.spike_every >= 1000
                &&& !p.impaired || im.dip_every == 0 || im.dip_every >= 1000
                &&& due + im.jitter <= u64::MAX
                &&& due + 1000 * path_jitter_us <= u64::MAX
                &&& bytes + p.wire <= u64::MAX
            }
        }),
{
    let k = lemma_waiting_is_suffix(l.buffered, p.sent);
    assert forall|i: int| k <= i < l.buffered.len() implies (#[trigger] l.buffered[i]).0
        > p.sent by {
        assert(l.buffered[k].0 <= l.buffered[i].0);
    }
    lemma_filter_is_suffix(l.buffered, k, p.sent);
    lemma_bytes_are_summed(still_waiting(l.buffered, p.sent));
}

/// What can be carried can be counted: the packet's departure and arrival are the times they are
/// computed to be, whatever is drawn.
pub proof fn law_carried_times_fit(
    l: LinkView,
    p: Packet,
    epoch: u64,
    bad: bool,
    path_jitter_us: u32,
    draws: Draws,
)
    requires
        l.carries(p, epoch, path_jitter_us),
        drawn(l.impairment, path_jitter_us, draws),
    ensures
        ({
            let (l1, depart) = offered(l, p, epoch);
            let l2 = survived(l1, p.impaired, draws.loss, bad).0;
            let at = arrival_of(l2, depart->0, p.impaired, draws.jitter_us, draws.reorder);
            &&& depart is Some ==> depart->0 == depart_of(l, p, epoch)
            &&& depart is Some ==> at <= u64::MAX
            &&& carried(l, p, epoch, bad, draws).1 matches Some(t) ==> t == at
        }),
{
}

/// The draws, in numbers: a hundred for loss, a thousand for reordering, and for jitter as many as
/// it has whole microseconds, and none; where jitter is not drawn it is the path's.
pub proof fn law_draws_in_numbers(im: Impairment, path_jitter_us: u32, draws: Draws)
    ensures
        drawn(im, path_jitter_us, draws) <==> {
            &&& draws.loss < 100
            &&& draws.reorder < 1000
            &&& im.jitter_iid ==> 1000 * draws.jitter_us <= im.jitter
            &&& !im.jitter_iid ==> draws.jitter_us == path_jitter_us
        },
{
}

/// A loss of a hundred per cent loses every impaired packet, and one of none loses none: a packet
/// that departs, and is not one to drop, arrives.
pub proof fn law_total_loss_and_none(
    l: LinkView,
    p: Packet,
    epoch: u64,
    bad: bool,
    path_jitter_us: u32,
    draws: Draws,
)
    requires
        p.impaired,
        l.impairment.burst == 0,
        drawn(l.impairment, path_jitter_us, draws),
    ensures
        l.impairment.loss >= 100 ==> carried(l, p, epoch, bad, draws).1 is None,
        l.impairment.loss == 0 && (l.tail.skip != 0 || l.tail.next == 0) ==> (carried(
            l,
            p,
            epoch,
            bad,
            draws,
        ).1 is Some <==> offered(l, p, epoch).1 is Some),
{
}

} // verus!

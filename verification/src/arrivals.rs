//! Packets on their way, and the path's state over time.

use std::collections::VecDeque;
use vstd::prelude::*;

verus! {

/// A packet waiting to arrive.
#[derive(Debug)]
pub struct Scheduled {
    pub at: u64,
    /// The packet's place in the order in which packets were scheduled.
    pub seq: u64,
    pub bytes: Vec<u8>,
}

impl Scheduled {
    /// The packet arrives before `other`: earlier, or at the same time and scheduled first.
    pub open spec fn before(self, other: Scheduled) -> bool {
        self.at < other.at || (self.at == other.at && self.seq < other.seq)
    }
}

/// Each packet arrives before all that follow it.
pub open spec fn ordered(packets: Seq<Scheduled>) -> bool {
    forall|i: int, j: int|
        0 <= i < j < packets.len() ==> (#[trigger] packets[i]).before(#[trigger] packets[j])
}

/// Packets in the order of their arrival.
#[derive(Debug)]
pub struct Schedule {
    packets: VecDeque<Scheduled>,
    next_seq: u64,
}

impl View for Schedule {
    type V = Seq<Scheduled>;

    closed spec fn view(&self) -> Seq<Scheduled> {
        self.packets@
    }
}

impl Schedule {
    /// The place of the packet that is scheduled next.
    pub closed spec fn seq(self) -> u64 {
        self.next_seq
    }

    pub open spec fn wf(self) -> bool {
        &&& ordered(self@)
        &&& forall|i: int| 0 <= i < self@.len() ==> (#[trigger] self@[i]).seq < self.seq()
    }

    /// A schedule without packets.
    pub fn new() -> (r: Schedule)
        ensures
            r.wf(),
            r@.len() == 0,
            r.seq() == 0,
    {
        Schedule { packets: VecDeque::new(), next_seq: 0 }
    }

    /// The place of the packet that is scheduled next.
    pub fn next_seq(&self) -> (r: u64)
        ensures
            r == self.seq(),
    {
        self.next_seq
    }

    /// Schedules a packet: after all that arrive by then, before all that arrive later.
    pub fn push(&mut self, at: u64, bytes: Vec<u8>)
        requires
            old(self).wf(),
            old(self).seq() < u64::MAX,
        ensures
            final(self).wf(),
            final(self).seq() == old(self).seq() + 1,
            exists|k: int|
                {
                    &&& 0 <= k <= old(self)@.len()
                    &&& #[trigger] old(self)@.insert(
                        k,
                        Scheduled { at, seq: old(self).seq(), bytes },
                    ) == final(self)@
                    &&& forall|i: int| 0 <= i < k ==> (#[trigger] old(self)@[i]).at <= at
                    &&& forall|i: int|
                        k <= i < old(self)@.len() ==> (#[trigger] old(self)@[i]).at > at
                },
    {
        let mut k: usize = self.packets.len();
        while k > 0 && self.packets[k - 1].at > at
            invariant
                *self == *old(self),
                self.wf(),
                k <= self.packets@.len(),
                forall|i: int| k <= i < self@.len() ==> (#[trigger] self@[i]).at > at,
            decreases k,
        {
            k = k - 1;
        }
        assert forall|i: int| 0 <= i < k implies (#[trigger] self@[i]).at <= at by {
            if i < k - 1 {
                assert(self@[i].before(self@[k - 1]));
            }
        }
        let packet = Scheduled { at, seq: self.next_seq, bytes };
        self.packets.insert(k, packet);
        self.next_seq = self.next_seq + 1;
        assert(self@ =~= old(self)@.insert(k as int, packet));
    }

    /// When the next packet arrives.
    pub fn next_at(&self) -> (r: Option<u64>)
        ensures
            r == if self@.len() == 0 {
                None
            } else {
                Some(self@[0].at)
            },
    {
        if self.packets.len() == 0 {
            None
        } else {
            Some(self.packets[0].at)
        }
    }

    /// Takes the packet that arrives next.
    pub fn pop(&mut self) -> (r: Option<Scheduled>)
        requires
            old(self).wf(),
        ensures
            final(self).wf(),
            final(self).seq() == old(self).seq(),
            match r {
                Some(packet) => {
                    &&& old(self)@.len() > 0
                    &&& packet == old(self)@[0]
                    &&& final(self)@ == old(self)@.drop_first()
                },
                None => old(self)@.len() == 0 && final(self)@ == old(self)@,
            },
    {
        let r = self.packets.pop_front();
        assert(r is Some ==> self@ =~= old(self)@.drop_first());
        assert(r is None ==> self@ =~= old(self)@);
        r
    }
}

/// The packet taken next arrives before every other: the earliest, and among those that arrive
/// together the one scheduled first.
pub proof fn law_earliest_arrives_first(packets: Seq<Scheduled>, i: int)
    requires
        ordered(packets),
        0 < i < packets.len(),
    ensures
        packets[0].before(packets[i]),
        packets[0].at < packets[i].at || (packets[0].at == packets[i].at && packets[0].seq
            < packets[i].seq),
{
}

/// The state of a path, a millisecond a tick: what a packet meets depends on when it is sent, not
/// on how many were sent before it.
#[derive(Debug)]
pub struct PathTrace {
    pub jitter_us: Vec<u32>,
    pub bad: Vec<bool>,
}

impl PathTrace {
    pub open spec fn wf(self) -> bool {
        self.jitter_us@.len() == self.bad@.len()
    }

    /// A path of no length.
    pub fn new() -> (r: PathTrace)
        ensures
            r.wf(),
            r.jitter_us@.len() == 0,
    {
        PathTrace { jitter_us: Vec::new(), bad: Vec::new() }
    }

    /// Adds a tick.
    pub fn push(&mut self, jitter_us: u32, bad: bool)
        requires
            old(self).wf(),
        ensures
            final(self).wf(),
            final(self).jitter_us@ == old(self).jitter_us@.push(jitter_us),
            final(self).bad@ == old(self).bad@.push(bad),
    {
        self.jitter_us.push(jitter_us);
        self.bad.push(bad);
    }

    /// The jitter and whether the path is in its bad state, so many milliseconds in. The last tick
    /// lasts for ever.
    pub fn at(&self, millis: usize) -> (r: (u32, bool))
        requires
            self.wf(),
            self.jitter_us@.len() > 0,
        ensures
            ({
                let last = self.jitter_us@.len() - 1;
                let i = if millis < last {
                    millis as int
                } else {
                    last
                };
                r == (self.jitter_us@[i], self.bad@[i])
            }),
    {
        let last: usize = self.jitter_us.len() - 1;
        let i: usize = if millis < last {
            millis
        } else {
            last
        };
        (self.jitter_us[i], self.bad[i])
    }
}

/// The largest step of the jitter's walk, a twentieth of the most jitter.
pub fn walk_step(most: i64) -> (r: i64)
    requires
        most >= 0,
    ensures
        r == if most < 20 {
            1
        } else {
            most as int / 20
        },
{
    let step: i64 = most / 20;
    if step < 1 {
        1
    } else {
        step
    }
}

/// The jitter after a step of its walk, which stays between zero and `most`.
pub fn walk(jitter: i64, step: i64, most: i64) -> (r: i64)
    requires
        0 <= jitter <= most,
        i64::MIN <= jitter + step <= i64::MAX,
    ensures
        0 <= r <= most,
        0 <= jitter + step <= most ==> r == jitter + step,
        jitter + step < 0 ==> r == 0,
        jitter + step > most ==> r == most,
{
    let moved: i64 = jitter + step;
    if moved < 0 {
        0
    } else if moved > most {
        most
    } else {
        moved
    }
}

/// The steps of the walk are a twentieth of the most jitter, rounded down, and at least one.
pub proof fn law_walk_step_is_a_twentieth(most: i64, r: i64)
    requires
        most >= 0,
        call_ensures(walk_step, (most,), r),
    ensures
        r >= 1,
        r > 1 ==> 20 * r <= most,
        20 * r + 20 > most,
{
}

/// The walk moves by its step, except that it stops at zero and at the most jitter; so it never
/// moves further than the step, and never the other way.
pub proof fn law_walk_stops_at_its_ends(jitter: i64, step: i64, most: i64, r: i64)
    requires
        0 <= jitter <= most,
        i64::MIN <= jitter + step <= i64::MAX,
        call_ensures(walk, (jitter, step, most), r),
    ensures
        0 <= r <= most,
        0 < r < most ==> r - jitter == step,
        step >= 0 ==> 0 <= r - jitter <= step,
        step <= 0 ==> step <= r - jitter <= 0,
        step > 0 && r - jitter < step ==> r == most,
        step < 0 && r - jitter > step ==> r == 0,
{
}

/// The path is looked up by the millisecond, and its last tick lasts: after it nothing changes any
/// more.
pub proof fn law_last_tick_lasts(
    trace: &PathTrace,
    millis: usize,
    later: usize,
    r: (u32, bool),
    s: (u32, bool),
)
    requires
        trace.wf(),
        trace.jitter_us@.len() > 0,
        millis <= later,
        call_ensures(PathTrace::at, (trace, millis), r),
        call_ensures(PathTrace::at, (trace, later), s),
    ensures
        millis < trace.jitter_us@.len() ==> r.0 == trace.jitter_us@[millis as int] && r.1
            == trace.bad@[millis as int],
        millis + 1 >= trace.jitter_us@.len() ==> r == s && r.0 == trace.jitter_us@.last() && r.1
            == trace.bad@.last(),
{
}

} // verus!

//! A workload of frames for a link, sent in bursts.
//!
//! Times are nanoseconds on the caller's clock.

use crate::link::TailDrop;
use vstd::arithmetic::div_mod::{lemma_mod_multiples_vanish, lemma_mod_self_0, lemma_small_mod};
use vstd::prelude::*;

verus! {

/// The most of a message that one write hands to an SCTP stream.
pub const SCTP_MESSAGE: u64 = 60000;

/// The data that one SCTP chunk carries.
pub const SCTP_CHUNK: u64 = 1160;

/// The data that one KCP segment carries.
pub const KCP_SEGMENT: u64 = 1176;

/// How frames are sent.
#[derive(Clone, Copy, Debug, PartialEq, Eq, Structural)]
pub struct Workload {
    /// Packets that a frame takes.
    pub frame_packets: u64,
    pub interval: u64,
    /// After this many frames there is a pause of `gap`; zero is never.
    pub gap_every: usize,
    pub gap: u64,
    /// How many packets at the end of each burst are dropped.
    pub tail_drop: u64,
}

/// How many times `b` it takes to cover `a`.
pub open spec fn div_ceil(a: int, b: int) -> int {
    (a + b - 1) / b
}

impl Workload {
    /// The frames that the dropped tail of a burst spans.
    pub open spec fn tail_frames(self) -> int {
        div_ceil(self.tail_drop as int, self.frame_packets as int)
    }

    pub open spec fn drops_tails(self) -> bool {
        self.tail_drop != 0 && self.gap_every != 0
    }

    /// The dropped tail is no longer than a burst, and the packets of the frames it spans can be
    /// counted.
    pub open spec fn wf(self) -> bool {
        self.drops_tails() ==> {
            &&& self.frame_packets > 0
            &&& self.tail_drop <= self.gap_every * self.frame_packets
            &&& self.tail_frames() * self.frame_packets <= u64::MAX
        }
    }

    /// The dropped tail of the burst begins within frame `i`.
    pub open spec fn arms_at(self, i: usize) -> bool {
        self.drops_tails() && i as int % self.gap_every as int == self.gap_every
            - self.tail_frames()
    }

    /// The drop to arm before frame `i`: the last packets of the burst, however many frames they
    /// span.
    pub open spec fn armed(self) -> TailDrop {
        TailDrop {
            skip: (self.tail_frames() * self.frame_packets - self.tail_drop) as u64,
            next: self.tail_drop,
        }
    }

    /// The time from frame `i` to the next.
    pub open spec fn pause(self, i: usize) -> int {
        self.interval + if self.gap_every > 0 && (i + 1) % self.gap_every as int == 0 {
            self.gap as int
        } else {
            0
        }
    }

    /// When to send the frame after frame `i`, which is sent at `now`, and the drop to arm before
    /// frame `i`, if any.
    pub fn step(&self, i: usize, now: u64) -> (r: (u64, Option<TailDrop>))
        requires
            self.wf(),
            i < usize::MAX,
            now + self.pause(i) <= u64::MAX,
        ensures
            r.0 == now + self.pause(i),
            self.gap_every != 0 && (i + 1) % self.gap_every as int == 0 ==> r.0 == now
                + self.interval + self.gap,
            self.gap_every == 0 || (i + 1) % self.gap_every as int != 0 ==> r.0 == now
                + self.interval,
            r.1 == if self.arms_at(i) {
                Some(self.armed())
            } else {
                None
            },
    {
        let mut next: u64 = now + self.interval;
        if self.gap_every > 0 && (i + 1) % self.gap_every == 0 {
            next = next + self.gap;
        }
        if self.tail_drop == 0 || self.gap_every == 0 {
            return (next, None);
        }
        proof {
            lemma_div_ceil(self.tail_drop as int, self.frame_packets as int);
            lemma_tail_fits(*self);
        }
        let full: u64 = self.tail_drop / self.frame_packets;
        let frames: u64 = if self.tail_drop % self.frame_packets == 0 {
            full
        } else {
            full + 1
        };
        if i % self.gap_every == self.gap_every - frames as usize {
            (
                next,
                Some(
                    TailDrop {
                        skip: frames * self.frame_packets - self.tail_drop,
                        next: self.tail_drop,
                    },
                ),
            )
        } else {
            (next, None)
        }
    }
}

proof fn lemma_div_ceil(a: int, b: int)
    requires
        a >= 0,
        b > 0,
    ensures
        div_ceil(a, b) == a / b + if a % b == 0 {
            0int
        } else {
            1
        },
        a <= div_ceil(a, b) * b < a + b,
{
    let q = a / b;
    let m = a % b;
    assert(a == b * q + m && 0 <= m < b) by (nonlinear_arith)
        requires
            b > 0,
            q == a / b,
            m == a % b,
    ;
    if m == 0 {
        assert((b * q + b - 1) / b == q) by (nonlinear_arith)
            requires
                b > 0,
        ;
        assert(q * b == a) by (nonlinear_arith)
            requires
                a == b * q,
        ;
    } else {
        assert((b * q + m + b - 1) / b == q + 1) by (nonlinear_arith)
            requires
                b > 0,
                0 < m < b,
        ;
        assert((q + 1) * b == a - m + b) by (nonlinear_arith)
            requires
                a == b * q + m,
        ;
    }
}

proof fn lemma_tail_fits(w: Workload)
    requires
        w.wf(),
        w.drops_tails(),
    ensures
        1 <= w.tail_frames() <= w.gap_every,
        w.tail_drop <= w.tail_frames() * w.frame_packets,
{
    let f = w.tail_frames();
    let b = w.frame_packets as int;
    lemma_div_ceil(w.tail_drop as int, b);
    assert(f >= 1) by (nonlinear_arith)
        requires
            f * b >= 1,
            b > 0,
    ;
    assert(f <= w.gap_every) by (nonlinear_arith)
        requires
            f * b < w.tail_drop + b,
            w.tail_drop <= w.gap_every * b,
            b > 0,
    ;
}

/// The packets that are dropped are the last of the burst: from the frame before which the drop is
/// armed, the burst has as many packets left as the drop lets pass and drops together.
pub proof fn law_tail_of_burst_is_dropped(w: Workload, i: usize)
    requires
        w.wf(),
        w.arms_at(i),
    ensures
        (w.gap_every - i as int % w.gap_every as int) * w.frame_packets == w.armed().skip
            + w.armed().next,
        w.armed().next == w.tail_drop,
        w.armed().skip < w.frame_packets,
{
    lemma_div_ceil(w.tail_drop as int, w.frame_packets as int);
    lemma_tail_fits(w);
}

/// The drop is armed before the one frame of a burst in which the dropped tail begins: the frames
/// from it on have enough packets for the tail, and those after it have not. It lets the packets
/// pass that these frames have beyond the tail.
pub proof fn law_tail_begins_in_one_frame(w: Workload, i: usize)
    requires
        w.wf(),
        w.tail_drop != 0,
        w.gap_every != 0,
    ensures
        ({
            let left = w.gap_every - i as int % w.gap_every as int;
            &&& w.arms_at(i) <==> (left - 1) * w.frame_packets < w.tail_drop <= left
                * w.frame_packets
            &&& w.arms_at(i) ==> w.armed().next == w.tail_drop && w.armed().skip + w.tail_drop
                == left * w.frame_packets
        }),
{
    let left = w.gap_every - i as int % w.gap_every as int;
    let f = w.tail_frames();
    let b = w.frame_packets as int;
    let t = w.tail_drop as int;
    lemma_div_ceil(t, b);
    lemma_tail_fits(w);
    if w.arms_at(i) {
        assert(left == f);
        assert((f - 1) * b == f * b - b) by (nonlinear_arith);
    }
    if (left - 1) * b < t <= left * b {
        assert(left == f) by (nonlinear_arith)
            requires
                (left - 1) * b < t <= left * b,
                t <= f * b < t + b,
                b > 0,
        ;
    }
}

/// Without a tail to drop, or without bursts, nothing is armed.
pub proof fn law_nothing_armed_without_bursts(w: Workload, i: usize)
    requires
        w.tail_drop == 0 || w.gap_every == 0,
    ensures
        !w.arms_at(i),
{
}

/// A frame takes as few packets as hold it: KCP ones hold 1176 bytes each of the frame and its
/// four-byte length, SCTP ones 1160 bytes each of a message. A frame of more than 60000 bytes
/// fills a first message of that size, which takes 52, and goes on in others. A frame shorter than
/// eight bytes is sent as one of eight.
pub proof fn law_frames_take_as_few_packets_as_hold_them(frame: u64)
    ensures
        frame >= 8 ==> 1176 * (packets_of(frame, true) - 1) < frame + 4 <= 1176 * packets_of(
            frame,
            true,
        ),
        8 <= frame <= 60000 ==> 1160 * (packets_of(frame, false) - 1) < frame <= 1160
            * packets_of(frame, false),
        frame > 60000 + 8 ==> packets_of(frame, false) == 52 + packets_of(
            (frame - 60000) as u64,
            false,
        ),
        60000 < frame <= 60008 ==> packets_of(frame, false) == 53,
        frame < 8 ==> packets_of(frame, false) == packets_of(8, false) && packets_of(frame, true)
            == packets_of(8, true),
{
    reveal_with_fuel(sctp_packets, 3);
}

/// The packets that a frame takes: a KCP frame goes out behind a four-byte length, an SCTP one in
/// messages of at most [`SCTP_MESSAGE`]. A frame holds at least its eight-byte time stamp.
pub open spec fn packets_of(frame: u64, kcp: bool) -> int {
    let len = if frame < 8 {
        8
    } else {
        frame as int
    };
    if kcp {
        div_ceil(len + 4, KCP_SEGMENT as int)
    } else {
        sctp_packets(len)
    }
}

/// The packets that the messages of so many bytes take.
pub open spec fn sctp_packets(len: int) -> int
    decreases len,
{
    if len <= 0 {
        0
    } else if len <= SCTP_MESSAGE {
        div_ceil(len, SCTP_CHUNK as int)
    } else {
        div_ceil(SCTP_MESSAGE as int, SCTP_CHUNK as int) + sctp_packets(len - SCTP_MESSAGE)
    }
}

proof fn lemma_sctp_packets_few(len: int)
    requires
        len >= 0,
    ensures
        0 <= sctp_packets(len) <= len,
    decreases len,
{
    if len > SCTP_MESSAGE {
        lemma_sctp_packets_few(len - SCTP_MESSAGE);
    }
}

/// The packets that a frame takes.
pub fn frame_packets(frame: u64, kcp: bool) -> (r: u64)
    requires
        kcp ==> frame + 4 <= u64::MAX,
    ensures
        r == packets_of(frame, kcp),
{
    let len: u64 = if frame < 8 {
        8
    } else {
        frame
    };
    if kcp {
        let whole: u64 = len + 4;
        let full: u64 = whole / KCP_SEGMENT;
        if whole % KCP_SEGMENT == 0 {
            full
        } else {
            full + 1
        }
    } else {
        let mut left: u64 = len;
        let mut packets: u64 = 0;
        proof {
            lemma_sctp_packets_few(len as int);
        }
        while left > SCTP_MESSAGE
            invariant
                left > 0,
                packets + sctp_packets(left as int) == sctp_packets(len as int),
                0 <= sctp_packets(len as int) <= len,
            decreases left,
        {
            proof {
                lemma_sctp_packets_few(left - SCTP_MESSAGE);
            }
            packets = packets + (SCTP_MESSAGE + SCTP_CHUNK - 1) / SCTP_CHUNK;
            left = left - SCTP_MESSAGE;
        }
        packets + (left + SCTP_CHUNK - 1) / SCTP_CHUNK
    }
}

/// The size of a buffer in bytes: as it is given, or else what goes out in so many milliseconds at
/// so many megabits a second.
pub fn queue_bytes(explicit: u64, millis: u64, rate_mbps: u64) -> (r: u64)
    requires
        explicit == 0 ==> millis * rate_mbps * 1_000_000 <= u64::MAX,
    ensures
        r == if explicit > 0 {
            explicit as int
        } else {
            millis * rate_mbps * 125
        },
{
    if explicit > 0 {
        explicit
    } else {
        proof {
            let x = millis * rate_mbps;
            assert(x >= 0) by (nonlinear_arith)
                requires
                    x == millis * rate_mbps,
            ;
        }
        millis * rate_mbps * 1_000_000 / 8 / 1000
    }
}

/// How many frames took longer than `millis` whole milliseconds.
pub open spec fn late(latencies: Seq<u64>, millis: u64) -> nat
    decreases latencies.len(),
{
    if latencies.len() == 0 {
        0
    } else {
        late(latencies.drop_last(), millis) + if latencies.last() / 1_000_000 > millis {
            1nat
        } else {
            0
        }
    }
}

/// How many of `frames` frames missed a deadline: those that took longer, and those that never
/// came.
pub fn missed(latencies: &[u64], frames: usize, millis: u64) -> (r: usize)
    requires
        latencies@.len() <= frames,
    ensures
        r == late(latencies@, millis) + (frames - latencies@.len()),
{
    let mut n: usize = 0;
    for i in 0..latencies.len()
        invariant
            n == late(latencies@.take(i as int), millis),
            n <= i,
    {
        assert(latencies@.take(i + 1).drop_last() =~= latencies@.take(i as int));
        if latencies[i] / 1_000_000 > millis {
            n = n + 1;
        }
    }
    assert(latencies@.take(latencies@.len() as int) =~= latencies@);
    n + (frames - latencies.len())
}

/// The late frames are those whose latency, in whole milliseconds, is above the limit.
pub proof fn law_late_frames_are_counted(latencies: Seq<u64>, millis: u64)
    ensures
        late(latencies, millis) == latencies.filter(|d: u64| d / 1_000_000 > millis).len(),
    decreases latencies.len(),
{
    reveal(Seq::filter);
    if latencies.len() > 0 {
        law_late_frames_are_counted(latencies.drop_last(), millis);
    }
}

/// A buffer has the size that is given, and without one what its rate sends in its time: as many
/// bytes as make up the bits, a million of them per megabit and second.
pub proof fn law_buffer_holds_its_time(explicit: u64, millis: u64, rate_mbps: u64, r: u64)
    requires
        explicit == 0 ==> millis * rate_mbps * 1_000_000 <= u64::MAX,
        call_ensures(queue_bytes, (explicit, millis, rate_mbps), r),
    ensures
        explicit != 0 ==> r == explicit,
        explicit == 0 ==> 8 * r * 1000 == millis * rate_mbps * 1_000_000,
{
}

/// A frame is on time or it is missed: those that came within the limit, in whole milliseconds, and
/// those that missed it are all the frames.
pub proof fn law_on_time_or_missed(latencies: &[u64], frames: usize, millis: u64, r: usize)
    requires
        latencies@.len() <= frames,
        call_ensures(missed, (latencies, frames, millis), r),
    ensures
        r + latencies@.filter(|d: u64| d / 1_000_000 <= millis).len() == frames,
{
    lemma_on_time(latencies@, millis);
}

proof fn lemma_on_time(latencies: Seq<u64>, millis: u64)
    ensures
        late(latencies, millis) + latencies.filter(|d: u64| d / 1_000_000 <= millis).len()
            == latencies.len(),
    decreases latencies.len(),
{
    reveal(Seq::filter);
    if latencies.len() > 0 {
        lemma_on_time(latencies.drop_last(), millis);
    }
}

/// The packets counted for a frame hold it: behind a four-byte length in packets of 1176 bytes, or
/// in packets of 1160 bytes. One packet fewer would not do for the former, nor for the latter where
/// the frame has at most 60000 bytes.
pub proof fn law_counted_packets_hold_the_frame(frame: u64, kcp: bool, r: u64)
    requires
        kcp ==> frame + 4 <= u64::MAX,
        call_ensures(frame_packets, (frame, kcp), r),
    ensures
        r >= 1,
        kcp && frame >= 8 ==> 1176 * (r - 1) < frame + 4 <= 1176 * r,
        !kcp && frame >= 8 ==> frame <= 1160 * r,
        !kcp && 8 <= frame <= 60000 ==> 1160 * (r - 1) < frame,
{
    lemma_packets_hold(if frame < 8 {
        8
    } else {
        frame as int
    });
}

proof fn lemma_packets_hold(len: int)
    requires
        len > 0,
    ensures
        len <= 1160 * sctp_packets(len),
    decreases len,
{
    if len > SCTP_MESSAGE {
        lemma_packets_hold(len - SCTP_MESSAGE);
    }
}

/// The gap follows the last frame of each burst and no other: frame `j` of burst `k` is followed by
/// the interval, and by the gap as well if it is the last of the burst. Without bursts there is no
/// gap.
pub proof fn law_gap_follows_the_last_of_a_burst(w: Workload, i: usize, k: nat, j: nat)
    ensures
        w.gap_every == 0 ==> w.pause(i) == w.interval,
        j < w.gap_every && i == k * w.gap_every + j ==> w.pause(i) == w.interval + if j + 1
            == w.gap_every {
            w.gap as int
        } else {
            0
        },
{
    if j < w.gap_every && i == k * w.gap_every + j {
        let n = w.gap_every as int;
        assert(i + 1 == n * k + (j + 1)) by (nonlinear_arith)
            requires
                i == k * n + j,
        ;
        lemma_mod_multiples_vanish(k as int, j as int + 1, n);
        if j + 1 < n {
            lemma_small_mod(j + 1, n as nat);
        } else {
            lemma_mod_self_0(n);
        }
    }
}

} // verus!

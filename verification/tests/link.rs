use rand::rngs::StdRng;
use rand::SeedableRng;
use rtcnet::arrivals::{walk, walk_step, PathTrace, Schedule};
use rtcnet::link::{Impairment, Link, Packet, TailDrop};
use rtcnet::workload::{frame_packets, missed, queue_bytes, Workload};

const MS: u64 = 1_000_000;

fn clean() -> Impairment {
    Impairment {
        delay: 35 * MS,
        loss: 0,
        burst: 0,
        jitter: 0,
        jitter_iid: false,
        reorder: 0,
        reorder_by: 10 * MS,
        queue_bytes: 0,
        spike_every: 0,
        spike_len: 0,
        dip_every: 0,
        dip_len: 0,
    }
}

fn packet(sent: u64) -> Packet {
    Packet {
        sent,
        wire: 1000,
        tx: MS,
        dip_tx: 10 * MS,
        impaired: true,
    }
}

fn rng() -> StdRng {
    StdRng::seed_from_u64(1)
}

#[test]
fn packets_queue_behind_each_other() {
    let mut link = Link::new(clean(), 0);
    assert_eq!(link.offer(packet(5 * MS), 0), Some(6 * MS));
    assert_eq!(link.offer(packet(5 * MS), 0), Some(7 * MS));
    assert_eq!(link.offer(packet(20 * MS), 0), Some(21 * MS));
    assert_eq!(link.stats.pkts, 3);
    assert_eq!(link.stats.offered, 3000);
    assert_eq!(link.stats.bytes, 3000);
}

#[test]
fn a_stall_holds_packets_back() {
    let mut im = clean();
    im.spike_every = 100 * MS;
    im.spike_len = 20 * MS;
    let mut link = Link::new(im, 0);
    assert_eq!(link.offer(packet(205 * MS), 0), Some(221 * MS));
    assert_eq!(link.offer(packet(230 * MS), 0), Some(231 * MS));
    let mut calm = packet(305 * MS);
    calm.impaired = false;
    assert_eq!(link.offer(calm, 0), Some(306 * MS));
}

#[test]
fn a_stall_is_measured_in_microseconds() {
    let mut im = clean();
    im.spike_every = 100 * MS;
    im.spike_len = 20 * MS;
    let mut link = Link::new(im, 0);
    assert_eq!(link.offer(packet(205 * MS + 999), 0), Some(221 * MS + 999));
}

#[test]
fn a_dip_slows_the_link_down() {
    let mut im = clean();
    im.dip_every = 100 * MS;
    im.dip_len = 20 * MS;
    let mut link = Link::new(im, 0);
    assert_eq!(link.offer(packet(205 * MS), 0), Some(215 * MS));
    assert_eq!(link.offer(packet(230 * MS), 0), Some(231 * MS));
    // Before the epoch the path is at its beginning.
    let mut link = Link::new(im, 0);
    assert_eq!(link.offer(packet(230 * MS), 300 * MS), Some(240 * MS));
}

#[test]
fn a_full_buffer_turns_packets_away() {
    let mut im = clean();
    im.queue_bytes = 2500;
    let mut link = Link::new(im, 0);
    assert!(link.offer(packet(0), 0).is_some());
    assert!(link.offer(packet(0), 0).is_some());
    assert_eq!(link.offer(packet(0), 0), None);
    assert_eq!(link.stats.dropped, 1);
    assert_eq!(link.stats.drop_bytes, 1000);
    assert_eq!(link.stats.offered, link.stats.bytes + link.stats.drop_bytes);
    // The first has departed at its departure time, and makes room.
    assert_eq!(link.offer(packet(MS), 0), Some(3 * MS));
    assert_eq!(link.stats.offered, link.stats.bytes + link.stats.drop_bytes);
    assert_eq!(link.stats.bytes, 3000);
}

#[test]
fn losses_follow_the_draw_or_the_path() {
    let mut im = clean();
    im.loss = 30;
    let mut link = Link::new(im, 0);
    assert!(!link.survive(true, 29, false));
    assert!(link.survive(true, 30, true));
    assert!(link.survive(false, 0, false));
    assert_eq!(link.stats.dropped, 1);
    im.burst = 5 * MS;
    let mut link = Link::new(im, 0);
    assert!(link.survive(true, 0, false));
    assert!(!link.survive(true, 99, true));
}

#[test]
fn a_forced_drop_lets_some_pass_first() {
    let mut link = Link::new(clean(), 0);
    link.tail = TailDrop { skip: 2, next: 3 };
    let fates: Vec<bool> = (0..7).map(|_| link.survive(true, 99, false)).collect();
    assert_eq!(fates, [true, true, false, false, false, true, true]);
    assert_eq!(link.tail, TailDrop { skip: 0, next: 0 });
}

#[test]
fn arrivals_keep_their_order_where_the_path_does() {
    let mut im = clean();
    im.jitter = 8 * MS;
    let mut link = Link::new(im, 0);
    assert_eq!(link.arrive(MS, true, 5000, 0), 41 * MS);
    assert_eq!(link.arrive(2 * MS, true, 0, 0), 41 * MS);
    assert_eq!(link.arrive(9 * MS, true, 0, 0), 44 * MS);
    im.jitter_iid = true;
    let mut link = Link::new(im, 0);
    assert_eq!(link.arrive(MS, true, 5000, 0), 41 * MS);
    assert_eq!(link.arrive(2 * MS, true, 0, 0), 37 * MS);
}

#[test]
fn reordered_packets_come_early_but_not_before_they_left() {
    let mut im = clean();
    im.reorder = 500;
    let mut link = Link::new(im, 0);
    assert_eq!(link.arrive(MS, true, 0, 499), 26 * MS);
    assert_eq!(link.arrive(MS, true, 0, 500), 36 * MS);
    assert_eq!(link.arrive(MS, false, 0, 0), 36 * MS);
    im.reorder_by = 100 * MS;
    let mut link = Link::new(im, 0);
    assert_eq!(link.arrive(MS, true, 0, 0), MS);
}

#[test]
fn a_clean_link_carries_everything() {
    let mut link = Link::new(clean(), 0);
    let mut rng = rng();
    for i in 0..50 {
        let at = link.carry(&mut rng, packet(i * 10 * MS), 0, 0, false);
        assert_eq!(at, Some(i * 10 * MS + 36 * MS));
    }
    assert_eq!(link.stats.dropped, 0);
}

#[test]
fn draws_lose_about_their_share() {
    let mut im = clean();
    im.loss = 30;
    let mut link = Link::new(im, 0);
    let mut rng = rng();
    let lost = (0..1000)
        .filter(|i| {
            link.carry(&mut rng, packet(i * 10 * MS), 0, 0, false)
                .is_none()
        })
        .count();
    assert!((200..400).contains(&lost));
    assert_eq!(link.stats.dropped, lost as u64);
}

#[test]
fn independent_jitter_stays_within_its_bound() {
    let mut im = clean();
    im.jitter = 8 * MS;
    im.jitter_iid = true;
    let mut link = Link::new(im, 0);
    let mut rng = rng();
    let late: Vec<u64> = (0..200)
        .map(|i| {
            let sent = i * 10 * MS;
            link.carry(&mut rng, packet(sent), 0, 0, false).unwrap() - sent - 36 * MS
        })
        .collect();
    assert!(late.iter().all(|d| *d <= 8 * MS));
    assert!(late.iter().any(|d| *d != late[0]));
}

#[test]
fn the_earliest_packet_arrives_first() {
    let mut schedule = Schedule::new();
    assert_eq!(schedule.next_at(), None);
    for (at, tag) in [(30, 1), (10, 2), (20, 3), (10, 4), (40, 5)] {
        schedule.push(at, vec![tag]);
    }
    assert_eq!(schedule.next_at(), Some(10));
    assert_eq!(schedule.next_seq(), 5);
    let mut order = vec![];
    while let Some(s) = schedule.pop() {
        order.push((s.at, s.bytes[0]));
    }
    assert_eq!(order, [(10, 2), (10, 4), (20, 3), (30, 1), (40, 5)]);
    assert!(schedule.pop().is_none());
}

#[test]
fn the_path_stays_at_its_last_tick() {
    let mut trace = PathTrace::new();
    trace.push(5, false);
    trace.push(7, true);
    assert_eq!(trace.at(0), (5, false));
    assert_eq!(trace.at(1), (7, true));
    assert_eq!(trace.at(1000), (7, true));
}

#[test]
fn jitter_walks_within_its_bounds() {
    assert_eq!(walk_step(1000), 50);
    assert_eq!(walk_step(19), 1);
    assert_eq!(walk_step(0), 1);
    assert_eq!(walk(5, -7, 10), 0);
    assert_eq!(walk(5, 7, 10), 10);
    assert_eq!(walk(5, 2, 10), 7);
}

#[test]
fn frames_take_their_packets() {
    assert_eq!(frame_packets(12000, false), 11);
    assert_eq!(frame_packets(12000, true), 11);
    assert_eq!(frame_packets(0, false), 1);
    assert_eq!(frame_packets(1160, false), 1);
    assert_eq!(frame_packets(1161, false), 2);
    assert_eq!(frame_packets(1172, true), 1);
    assert_eq!(frame_packets(1173, true), 2);
    assert_eq!(frame_packets(60000, false), 52);
    assert_eq!(frame_packets(60001, false), 53);
    assert_eq!(frame_packets(120000, false), 104);
}

#[test]
fn the_tail_of_each_burst_is_dropped() {
    let w = Workload {
        frame_packets: 11,
        interval: 33 * MS,
        gap_every: 10,
        gap: 500 * MS,
        tail_drop: 15,
    };
    for i in 0..20 {
        let (next, arm) = w.step(i, 0);
        let pause = if i % 10 == 9 { 533 } else { 33 };
        assert_eq!(next, pause * MS);
        if i % 10 == 8 {
            assert_eq!(arm, Some(TailDrop { skip: 7, next: 15 }));
        } else {
            assert_eq!(arm, None);
        }
    }
}

#[test]
fn a_whole_burst_can_be_dropped() {
    let w = Workload {
        frame_packets: 3,
        interval: MS,
        gap_every: 4,
        gap: 0,
        tail_drop: 12,
    };
    assert_eq!(w.step(4, 7), (MS + 7, Some(TailDrop { skip: 0, next: 12 })));
    assert_eq!(w.step(5, 7).1, None);
}

#[test]
fn without_bursts_there_is_no_tail() {
    let w = Workload {
        frame_packets: 3,
        interval: MS,
        gap_every: 0,
        gap: 9 * MS,
        tail_drop: 12,
    };
    assert_eq!(w.step(0, 0), (MS, None));
}

#[test]
fn buffers_are_sized_in_bytes_or_in_time() {
    assert_eq!(queue_bytes(5000, 100, 30), 5000);
    assert_eq!(queue_bytes(5000, u64::MAX, u64::MAX), 5000);
    assert_eq!(queue_bytes(0, 100, 30), 375_000);
    assert_eq!(queue_bytes(0, 0, 30), 0);
}

#[test]
fn undelivered_frames_are_missed() {
    let latencies = [100 * MS, 101 * MS, 100 * MS + 999_999, 600 * MS];
    assert_eq!(missed(&latencies, 4, 100), 2);
    assert_eq!(missed(&latencies, 6, 100), 4);
    assert_eq!(missed(&latencies, 4, 600), 0);
    assert_eq!(missed(&[], 3, 0), 3);
}

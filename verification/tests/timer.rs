use rtcnet::rto::{
    calculate_next_timeout, RtoManager, NO_MAX_RETRANS, RTO_INITIAL, RTO_MAX, RTO_MIN,
    RTO_MIN_NO_CC,
};
use rtcnet::rtx_timer::{RtxAction, RtxEvent, RtxTimer, RtxTimerId};

const EXPIRED: RtxEvent = RtxEvent::Expired {
    observer_alive: true,
};

#[test]
fn a_new_manager_starts_at_the_initial_timeout() {
    for m in [RtoManager::new(), RtoManager::new_no_congestion_control()] {
        assert_eq!(m.get_rto(), RTO_INITIAL);
        assert_eq!(m.srtt, 0);
        assert!(!m.no_update);
    }
    assert_eq!(RTO_INITIAL, 500);
    assert_eq!(RTO_MIN, 400);
    assert_eq!(RTO_MAX, 60000);
}

#[test]
fn the_first_measurement_is_taken_whole() {
    let mut m = RtoManager::new();
    assert_eq!(m.set_new_rtt(600, 1200), 600);
    assert_eq!(m.get_rto(), 1800);
}

#[test]
fn later_measurements_are_smoothed() {
    let mut m = RtoManager::new();
    m.set_new_rtt(600, 1200);
    assert_eq!(m.deviation(700), 100);
    assert_eq!(m.deviation(500), 100);
    assert_eq!(m.set_new_rtt(500, 800), 587);
    assert_eq!(m.get_rto(), 1387);
}

#[test]
fn the_timeout_keeps_its_bounds() {
    let mut m = RtoManager::new();
    m.set_new_rtt(10, 0);
    assert_eq!(m.get_rto(), RTO_MIN);
    m.set_new_rtt(70000, 100000);
    assert_eq!(m.get_rto(), RTO_MAX);
    let mut m = RtoManager::new_no_congestion_control();
    m.set_new_rtt(1, 0);
    assert_eq!(m.get_rto(), RTO_MIN_NO_CC);
}

#[test]
fn a_quiet_link_still_leaves_a_margin() {
    let mut m = RtoManager::new();
    m.set_new_rtt(1000, 4);
    assert_eq!(m.get_rto(), 1110);
    let mut m = RtoManager::new_no_congestion_control();
    m.set_new_rtt(1000, 4);
    assert_eq!(m.get_rto(), 1025);
}

#[test]
fn a_reset_forgets_what_was_measured() {
    let mut m = RtoManager::new();
    m.set_new_rtt(600, 1200);
    m.reset();
    assert_eq!(m, RtoManager::new());
    assert_eq!(m.set_new_rtt(800, 0), 800);
}

#[test]
fn a_frozen_manager_keeps_its_values() {
    let mut m = RtoManager::new();
    m.set_new_rtt(600, 1200);
    m.set_rto(50, true);
    assert_eq!(m.get_rto(), 50);
    assert_eq!(m.set_new_rtt(9000, 9000), 600);
    m.reset();
    assert_eq!(m.get_rto(), 50);
    assert_eq!(m.srtt, 600);
}

#[test]
fn the_deviation_reads_both_as_signed() {
    let mut m = RtoManager::new();
    m.srtt = u64::MAX;
    assert_eq!(m.deviation(2), 3);
    m.srtt = 2;
    assert_eq!(m.deviation(u64::MAX), 3);
}

#[test]
fn the_timeout_doubles_up_to_its_bound() {
    let want = [1000, 2000, 4000, 8000, 16000, 32000, 60000, 60000];
    for (n, rto) in want.iter().enumerate() {
        assert_eq!(calculate_next_timeout(1000, n), *rto);
    }
    assert_eq!(calculate_next_timeout(1000, 30), RTO_MAX);
    assert_eq!(calculate_next_timeout(1000, 31), RTO_MAX);
    assert_eq!(calculate_next_timeout(1, usize::MAX), RTO_MAX);
    assert_eq!(calculate_next_timeout(70000, 0), RTO_MAX);
    assert_eq!(calculate_next_timeout(0x3_ffff_ffff, 30), RTO_MAX);
    assert_eq!(calculate_next_timeout(0x4_0000_0000, 30), 0);
    assert_eq!(calculate_next_timeout(0, 30), 0);
    assert_eq!(calculate_next_timeout(0, 31), RTO_MAX);
}

#[test]
fn bits_past_the_last_are_lost_in_doubling() {
    assert_eq!(calculate_next_timeout(0x8000_0000_0000_0001, 1), 2);
    assert_eq!(calculate_next_timeout(1 << 40, 24), 0);
    assert_eq!(calculate_next_timeout(0x8000_0000_0000_0001, 0), RTO_MAX);
}

#[test]
fn a_run_fails_after_its_last_retransmission() {
    let mut timer = RtxTimer::new(RtxTimerId::T1Init, 2);
    let mut run = timer.start(1000).unwrap();
    assert_eq!(run.interval(), 1000);
    for n in 1..=2 {
        let action = run.step(EXPIRED);
        let id = RtxTimerId::T1Init;
        assert_eq!(action, RtxAction::Timeout { id, n });
        assert!(timer.acted(action));
        assert_eq!(run.interval(), 1000 << n);
    }
    let action = run.step(EXPIRED);
    let id = RtxTimerId::T1Init;
    assert_eq!(action, RtxAction::Failure { id });
    assert!(timer.is_running());
    assert!(!timer.acted(action));
    assert!(!timer.is_running());
    assert!(timer.start(1000).is_some());
}

#[test]
fn without_a_maximum_a_run_never_fails() {
    let mut timer = RtxTimer::new(RtxTimerId::T3RTX, NO_MAX_RETRANS);
    let mut run = timer.start(30).unwrap();
    for n in 1..=100 {
        let action = run.step(EXPIRED);
        let id = RtxTimerId::T3RTX;
        assert_eq!(action, RtxAction::Timeout { id, n });
        assert!(timer.acted(action));
    }
    assert_eq!(run.interval(), RTO_MAX);
}

#[test]
fn a_running_timer_is_not_started_again() {
    let mut timer = RtxTimer::new(RtxTimerId::T2Shutdown, 5);
    assert!(!timer.is_running());
    assert!(timer.start(100).is_some());
    assert!(timer.is_running());
    assert!(timer.start(200).is_none());
    assert!(timer.is_running());
    timer.stop();
    assert!(!timer.is_running());
    let run = timer.start(200).unwrap();
    assert_eq!(run.interval(), 200);
}

#[test]
fn a_stopped_run_ends() {
    let mut timer = RtxTimer::new(RtxTimerId::T1Cookie, 5);
    let mut run = timer.start(100).unwrap();
    timer.stop();
    let action = run.step(RtxEvent::Closed);
    assert_eq!(action, RtxAction::Close);
    assert!(!timer.acted(action));
}

// A run that was stopped may end after the timer was started again, which it must not clear.
#[test]
fn a_late_close_leaves_the_next_run_alone() {
    let mut timer = RtxTimer::new(RtxTimerId::T1Cookie, 5);
    let mut old = timer.start(100).unwrap();
    timer.stop();
    timer.start(100).unwrap();
    let action = old.step(RtxEvent::Closed);
    assert!(!timer.acted(action));
    assert!(timer.is_running());
}

#[test]
fn a_run_without_its_observer_is_abandoned() {
    let mut timer = RtxTimer::new(RtxTimerId::T3RTX, 0);
    let mut run = timer.start(100).unwrap();
    let action = run.step(RtxEvent::Expired {
        observer_alive: false,
    });
    assert_eq!(action, RtxAction::Abandon);
    assert!(!timer.acted(action));
    assert!(!timer.is_running());
}

use rtcnet::association::{
    at, create_association_internal, create_client_association_internal, inflight_10_to_16,
    lost_10_to_14, marked_10_to_12, miss_indicator, queue_messages, resent,
    selective_ack, total_data_len, tsn_before, ChunkPayloadData, Config, GapAckBlock, SendClock,
};

#[test]
fn the_message_size_has_a_default() {
    assert_eq!(create_client_association_internal().max_message_size, 65536);
    assert_eq!(create_client_association_internal().name, "client");
    let a = create_association_internal(Config {
        max_message_size: 30000,
        name: "server".to_owned(),
    });
    assert_eq!(a.max_message_size, 30000);
    assert_eq!(a.name, "server");
}

#[test]
fn send_times_lie_a_millisecond_apart_in_the_past() {
    let mut clock = SendClock::new();
    let now = 500_000;
    assert_eq!(at(&mut clock, now, 0), 499_000);
    assert_eq!(clock.epoch, Some(499_000));
    assert_eq!(at(&mut clock, now, 17), 499_017);
    assert!(at(&mut clock, now, 999) < u128::from(now));
    assert_eq!(at(&mut clock, now, 1000), u128::from(now));
}

#[test]
fn the_beginning_is_fixed_by_the_first_call() {
    let mut clock = SendClock::new();
    let first = at(&mut clock, 500_000, 3);
    assert_eq!(at(&mut clock, 900_000, 3), first);
    assert_eq!(at(&mut clock, 0, 5), first + 2);
    assert_eq!(at(&mut clock, 0, u64::MAX) - first, u128::from(u64::MAX - 3));
}

#[test]
fn seven_chunks_are_in_flight() {
    let mut a = create_client_association_internal();
    let mut clock = SendClock::new();
    inflight_10_to_16(&mut a, &mut clock, 2000);
    assert_eq!(a.cumulative_tsn_ack_point, 9);
    assert_eq!(a.my_next_tsn, 17);
    assert_eq!(a.send_seq, 17);
    for tsn in 10..=16 {
        let c = a.inflight_queue.get(tsn).unwrap();
        assert_eq!(c.tsn, tsn);
        assert_eq!(c.user_data, vec![0u8; 100]);
        assert_eq!(c.nsent, 1);
        assert_eq!(c.sent_seq, u64::from(tsn));
        assert_eq!(c.sent_at, 1000 + u128::from(tsn));
    }
    assert!(a.inflight_queue.get(9).is_none());
    assert!(a.inflight_queue.get(17).is_none());
}

#[test]
fn a_resend_is_a_later_transmission() {
    let mut a = create_client_association_internal();
    let mut clock = SendClock::new();
    inflight_10_to_16(&mut a, &mut clock, 2000);
    resent(&mut a, 10, 17, &mut clock, 7000);
    let c = a.inflight_queue.get(10).unwrap();
    assert_eq!((c.tsn, c.nsent, c.sent_seq, c.sent_at), (10, 2, 17, 1017));
    assert_eq!(c.user_data.len(), 100);
    let c = a.inflight_queue.get(11).unwrap();
    assert_eq!((c.nsent, c.sent_seq, c.sent_at), (1, 11, 1011));
    resent(&mut a, 99, 18, &mut clock, 7000);
    assert!(a.inflight_queue.get(99).is_none());
    assert_eq!(miss_indicator(&a, 10), Some(0));
    assert_eq!(miss_indicator(&a, 99), None);
}

#[test]
fn lost_chunks_show_their_evidence() {
    let mut clock = SendClock::new();
    let mut a = create_client_association_internal();
    lost_10_to_14(&mut a);
    assert_eq!(a.cumulative_tsn_ack_point, 9);
    for tsn in 10..=14 {
        assert_eq!(miss_indicator(&a, tsn), Some(3));
        assert_eq!(a.inflight_queue.get(tsn).unwrap().user_data.len(), 1000);
    }
    assert_eq!(miss_indicator(&a, 15), None);
    resent(&mut a, 99, 1, &mut clock, 0);
    assert_eq!(clock.epoch, None);
    resent(&mut a, 12, 1, &mut clock, 1000);
    assert_eq!(clock.epoch, Some(0));
    assert_eq!(miss_indicator(&a, 12), Some(3));
}

#[test]
fn marked_chunks_wait_for_retransmission() {
    let mut a = create_client_association_internal();
    a.rwnd = 5;
    marked_10_to_12(&mut a);
    assert_eq!(a.rwnd, 0);
    for tsn in 10..=12u32 {
        let c = a.inflight_queue.get(tsn).unwrap();
        assert!(c.retransmit && c.beginning_fragment && c.ending_fragment);
        assert_eq!(c.stream_identifier, 1);
        assert_eq!(u32::from(c.stream_sequence_number), tsn - 10);
        assert_eq!(c.nsent, 1);
    }
    assert!(a.inflight_queue.get(13).is_none());
}

#[test]
fn messages_are_queued_in_order() {
    let mut a = create_client_association_internal();
    queue_messages(&mut a, 40, 1000);
    assert_eq!(a.pending_queue.len(), 40);
    assert_eq!(total_data_len(&a.pending_queue), 40_000);
    for (i, c) in a.pending_queue.iter().enumerate() {
        assert_eq!(usize::from(c.stream_sequence_number), i);
        assert_eq!(c.nsent, 0);
    }
    queue_messages(&mut a, 1, 3);
    assert_eq!(a.pending_queue[40].stream_sequence_number, 0);
    assert_eq!(total_data_len(&a.pending_queue), 40_003);
    assert_eq!(total_data_len(&[]), 0);
}

#[test]
fn stream_sequence_numbers_wrap() {
    let mut a = create_client_association_internal();
    queue_messages(&mut a, 65538, 0);
    assert_eq!(a.pending_queue[65535].stream_sequence_number, 65535);
    assert_eq!(a.pending_queue[65537].stream_sequence_number, 1);
}

#[test]
fn a_chunk_replaces_the_one_with_its_tsn() {
    let mut a = create_client_association_internal();
    a.inflight_queue.push_no_check(ChunkPayloadData::new(10, 1));
    a.inflight_queue.push_no_check(ChunkPayloadData::new(10, 2));
    assert_eq!(a.inflight_queue.get(10).unwrap().user_data.len(), 2);
}

#[test]
fn a_sack_carries_gaps_and_duplicates() {
    let mut a = create_client_association_internal();
    a.rwnd = 77;
    let d = selective_ack(&a, 9, &[(2, 3), (5, 6)], &[11, 12]);
    assert_eq!(d.cumulative_tsn_ack, 9);
    assert_eq!(d.advertised_receiver_window_credit, 77);
    assert_eq!(
        d.gap_ack_blocks,
        [GapAckBlock { start: 2, end: 3 }, GapAckBlock { start: 5, end: 6 }]
    );
    assert_eq!(d.duplicate_tsn, [11, 12]);
}

#[test]
fn the_tsn_before_the_first_wraps() {
    assert_eq!(tsn_before(1234), 1233);
    assert_eq!(tsn_before(1), 0);
    assert_eq!(tsn_before(0), u32::MAX);
}

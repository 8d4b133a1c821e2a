use udp_bench::bench::{Bench, ConfigError, ReplyOutcome, Row, SendAction};
use udp_bench::stats::Summary;
use udp_bench::wire::{decode_id, encode_id};

fn payload_of(action: SendAction) -> (u32, [u8; 4]) {
    match action {
        SendAction::Transmit { id, payload } => (id, payload),
        other => panic!("expected a transmission, got {:?}", other),
    }
}

#[test]
fn zero_capacity_is_rejected() {
    assert!(matches!(Bench::new(10, 0), Err(ConfigError::ZeroCapacity)));
    assert!(Bench::new(0, 1).is_ok());
}

#[test]
fn all_replies_arrive() {
    let mut b = Bench::new(10, 10).unwrap();
    let mut sent = Vec::new();
    for k in 0..10u64 {
        let (id, payload) = payload_of(b.try_send(100 + k));
        assert_eq!(id as u64, k);
        sent.push(payload);
    }
    assert!(matches!(b.try_send(200), SendAction::Done));
    for (k, payload) in sent.iter().enumerate() {
        let out = b.on_reply(*payload, 1000 + k as u64);
        assert_eq!(out, ReplyOutcome::Matched { id: k as u32, rtt: 900 });
    }
    b.finish();
    let stats = b.statistics();
    assert_eq!(stats.received_count, 10);
    assert_eq!(stats.loss, 0);
    let rows = b.report();
    assert_eq!(rows.len(), 10);
    for (k, row) in rows.iter().enumerate() {
        assert_eq!(row.id as usize, k);
        assert!(row.rtt.unwrap() > 0);
    }
    let s = stats.summary.unwrap();
    assert_eq!(s.count, 10);
    assert_eq!(s.sum, 9000);
    assert_eq!(s.min, 900);
    assert_eq!(s.max, 900);
}

#[test]
fn no_reply_arrives() {
    let mut b = Bench::new(10, 10).unwrap();
    for _ in 0..10 {
        payload_of(b.try_send(5));
    }
    assert_eq!(b.outstanding(), 10);
    b.finish();
    let stats = b.statistics();
    assert_eq!(stats.received_count, 0);
    assert_eq!(stats.loss, 10);
    assert_eq!(stats.summary, None);
    let rows = b.report();
    assert_eq!(rows.len(), 10);
    for (k, row) in rows.iter().enumerate() {
        assert_eq!(*row, Row { id: k as u32, sent_at: Some(5), received_at: None, rtt: None });
    }
}

#[test]
fn single_slot_admits_one_at_a_time() {
    let mut b = Bench::new(5, 1).unwrap();
    for k in 0..5u32 {
        let (id, payload) = payload_of(b.try_send(10 * k as u64));
        assert_eq!(id, k);
        assert_eq!(b.outstanding(), 1);
        if k < 4 {
            assert!(matches!(b.try_send(10 * k as u64 + 1), SendAction::Blocked));
            assert!(matches!(b.try_send(10 * k as u64 + 2), SendAction::Blocked));
        } else {
            assert!(matches!(b.try_send(10 * k as u64 + 1), SendAction::Done));
        }
        assert_eq!(b.sent_count(), k + 1);
        let out = b.on_reply(payload, 10 * k as u64 + 3);
        assert_eq!(out, ReplyOutcome::Matched { id: k, rtt: 3 });
        assert_eq!(b.outstanding(), 0);
    }
    assert!(matches!(b.try_send(100), SendAction::Done));
    assert_eq!(b.statistics().received_count, 5);
}

#[test]
fn duplicate_reply_has_no_effect() {
    let mut b = Bench::new(3, 2).unwrap();
    let (_, p0) = payload_of(b.try_send(1));
    payload_of(b.try_send(2));
    assert_eq!(b.on_reply(p0, 11), ReplyOutcome::Matched { id: 0, rtt: 10 });
    let before = b.entry(0);
    assert_eq!(b.on_reply(p0, 50), ReplyOutcome::Duplicate { id: 0 });
    assert_eq!(b.entry(0), before);
    assert_eq!(b.outstanding(), 1);
    assert_eq!(b.received_count(), 1);
}

#[test]
fn unknown_id_is_ignored() {
    let mut b = Bench::new(3, 2).unwrap();
    payload_of(b.try_send(1));
    assert_eq!(b.on_reply(encode_id(7), 9), ReplyOutcome::Unknown { id: 7 });
    assert_eq!(b.on_reply(encode_id(1), 9), ReplyOutcome::Unknown { id: 1 });
    assert_eq!(b.outstanding(), 1);
    assert_eq!(b.received_count(), 0);
}

#[test]
fn reply_after_shutdown_is_ignored() {
    let mut b = Bench::new(2, 2).unwrap();
    let (_, p0) = payload_of(b.try_send(1));
    b.finish();
    assert!(b.is_finished());
    assert_eq!(b.on_reply(p0, 9), ReplyOutcome::AfterShutdown);
    assert!(matches!(b.try_send(10), SendAction::Done));
    assert_eq!(b.received_count(), 0);
    assert_eq!(b.statistics().loss, 2);
}

#[test]
fn reply_no_later_than_send_is_flagged() {
    let mut b = Bench::new(1, 1).unwrap();
    let (_, p0) = payload_of(b.try_send(40));
    assert_eq!(b.on_reply(p0, 40), ReplyOutcome::NonPositiveRtt { id: 0 });
    assert_eq!(b.outstanding(), 0);
    assert_eq!(b.received_count(), 0);
    assert_eq!(b.report()[0].rtt, None);
    assert_eq!(b.on_reply(p0, 50), ReplyOutcome::Duplicate { id: 0 });
}

#[test]
fn unsent_ids_still_have_rows() {
    let mut b = Bench::new(4, 1).unwrap();
    let (_, p0) = payload_of(b.try_send(3));
    b.on_reply(p0, 10);
    b.finish();
    let rows = b.report();
    assert_eq!(rows.len(), 4);
    assert_eq!(rows[0], Row { id: 0, sent_at: Some(3), received_at: Some(10), rtt: Some(7) });
    for k in 1..4 {
        assert_eq!(rows[k], Row { id: k as u32, sent_at: None, received_at: None, rtt: None });
    }
    assert_eq!(b.total(), 4);
    assert_eq!(b.capacity(), 1);
}

#[test]
fn statistics_of_mixed_durations() {
    let mut b = Bench::new(6, 6).unwrap();
    let mut payloads = Vec::new();
    for _ in 0..6 {
        payloads.push(payload_of(b.try_send(0)).1);
    }
    let arrivals = [50u64, 10, 40, 30, 20];
    for (k, t) in arrivals.iter().enumerate() {
        b.on_reply(payloads[k], *t);
    }
    b.finish();
    assert_eq!(b.rtts(), vec![50, 10, 40, 30, 20]);
    let stats = b.statistics();
    assert_eq!(stats.received_count, 5);
    assert_eq!(stats.loss, 1);
    assert_eq!(
        stats.summary,
        Some(Summary { count: 5, sum: 150, min: 10, max: 50, median: 30, q10: 10, q90: 50 })
    );
}

#[test]
fn payload_is_big_endian() {
    assert_eq!(encode_id(0x01020304), [1, 2, 3, 4]);
    assert_eq!(encode_id(9191), [0, 0, 0x23, 0xe7]);
    assert_eq!(decode_id([0xff, 0, 0, 1]), 0xff000001);
    for id in [0u32, 1, 255, 256, 65535, 1_000_000, u32::MAX] {
        assert_eq!(decode_id(encode_id(id)), id);
        assert_eq!(encode_id(id), id.to_be_bytes());
    }
}

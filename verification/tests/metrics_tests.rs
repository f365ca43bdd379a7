use zebra_audit::peer_metrics::{PeerKey, PeerMetrics, ONE_SECOND_NANOS};
use zebra_audit::processing::MessageProcessingMetrics;

fn peer(port: u16) -> PeerKey {
    PeerKey { is_v6: false, ip: 0x7f00_0001, port, flowinfo: 0, scope_id: 0 }
}

#[test]
fn new_tracker_is_empty() {
    let m = PeerMetrics::new();
    let s = m.get_stats();
    assert_eq!((s.total_peers, s.suspicious_peers, s.total_messages, s.total_bytes), (0, 0, 0, 0));
    assert!(!m.should_disconnect(peer(1)));
}

#[test]
fn first_message_is_not_suspicious() {
    let mut m = PeerMetrics::new();
    assert!(!m.record_message(peer(1), "ping", 8, 0));
    assert!(!m.should_disconnect(peer(1)));
    let s = m.get_stats();
    assert_eq!((s.total_peers, s.suspicious_peers, s.total_messages, s.total_bytes), (1, 0, 1, 8));
}

#[test]
fn message_rate_limit_is_flagged_after_100_in_one_second() {
    let mut m = PeerMetrics::new();
    let types = ["ping", "pong", "inv", "addr"];
    for i in 0..100u64 {
        assert!(!m.record_message(peer(1), types[(i % 4) as usize], 10, i));
    }
    assert!(m.record_message(peer(1), "ping", 10, 100));
    assert_eq!(m.get_stats().suspicious_peers, 1);
}

#[test]
fn new_second_resets_the_rate_window() {
    let mut m = PeerMetrics::new();
    let types = ["ping", "pong", "inv", "addr"];
    for i in 0..100u64 {
        m.record_message(peer(1), types[(i % 4) as usize], 10, 0);
    }
    assert!(!m.record_message(peer(1), "pong", 10, ONE_SECOND_NANOS));
}

#[test]
fn byte_rate_limit_is_flagged() {
    let mut m = PeerMetrics::new();
    assert!(!m.record_message(peer(2), "block", 1_000_000, 0));
    assert!(m.record_message(peer(2), "tx", 1, 1));
    assert!(!m.record_message(peer(3), "block", 1_000_000, 0));
}

#[test]
fn repeated_message_type_is_flagged() {
    let mut m = PeerMetrics::new();
    for i in 0..50u64 {
        assert!(!m.record_message(peer(4), "getdata", 1, i * ONE_SECOND_NANOS));
    }
    assert!(m.record_message(peer(4), "getdata", 1, 50 * ONE_SECOND_NANOS));
}

#[test]
fn three_patterns_lead_to_disconnect_and_remove_forgets() {
    let mut m = PeerMetrics::new();
    for i in 0..51u64 {
        m.record_message(peer(5), "getdata", 1, i * ONE_SECOND_NANOS);
    }
    assert!(!m.should_disconnect(peer(5)));
    m.record_message(peer(5), "getdata", 1, 60 * ONE_SECOND_NANOS);
    m.record_message(peer(5), "getdata", 1, 61 * ONE_SECOND_NANOS);
    assert!(m.should_disconnect(peer(5)));
    assert!(!m.should_disconnect(peer(6)));
    m.remove_peer(peer(5));
    assert!(!m.should_disconnect(peer(5)));
    assert_eq!(m.get_stats().total_peers, 0);
}

#[test]
fn stats_sum_over_peers() {
    let mut m = PeerMetrics::new();
    m.record_message(peer(1), "ping", 8, 0);
    m.record_message(peer(2), "pong", 16, 0);
    m.record_message(peer(1), "inv", 37, 5);
    let s = m.get_stats();
    assert_eq!((s.total_peers, s.total_messages, s.total_bytes), (2, 3, 61));
}

#[test]
fn can_record_detects_byte_overflow() {
    let mut m = PeerMetrics::new();
    assert!(m.can_record(peer(1), "tx", usize::MAX, 0));
    m.record_message(peer(1), "tx", usize::MAX, 0);
    assert!(!m.can_record(peer(1), "tx", 1, 1));
    assert!(m.can_record(peer(2), "tx", 1, 1));
}

#[test]
fn processing_p99_of_single_sample() {
    let mut p = MessageProcessingMetrics::new();
    let r = p.record_processing_time("block", 5_000);
    assert_eq!(r.p99_nanos, 5_000);
    assert!(!r.slow);
}

#[test]
fn processing_p99_picks_the_99th_percentile() {
    let mut p = MessageProcessingMetrics::new();
    let mut last = None;
    for i in (1..=200u128).rev() {
        last = Some(p.record_processing_time("tx", i * 1_000_000));
    }
    let r = last.unwrap();
    assert_eq!(r.p99_nanos, 199 * 1_000_000);
    assert!(r.slow);
    let other = p.record_processing_time("ping", 1);
    assert_eq!(other.p99_nanos, 1);
}

#[test]
fn processing_history_is_cut_after_1000() {
    let mut p = MessageProcessingMetrics::new();
    for _ in 0..1000 {
        p.record_processing_time("inv", 200_000_000);
    }
    let r = p.record_processing_time("inv", 1);
    assert_eq!(r.p99_nanos, 200_000_000);
    assert!(r.slow);
    for _ in 0..500 {
        p.record_processing_time("inv", 1);
    }
    let r = p.record_processing_time("inv", 1);
    assert_eq!(r.p99_nanos, 1);
    assert!(!r.slow);
}

#[test]
fn slow_threshold_is_strictly_above_100ms() {
    let mut p = MessageProcessingMetrics::new();
    assert!(!p.record_processing_time("a", 100_000_000).slow);
    let mut q = MessageProcessingMetrics::new();
    assert!(q.record_processing_time("a", 100_000_001).slow);
}

#[test]
fn outcome_reports_which_patterns_fired() {
    let mut m = PeerMetrics::new();
    let o = m.record_message_outcome(peer(3), "block", 2_000_000, 0);
    assert!(o.byte_rate_exceeded);
    assert!(!o.message_rate_exceeded);
    assert!(!o.repeated_type);
    assert_eq!((o.messages_this_second, o.bytes_this_second, o.type_count), (1, 2_000_000, 1));
    let o = m.record_message_outcome(peer(3), "block", 10, 2_000_000_000);
    assert!(!o.byte_rate_exceeded);
    assert_eq!((o.messages_this_second, o.bytes_this_second, o.type_count), (1, 10, 2));
    assert!(m.totals_in_range());
    let s = m.get_stats();
    assert_eq!((s.total_peers, s.suspicious_peers, s.total_messages, s.total_bytes), (1, 1, 2, 2_000_010));
}

#[test]
fn totals_out_of_range_are_detected() {
    let mut m = PeerMetrics::new();
    m.record_message(peer(1), "tx", usize::MAX, 0);
    assert!(m.totals_in_range());
    m.record_message(peer(2), "tx", 1, 0);
    assert!(!m.totals_in_range());
}

#[test]
fn stats_follow_records_and_removals() {
    let mut m = PeerMetrics::new();
    assert!(!m.record_message(peer(1), "ping", 8, 0));
    assert!(m.record_message(peer(2), "block", 2_000_000, 0));
    assert!(m.record_message(peer(2), "block", 10, 1));
    let s = m.get_stats();
    assert_eq!((s.total_peers, s.suspicious_peers, s.total_messages, s.total_bytes), (2, 1, 3, 2_000_018));
    m.remove_peer(peer(2));
    let s = m.get_stats();
    assert_eq!((s.total_peers, s.suspicious_peers, s.total_messages, s.total_bytes), (1, 0, 1, 8));
    m.remove_peer(peer(9));
    let s = m.get_stats();
    assert_eq!((s.total_peers, s.suspicious_peers, s.total_messages, s.total_bytes), (1, 0, 1, 8));
}

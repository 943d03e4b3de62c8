use anchor_desktop::protocol::MAX_DATAGRAM_BYTES;
use anchor_desktop::receiver::{
    should_publish, DecodedDatagram, FixedWindowRateLimiter, ReceiverMetrics, ReceiverSnapshot, ReceiverState,
    ReceiverStatusDto, SampleAcceptance, StreamStatus, MAX_DATAGRAMS_PER_SECOND,
    SESSION_TIMEOUT_US, STALE_AFTER_US,
};

/// The payload carried by the receiver in these tests: the sample's sequence.
type Sample = u32;
type Sender = &'static str;

const NOW: u64 = 5_000_000;

fn ms(value: u64) -> u64 {
    value * 1_000
}

fn apply(
    state: &mut ReceiverState<Sample, Sender>,
    sequence: u32,
    session_id: &str,
    sender: Sender,
    now_us: u64,
) -> SampleAcceptance {
    state.apply_sample(session_id.to_owned(), sequence, sequence, sender, now_us)
}

#[test]
fn first_valid_session_assumes_state() {
    let mut state: ReceiverState<Sample, Sender> = ReceiverState::default();

    let accepted = apply(&mut state, 0, "session-a", "127.0.0.1:41000", NOW);
    let snapshot = state.snapshot(NOW);

    assert!(accepted.was_accepted());
    assert_eq!(snapshot.active_session_id.as_deref(), Some("session-a"));
    assert_eq!(snapshot.last_sequence, Some(0));
    assert_eq!(snapshot.active_sender, Some("127.0.0.1:41000"));
    assert_eq!(snapshot.status, StreamStatus::Active);
}

#[test]
fn increasing_sequence_is_accepted() {
    let mut state: ReceiverState<Sample, Sender> = ReceiverState::default();
    apply(&mut state, 0, "session-a", "127.0.0.1:41000", NOW);

    let accepted = apply(&mut state, 1, "session-a", "127.0.0.1:41000", NOW + ms(10));
    let snapshot = state.snapshot(NOW + ms(10));

    assert!(accepted.was_accepted());
    assert_eq!(snapshot.last_sequence, Some(1));
    assert_eq!(snapshot.metrics.accepted_samples, 2);
}

#[test]
fn repeated_sequence_is_ignored() {
    let mut state: ReceiverState<Sample, Sender> = ReceiverState::default();
    apply(&mut state, 3, "session-a", "127.0.0.1:41000", NOW);

    let accepted = apply(&mut state, 3, "session-a", "127.0.0.1:41000", NOW + ms(1));
    let snapshot = state.snapshot(NOW + ms(1));

    assert!(!accepted.was_accepted());
    assert_eq!(snapshot.last_sequence, Some(3));
    assert_eq!(snapshot.metrics.duplicate_or_out_of_order_packets, 1);
}

#[test]
fn lower_sequence_is_ignored() {
    let mut state: ReceiverState<Sample, Sender> = ReceiverState::default();
    apply(&mut state, 7, "session-a", "127.0.0.1:41000", NOW);

    let accepted = apply(&mut state, 6, "session-a", "127.0.0.1:41000", NOW + ms(1));
    let snapshot = state.snapshot(NOW + ms(1));

    assert!(!accepted.was_accepted());
    assert_eq!(snapshot.last_sequence, Some(7));
    assert_eq!(snapshot.metrics.duplicate_or_out_of_order_packets, 1);
}

#[test]
fn different_session_is_ignored_before_timeout() {
    let mut state: ReceiverState<Sample, Sender> = ReceiverState::default();
    apply(&mut state, 0, "session-a", "127.0.0.1:41000", NOW);

    let accepted = apply(&mut state, 0, "session-b", "127.0.0.1:41001", NOW + ms(500));
    let snapshot = state.snapshot(NOW + ms(500));

    assert!(!accepted.was_accepted());
    assert_eq!(snapshot.active_session_id.as_deref(), Some("session-a"));
    assert_eq!(snapshot.metrics.foreign_session_packets, 1);
}

#[test]
fn different_session_can_take_over_after_timeout() {
    let mut state: ReceiverState<Sample, Sender> = ReceiverState::default();
    apply(&mut state, 0, "session-a", "127.0.0.1:41000", NOW);

    let later = NOW + SESSION_TIMEOUT_US + ms(1);
    let accepted = apply(&mut state, 0, "session-b", "127.0.0.1:41001", later);
    let snapshot = state.snapshot(later);

    assert!(accepted.was_accepted());
    assert_eq!(snapshot.active_session_id.as_deref(), Some("session-b"));
    assert_eq!(snapshot.active_sender, Some("127.0.0.1:41001"));
}

#[test]
fn status_changes_from_active_to_stale() {
    let mut state: ReceiverState<Sample, Sender> = ReceiverState::default();
    apply(&mut state, 0, "session-a", "127.0.0.1:41000", NOW);

    let snapshot = state.snapshot(NOW + STALE_AFTER_US + ms(1));

    assert_eq!(snapshot.status, StreamStatus::Stale);
}

#[test]
fn status_changes_from_stale_to_disconnected() {
    let mut state: ReceiverState<Sample, Sender> = ReceiverState::default();
    apply(&mut state, 0, "session-a", "127.0.0.1:41000", NOW);

    let stale = state.snapshot(NOW + STALE_AFTER_US + ms(1));
    let disconnected = state.snapshot(NOW + SESSION_TIMEOUT_US + ms(1));

    assert_eq!(stale.status, StreamStatus::Stale);
    assert_eq!(disconnected.status, StreamStatus::Disconnected);
    assert!(disconnected.last_sample.is_some());
}

#[test]
fn metrics_are_updated_correctly() {
    let mut state: ReceiverState<Sample, Sender> = ReceiverState::default();

    state.record_received_datagram();
    apply(&mut state, 0, "session-a", "127.0.0.1:41000", NOW);
    state.record_received_datagram();
    apply(&mut state, 0, "session-a", "127.0.0.1:41000", NOW + ms(1));
    state.record_received_datagram();
    apply(&mut state, 0, "session-b", "127.0.0.1:41001", NOW + ms(2));
    state.record_invalid_packet();
    state.record_oversized_datagram();
    state.record_rate_limited_datagram();

    let snapshot = state.snapshot(NOW + ms(2));

    assert_eq!(snapshot.metrics.received_datagrams, 3);
    assert_eq!(snapshot.metrics.accepted_samples, 1);
    assert_eq!(snapshot.metrics.duplicate_or_out_of_order_packets, 1);
    assert_eq!(snapshot.metrics.foreign_session_packets, 1);
    assert_eq!(snapshot.metrics.invalid_packets, 1);
    assert_eq!(snapshot.metrics.oversized_datagrams, 1);
    assert_eq!(snapshot.metrics.rate_limited_datagrams, 1);
}

#[test]
fn snapshot_dto_preserves_status_values() {
    assert_eq!(
        ReceiverStatusDto::from(StreamStatus::Active),
        ReceiverStatusDto::Active
    );
    assert_eq!(
        ReceiverStatusDto::from(StreamStatus::Stale),
        ReceiverStatusDto::Stale
    );
    assert_eq!(
        ReceiverStatusDto::from(StreamStatus::Disconnected),
        ReceiverStatusDto::Disconnected
    );
}

#[test]
fn snapshot_dto_calculates_monotonic_age() {
    let mut state: ReceiverState<Sample, Sender> = ReceiverState::default();
    apply(&mut state, 0, "session-a", "127.0.0.1:41000", NOW);

    let dto = state.snapshot(NOW).to_dto(NOW + ms(333));

    assert_eq!(dto.last_valid_age_ms, Some(333));
}

#[test]
fn snapshot_dto_converts_sender_address_to_string() {
    let mut state: ReceiverState<Sample, Sender> = ReceiverState::default();
    apply(&mut state, 0, "session-a", "127.0.0.1:41042", NOW);

    let dto = state.snapshot(NOW).to_dto(NOW);

    assert_eq!(dto.active_sender, Some("127.0.0.1:41042"));
}

#[test]
fn snapshot_dto_preserves_metrics() {
    let snapshot: ReceiverSnapshot<Sample, Sender> = ReceiverSnapshot {
        last_sample: None,
        active_sender: None,
        active_session_id: None,
        last_sequence: None,
        last_valid_received_at_us: None,
        status: StreamStatus::Disconnected,
        metrics: ReceiverMetrics {
            received_datagrams: 10,
            accepted_samples: 8,
            oversized_datagrams: 1,
            invalid_packets: 2,
            duplicate_or_out_of_order_packets: 3,
            foreign_session_packets: 4,
            rate_limited_datagrams: 5,
        },
    };

    let dto = snapshot.to_dto(NOW);

    assert_eq!(dto.metrics.received_datagrams, 10);
    assert_eq!(dto.metrics.accepted_samples, 8);
    assert_eq!(dto.metrics.oversized_datagrams, 1);
    assert_eq!(dto.metrics.invalid_packets, 2);
    assert_eq!(dto.metrics.duplicate_or_out_of_order_packets, 3);
    assert_eq!(dto.metrics.foreign_session_packets, 4);
    assert_eq!(dto.metrics.rate_limited_datagrams, 5);
}

#[test]
fn rate_limiter_allows_up_to_limit_per_window() {
    let start = NOW;
    let mut limiter = FixedWindowRateLimiter::new(MAX_DATAGRAMS_PER_SECOND, 1_000_000);

    for index in 0..MAX_DATAGRAMS_PER_SECOND {
        assert!(limiter.allow(start + ms(u64::from(index))));
    }
}

#[test]
fn rate_limiter_rejects_excess_packets_and_resets_next_window() {
    let start = NOW;
    let mut limiter = FixedWindowRateLimiter::new(MAX_DATAGRAMS_PER_SECOND, 1_000_000);

    for _ in 0..MAX_DATAGRAMS_PER_SECOND {
        assert!(limiter.allow(start));
    }

    assert!(!limiter.allow(start + ms(999)));
    assert!(limiter.allow(start + 1_000_000 + ms(1)));
}

#[test]
fn rate_limiter_with_zero_limit_refuses_everything() {
    let mut limiter = FixedWindowRateLimiter::new(0, 1_000_000);

    assert!(!limiter.allow(NOW));
    assert!(!limiter.allow(NOW + 2_000_000));
}

#[test]
fn earlier_clock_reading_counts_as_no_time_elapsed() {
    let mut state: ReceiverState<Sample, Sender> = ReceiverState::default();
    apply(&mut state, 0, "session-a", "127.0.0.1:41000", NOW);

    let snapshot = state.snapshot(NOW - ms(10));

    assert_eq!(snapshot.status, StreamStatus::Active);
    assert_eq!(snapshot.to_dto(NOW - ms(10)).last_valid_age_ms, Some(0));
}

#[test]
fn fresh_receiver_is_disconnected_and_takes_the_first_session() {
    let mut state: ReceiverState<Sample, Sender> = ReceiverState::new();

    assert_eq!(state.stream_status(NOW), StreamStatus::Disconnected);
    assert_eq!(
        apply(&mut state, 42, "session-z", "127.0.0.1:1", NOW),
        SampleAcceptance::AcceptedNewSession
    );
    assert_eq!(
        apply(&mut state, 43, "session-z", "127.0.0.1:1", NOW + ms(1)),
        SampleAcceptance::AcceptedInOrder
    );
}

#[test]
fn takeover_is_reported_as_such_and_counted_as_accepted() {
    let mut state: ReceiverState<Sample, Sender> = ReceiverState::default();
    apply(&mut state, 9, "session-a", "127.0.0.1:41000", NOW);

    let acceptance = apply(
        &mut state,
        0,
        "session-b",
        "127.0.0.1:41001",
        NOW + SESSION_TIMEOUT_US + 1,
    );

    assert_eq!(acceptance, SampleAcceptance::AcceptedSessionTakeover);
    assert_eq!(state.metrics().accepted_samples, 2);
    assert_eq!(state.snapshot(NOW + SESSION_TIMEOUT_US + 1).last_sequence, Some(0));
}

#[test]
fn session_at_exactly_the_timeout_is_not_yet_disconnected() {
    let mut state: ReceiverState<Sample, Sender> = ReceiverState::default();
    apply(&mut state, 0, "session-a", "127.0.0.1:41000", NOW);

    assert_eq!(state.stream_status(NOW + STALE_AFTER_US), StreamStatus::Active);
    assert_eq!(state.stream_status(NOW + SESSION_TIMEOUT_US), StreamStatus::Stale);
    assert_eq!(
        apply(&mut state, 0, "session-b", "127.0.0.1:41001", NOW + SESSION_TIMEOUT_US),
        SampleAcceptance::IgnoredDifferentSession
    );
}

#[test]
fn datagrams_are_counted_once_each() {
    let mut state: ReceiverState<Sample, Sender> = ReceiverState::default();
    let mut limiter = FixedWindowRateLimiter::new(2, 1_000_000);

    assert!(state.admit_datagram(&mut limiter, 100, NOW));
    let sample = DecodedDatagram::Sample {
        session_id: "session-a".to_owned(),
        sequence: 1,
        sample: 1,
    };
    assert_eq!(
        state.apply_datagram(sample, "127.0.0.1:5", NOW),
        Some(SampleAcceptance::AcceptedNewSession)
    );
    assert!(!state.admit_datagram(&mut limiter, MAX_DATAGRAM_BYTES + 1, NOW));
    assert!(!state.admit_datagram(&mut limiter, 10, NOW));
    let metrics = state.metrics();
    assert_eq!(metrics.received_datagrams, 3);
    assert_eq!(metrics.accepted_samples, 1);
    assert_eq!(metrics.oversized_datagrams, 1);
    assert_eq!(metrics.rate_limited_datagrams, 1);

    let mut limiter = FixedWindowRateLimiter::new(10, 1_000_000);
    assert!(state.admit_datagram(&mut limiter, MAX_DATAGRAM_BYTES, NOW));
    assert_eq!(state.apply_datagram(DecodedDatagram::Invalid, "127.0.0.1:5", NOW), None);
    assert!(state.admit_datagram(&mut limiter, 5, NOW));
    assert_eq!(state.apply_datagram(DecodedDatagram::TooLarge, "127.0.0.1:5", NOW), None);
    let metrics = state.metrics();
    assert_eq!(metrics.received_datagrams, 5);
    assert_eq!(metrics.invalid_packets, 1);
    assert_eq!(metrics.oversized_datagrams, 2);
    assert_eq!(
        metrics.received_datagrams,
        metrics.rate_limited_datagrams
            + metrics.oversized_datagrams
            + metrics.invalid_packets
            + metrics.accepted_samples
            + metrics.duplicate_or_out_of_order_packets
            + metrics.foreign_session_packets
    );
}

#[test]
fn only_accepted_samples_are_published() {
    let mut state: ReceiverState<Sample, Sender> = ReceiverState::new();
    let session = || "550e8400-e29b-41d4-a716-446655440000".to_owned();
    let first = state.apply_datagram(DecodedDatagram::Sample { session_id: session(), sequence: 3, sample: 3 }, "a", NOW);
    assert_eq!(first, Some(SampleAcceptance::AcceptedNewSession));
    assert!(should_publish(first));
    let duplicate = state.apply_datagram(DecodedDatagram::Sample { session_id: session(), sequence: 3, sample: 3 }, "a", NOW);
    assert_eq!(duplicate, Some(SampleAcceptance::IgnoredDuplicateOrOutOfOrder));
    assert!(!should_publish(duplicate));
    assert!(!should_publish(state.apply_datagram(DecodedDatagram::Invalid, "a", NOW)));
    assert!(!should_publish(state.apply_datagram(DecodedDatagram::TooLarge, "a", NOW)));
}

//! The receiver's session/sequence state machine, stream status, metrics and
//! the fixed-window rate limiter. Times are microseconds of a monotonic clock.

use vstd::prelude::*;
use crate::protocol::MAX_DATAGRAM_BYTES;

verus! {

pub const DEFAULT_RECEIVER_HOST: &'static str = "0.0.0.0";
pub const DEFAULT_RECEIVER_PORT: u16 = 57_421;
pub const EXPECTED_SAMPLE_RATE_HZ: u16 = 60;
pub const MAX_DATAGRAMS_PER_SECOND: u32 = 240;
/// A stream is stale once more than this many microseconds passed without a valid sample.
pub const STALE_AFTER_US: u64 = 250_000;
/// A stream is disconnected (and another session may take over) after this many microseconds.
pub const SESSION_TIMEOUT_US: u64 = 1_000_000;
/// Window of the receiver's datagram rate limiter.
pub const RATE_LIMIT_WINDOW_US: u64 = 1_000_000;

#[derive(Debug, Clone, Copy, PartialEq, Eq, Structural)]
pub enum StreamStatus {
    Active,
    Stale,
    Disconnected,
}

#[derive(Debug, Clone, Copy, PartialEq, Eq, Structural)]
pub enum ReceiverStatusDto {
    Active,
    Stale,
    Disconnected,
}

pub open spec fn status_dto_of(value: StreamStatus) -> ReceiverStatusDto {
    match value {
        StreamStatus::Active => ReceiverStatusDto::Active,
        StreamStatus::Stale => ReceiverStatusDto::Stale,
        StreamStatus::Disconnected => ReceiverStatusDto::Disconnected,
    }
}

impl From<StreamStatus> for ReceiverStatusDto {
    fn from(value: StreamStatus) -> (r: ReceiverStatusDto) {
        match value {
            StreamStatus::Active => ReceiverStatusDto::Active,
            StreamStatus::Stale => ReceiverStatusDto::Stale,
            StreamStatus::Disconnected => ReceiverStatusDto::Disconnected,
        }
    }
}

impl vstd::std_specs::convert::FromSpecImpl<StreamStatus> for ReceiverStatusDto {
    open spec fn obeys_from_spec() -> bool {
        true
    }

    open spec fn from_spec(v: StreamStatus) -> ReceiverStatusDto {
        status_dto_of(v)
    }
}

/// Counters accumulated by the receiver since it started.
#[derive(Debug, Clone, Copy, PartialEq, Eq, Structural)]
pub struct ReceiverMetrics {
    pub received_datagrams: u64,
    pub accepted_samples: u64,
    pub oversized_datagrams: u64,
    pub invalid_packets: u64,
    pub duplicate_or_out_of_order_packets: u64,
    pub foreign_session_packets: u64,
    pub rate_limited_datagrams: u64,
}

pub open spec fn zero_metrics() -> ReceiverMetrics {
    ReceiverMetrics {
        received_datagrams: 0,
        accepted_samples: 0,
        oversized_datagrams: 0,
        invalid_packets: 0,
        duplicate_or_out_of_order_packets: 0,
        foreign_session_packets: 0,
        rate_limited_datagrams: 0,
    }
}

impl Default for ReceiverMetrics {
    fn default() -> (r: ReceiverMetrics)
        ensures
            r == zero_metrics(),
    {
        ReceiverMetrics {
            received_datagrams: 0,
            accepted_samples: 0,
            oversized_datagrams: 0,
            invalid_packets: 0,
            duplicate_or_out_of_order_packets: 0,
            foreign_session_packets: 0,
            rate_limited_datagrams: 0,
        }
    }
}

#[derive(Debug, Clone, Copy, PartialEq, Eq, Structural)]
pub struct ReceiverMetricsDto {
    pub received_datagrams: u64,
    pub accepted_samples: u64,
    pub oversized_datagrams: u64,
    pub invalid_packets: u64,
    pub duplicate_or_out_of_order_packets: u64,
    pub foreign_session_packets: u64,
    pub rate_limited_datagrams: u64,
}

pub open spec fn metrics_dto_of(value: ReceiverMetrics) -> ReceiverMetricsDto {
    ReceiverMetricsDto {
        received_datagrams: value.received_datagrams,
        accepted_samples: value.accepted_samples,
        oversized_datagrams: value.oversized_datagrams,
        invalid_packets: value.invalid_packets,
        duplicate_or_out_of_order_packets: value.duplicate_or_out_of_order_packets,
        foreign_session_packets: value.foreign_session_packets,
        rate_limited_datagrams: value.rate_limited_datagrams,
    }
}

impl From<ReceiverMetrics> for ReceiverMetricsDto {
    fn from(value: ReceiverMetrics) -> (r: ReceiverMetricsDto) {
        ReceiverMetricsDto {
            received_datagrams: value.received_datagrams,
            accepted_samples: value.accepted_samples,
            oversized_datagrams: value.oversized_datagrams,
            invalid_packets: value.invalid_packets,
            duplicate_or_out_of_order_packets: value.duplicate_or_out_of_order_packets,
            foreign_session_packets: value.foreign_session_packets,
            rate_limited_datagrams: value.rate_limited_datagrams,
        }
    }
}

impl vstd::std_specs::convert::FromSpecImpl<ReceiverMetrics> for ReceiverMetricsDto {
    open spec fn obeys_from_spec() -> bool {
        true
    }

    open spec fn from_spec(v: ReceiverMetrics) -> ReceiverMetricsDto {
        metrics_dto_of(v)
    }
}

/// How the state machine treated an incoming valid sample.
#[derive(Debug, Clone, Copy, PartialEq, Eq, Structural)]
pub enum SampleAcceptance {
    AcceptedNewSession,
    AcceptedSessionTakeover,
    AcceptedInOrder,
    IgnoredDuplicateOrOutOfOrder,
    IgnoredDifferentSession,
}

pub open spec fn is_accepted(a: SampleAcceptance) -> bool {
    a is AcceptedNewSession || a is AcceptedSessionTakeover || a is AcceptedInOrder
}

impl SampleAcceptance {
    pub fn was_accepted(self) -> (r: bool)
        ensures
            r == is_accepted(self),
    {
        match self {
            SampleAcceptance::AcceptedNewSession => true,
            SampleAcceptance::AcceptedSessionTakeover => true,
            SampleAcceptance::AcceptedInOrder => true,
            SampleAcceptance::IgnoredDuplicateOrOutOfOrder => false,
            SampleAcceptance::IgnoredDifferentSession => false,
        }
    }
}

/// Stream status given the instant of the last valid sample and the current instant.
pub open spec fn status_at(last_valid: Option<u64>, now_us: u64) -> StreamStatus {
    match last_valid {
        None => StreamStatus::Disconnected,
        Some(last_seen) => {
            let elapsed = if now_us >= last_seen { now_us - last_seen } else { 0 };
            if elapsed > SESSION_TIMEOUT_US {
                StreamStatus::Disconnected
            } else if elapsed > STALE_AFTER_US {
                StreamStatus::Stale
            } else {
                StreamStatus::Active
            }
        },
    }
}

/// The abstract state of the receiver.
pub struct ReceiverStateView<S, A> {
    pub last_sample: Option<S>,
    pub active_sender: Option<A>,
    pub active_session_id: Option<Seq<char>>,
    pub last_sequence: Option<u32>,
    pub last_valid_received_at_us: Option<u64>,
    pub metrics: ReceiverMetrics,
}

/// In-memory state of the receiver: the last accepted sample, the active
/// sender and session, the last accepted sequence and accumulated metrics.
/// `S` is the sample payload and `A` the sender address.
#[derive(Debug)]
pub struct ReceiverState<S, A> {
    last_sample: Option<S>,
    active_sender: Option<A>,
    active_session_id: Option<String>,
    last_sequence: Option<u32>,
    last_valid_received_at_us: Option<u64>,
    metrics: ReceiverMetrics,
}

pub open spec fn opt_string_view(s: Option<String>) -> Option<Seq<char>> {
    match s {
        Some(v) => Some(v@),
        None => None,
    }
}

impl<S, A> View for ReceiverState<S, A> {
    type V = ReceiverStateView<S, A>;

    closed spec fn view(&self) -> ReceiverStateView<S, A> {
        ReceiverStateView {
            last_sample: self.last_sample,
            active_sender: self.active_sender,
            active_session_id: opt_string_view(self.active_session_id),
            last_sequence: self.last_sequence,
            last_valid_received_at_us: self.last_valid_received_at_us,
            metrics: self.metrics,
        }
    }
}

/// The outcome of offering a valid sample with the given session id and
/// sequence at instant `now_us` to a receiver in state `s`.
pub open spec fn spec_acceptance<S, A>(
    s: ReceiverStateView<S, A>,
    session_id: Seq<char>,
    sequence: u32,
    now_us: u64,
) -> SampleAcceptance {
    match s.active_session_id {
        None => SampleAcceptance::AcceptedNewSession,
        Some(active) => if active == session_id {
            match s.last_sequence {
                Some(last) if sequence <= last => SampleAcceptance::IgnoredDuplicateOrOutOfOrder,
                _ => SampleAcceptance::AcceptedInOrder,
            }
        } else if status_at(s.last_valid_received_at_us, now_us) is Disconnected {
            SampleAcceptance::AcceptedSessionTakeover
        } else {
            SampleAcceptance::IgnoredDifferentSession
        },
    }
}

/// The counter that offering this sample moves (accepted, duplicate or
/// foreign-session) can take one more.
pub open spec fn sample_counter_has_room<S, A>(
    s: ReceiverStateView<S, A>,
    session_id: Seq<char>,
    sequence: u32,
    now_us: u64,
) -> bool {
    let a = spec_acceptance(s, session_id, sequence, now_us);
    if is_accepted(a) {
        s.metrics.accepted_samples < u64::MAX
    } else if a is IgnoredDuplicateOrOutOfOrder {
        s.metrics.duplicate_or_out_of_order_packets < u64::MAX
    } else {
        s.metrics.foreign_session_packets < u64::MAX
    }
}

/// The receiver state after offering a sample, given how it was treated.
pub open spec fn spec_after_sample<S, A>(
    s: ReceiverStateView<S, A>,
    session_id: Seq<char>,
    sequence: u32,
    sample: S,
    sender: A,
    now_us: u64,
    acceptance: SampleAcceptance,
) -> ReceiverStateView<S, A> {
    if is_accepted(acceptance) {
        ReceiverStateView {
            last_sample: Some(sample),
            active_sender: Some(sender),
            active_session_id: Some(session_id),
            last_sequence: Some(sequence),
            last_valid_received_at_us: Some(now_us),
            metrics: ReceiverMetrics {
                accepted_samples: (s.metrics.accepted_samples + 1) as u64,
                ..s.metrics
            },
        }
    } else if acceptance is IgnoredDuplicateOrOutOfOrder {
        ReceiverStateView {
            metrics: ReceiverMetrics {
                duplicate_or_out_of_order_packets: (s.metrics.duplicate_or_out_of_order_packets
                    + 1) as u64,
                ..s.metrics
            },
            ..s
        }
    } else {
        ReceiverStateView {
            metrics: ReceiverMetrics {
                foreign_session_packets: (s.metrics.foreign_session_packets + 1) as u64,
                ..s.metrics
            },
            ..s
        }
    }
}

/// A point-in-time copy of the receiver state plus its stream status.
#[derive(Debug, Clone)]
pub struct ReceiverSnapshot<S, A> {
    pub last_sample: Option<S>,
    pub active_sender: Option<A>,
    pub active_session_id: Option<String>,
    pub last_sequence: Option<u32>,
    pub last_valid_received_at_us: Option<u64>,
    pub metrics: ReceiverMetrics,
    pub status: StreamStatus,
}

/// The data-transfer shape of a snapshot handed to the desktop front end.
#[derive(Debug, Clone)]
pub struct ReceiverSnapshotDto<S, A> {
    pub status: ReceiverStatusDto,
    pub last_sample: Option<S>,
    pub active_sender: Option<A>,
    pub active_session_id: Option<String>,
    pub last_sequence: Option<u32>,
    pub last_valid_age_ms: Option<u64>,
    pub metrics: ReceiverMetricsDto,
}

impl<S, A> Default for ReceiverState<S, A> {
    /// A receiver that has seen nothing yet.
    fn default() -> (r: ReceiverState<S, A>)
        ensures
            r@.last_sample is None,
            r@.active_sender is None,
            r@.active_session_id is None,
            r@.last_sequence is None,
            r@.last_valid_received_at_us is None,
            r@.metrics == zero_metrics(),
    {
        ReceiverState {
            last_sample: None,
            active_sender: None,
            active_session_id: None,
            last_sequence: None,
            last_valid_received_at_us: None,
            metrics: ReceiverMetrics::default(),
        }
    }
}

impl<S, A: Copy> ReceiverState<S, A> {
    /// A receiver that has seen nothing yet.
    pub fn new() -> (r: ReceiverState<S, A>)
        ensures
            r@.last_sample is None,
            r@.active_sender is None,
            r@.active_session_id is None,
            r@.last_sequence is None,
            r@.last_valid_received_at_us is None,
            r@.metrics == zero_metrics(),
    {
        ReceiverState {
            last_sample: None,
            active_sender: None,
            active_session_id: None,
            last_sequence: None,
            last_valid_received_at_us: None,
            metrics: ReceiverMetrics::default(),
        }
    }

    /// The metrics accumulated so far.
    pub fn metrics(&self) -> (m: ReceiverMetrics)
        ensures
            m == self@.metrics,
    {
        self.metrics
    }

    pub fn record_received_datagram(&mut self)
        requires
            old(self)@.metrics.received_datagrams < u64::MAX,
        ensures
            final(self)@ == (ReceiverStateView {
                metrics: ReceiverMetrics {
                    received_datagrams: (old(self)@.metrics.received_datagrams + 1) as u64,
                    ..old(self)@.metrics
                },
                ..old(self)@
            }),
    {
        self.metrics.received_datagrams = self.metrics.received_datagrams + 1;
    }

    pub fn record_oversized_datagram(&mut self)
        requires
            old(self)@.metrics.oversized_datagrams < u64::MAX,
        ensures
            final(self)@ == (ReceiverStateView {
                metrics: ReceiverMetrics {
                    oversized_datagrams: (old(self)@.metrics.oversized_datagrams + 1) as u64,
                    ..old(self)@.metrics
                },
                ..old(self)@
            }),
    {
        self.metrics.oversized_datagrams = self.metrics.oversized_datagrams + 1;
    }

    pub fn record_invalid_packet(&mut self)
        requires
            old(self)@.metrics.invalid_packets < u64::MAX,
        ensures
            final(self)@ == (ReceiverStateView {
                metrics: ReceiverMetrics {
                    invalid_packets: (old(self)@.metrics.invalid_packets + 1) as u64,
                    ..old(self)@.metrics
                },
                ..old(self)@
            }),
    {
        self.metrics.invalid_packets = self.metrics.invalid_packets + 1;
    }

    pub fn record_rate_limited_datagram(&mut self)
        requires
            old(self)@.metrics.rate_limited_datagrams < u64::MAX,
        ensures
            final(self)@ == (ReceiverStateView {
                metrics: ReceiverMetrics {
                    rate_limited_datagrams: (old(self)@.metrics.rate_limited_datagrams + 1) as u64,
                    ..old(self)@.metrics
                },
                ..old(self)@
            }),
    {
        self.metrics.rate_limited_datagrams = self.metrics.rate_limited_datagrams + 1;
    }

    /// Offers a valid sample to the state machine. The first valid sample
    /// establishes the session; the same session only accepts strictly
    /// increasing sequences; another session takes over only once the stream
    /// is disconnected.
    pub fn apply_sample(
        &mut self,
        session_id: String,
        sequence: u32,
        sample: S,
        sender: A,
        now_us: u64,
    ) -> (acceptance: SampleAcceptance)
        requires
            sample_counter_has_room(old(self)@, session_id@, sequence, now_us),
        ensures
            acceptance == spec_acceptance(old(self)@, session_id@, sequence, now_us),
            final(self)@ == spec_after_sample(
                old(self)@,
                session_id@,
                sequence,
                sample,
                sender,
                now_us,
                acceptance,
            ),
    {
        let same_session = match &self.active_session_id {
            None => {
                return self.accept_sample(
                    session_id,
                    sequence,
                    sample,
                    sender,
                    now_us,
                    SampleAcceptance::AcceptedNewSession,
                );
            },
            Some(active) => *active == session_id,
        };
        if same_session {
            if let Some(last_sequence) = self.last_sequence {
                if sequence <= last_sequence {
                    self.metrics.duplicate_or_out_of_order_packets =
                        self.metrics.duplicate_or_out_of_order_packets + 1;
                    return SampleAcceptance::IgnoredDuplicateOrOutOfOrder;
                }
            }
            self.accept_sample(
                session_id,
                sequence,
                sample,
                sender,
                now_us,
                SampleAcceptance::AcceptedInOrder,
            )
        } else if self.is_session_timed_out(now_us) {
            self.accept_sample(
                session_id,
                sequence,
                sample,
                sender,
                now_us,
                SampleAcceptance::AcceptedSessionTakeover,
            )
        } else {
            self.metrics.foreign_session_packets = self.metrics.foreign_session_packets + 1;
            SampleAcceptance::IgnoredDifferentSession
        }
    }

    /// The stream status at instant `now_us`.
    pub fn stream_status(&self, now_us: u64) -> (status: StreamStatus)
        ensures
            status == status_at(self@.last_valid_received_at_us, now_us),
    {
        match self.last_valid_received_at_us {
            None => StreamStatus::Disconnected,
            Some(last_seen) => {
                let elapsed = now_us.saturating_sub(last_seen);
                if elapsed > SESSION_TIMEOUT_US {
                    StreamStatus::Disconnected
                } else if elapsed > STALE_AFTER_US {
                    StreamStatus::Stale
                } else {
                    StreamStatus::Active
                }
            },
        }
    }

    fn is_session_timed_out(&self, now_us: u64) -> (r: bool)
        ensures
            r == (status_at(self@.last_valid_received_at_us, now_us) is Disconnected),
    {
        match self.stream_status(now_us) {
            StreamStatus::Disconnected => true,
            _ => false,
        }
    }

    fn accept_sample(
        &mut self,
        session_id: String,
        sequence: u32,
        sample: S,
        sender: A,
        now_us: u64,
        acceptance: SampleAcceptance,
    ) -> (r: SampleAcceptance)
        requires
            is_accepted(acceptance),
            old(self)@.metrics.accepted_samples < u64::MAX,
        ensures
            r == acceptance,
            final(self)@ == spec_after_sample(
                old(self)@,
                session_id@,
                sequence,
                sample,
                sender,
                now_us,
                acceptance,
            ),
    {
        self.active_sender = Some(sender);
        self.last_sequence = Some(sequence);
        self.active_session_id = Some(session_id);
        self.last_valid_received_at_us = Some(now_us);
        self.last_sample = Some(sample);
        self.metrics.accepted_samples = self.metrics.accepted_samples + 1;
        acceptance
    }
}

impl<S: Clone, A: Copy> ReceiverState<S, A> {
    /// A copy of the state together with the stream status at `now_us`.
    pub fn snapshot(&self, now_us: u64) -> (snap: ReceiverSnapshot<S, A>)
        ensures
            snap.last_sample.is_some() == self@.last_sample.is_some(),
            snap.last_sample.is_some() ==> cloned::<S>(
                self@.last_sample.unwrap(),
                snap.last_sample.unwrap(),
            ),
            snap.active_sender == self@.active_sender,
            opt_string_view(snap.active_session_id) == self@.active_session_id,
            snap.last_sequence == self@.last_sequence,
            snap.last_valid_received_at_us == self@.last_valid_received_at_us,
            snap.metrics == self@.metrics,
            snap.status == status_at(self@.last_valid_received_at_us, now_us),
    {
        ReceiverSnapshot {
            last_sample: self.last_sample.clone(),
            active_sender: self.active_sender,
            active_session_id: self.active_session_id.clone(),
            last_sequence: self.last_sequence,
            last_valid_received_at_us: self.last_valid_received_at_us,
            metrics: self.metrics,
            status: self.stream_status(now_us),
        }
    }
}

/// Milliseconds elapsed from `last_seen_us` to `now_us`, zero when `now_us`
/// is earlier.
pub open spec fn age_ms(last_seen_us: u64, now_us: u64) -> u64 {
    if now_us >= last_seen_us {
        ((now_us - last_seen_us) / 1000) as u64
    } else {
        0
    }
}

impl<S: Clone, A: Copy> ReceiverSnapshot<S, A> {
    /// The transfer shape of this snapshot, with the age of the last valid
    /// sample in whole milliseconds at `now_us`.
    pub fn to_dto(&self, now_us: u64) -> (dto: ReceiverSnapshotDto<S, A>)
        ensures
            dto.status == status_dto_of(self.status),
            dto.last_sample.is_some() == self.last_sample.is_some(),
            dto.last_sample.is_some() ==> cloned::<S>(
                self.last_sample.unwrap(),
                dto.last_sample.unwrap(),
            ),
            dto.active_sender == self.active_sender,
            opt_string_view(dto.active_session_id) == opt_string_view(self.active_session_id),
            dto.last_sequence == self.last_sequence,
            dto.last_valid_age_ms == (match self.last_valid_received_at_us {
                Some(t) => Some(age_ms(t, now_us)),
                None => None,
            }),
            dto.metrics == metrics_dto_of(self.metrics),
    {
        let age = match self.last_valid_received_at_us {
            Some(last_seen) => Some(now_us.saturating_sub(last_seen) / 1000),
            None => None,
        };
        ReceiverSnapshotDto {
            status: ReceiverStatusDto::from(self.status),
            last_sample: self.last_sample.clone(),
            active_sender: self.active_sender,
            active_session_id: self.active_session_id.clone(),
            last_sequence: self.last_sequence,
            last_valid_age_ms: age,
            metrics: ReceiverMetricsDto::from(self.metrics),
        }
    }
}

/// Allows at most `limit` events per fixed window of `window_us`
/// microseconds; a window starts at the first event after the previous
/// window has elapsed.
#[derive(Debug, Clone)]
pub struct FixedWindowRateLimiter {
    limit: u32,
    window_us: u64,
    window_started_at_us: Option<u64>,
    seen_in_window: u32,
}

pub struct RateLimiterView {
    pub limit: u32,
    pub window_us: u64,
    pub window_started_at_us: Option<u64>,
    pub seen_in_window: u32,
}

impl View for FixedWindowRateLimiter {
    type V = RateLimiterView;

    closed spec fn view(&self) -> RateLimiterView {
        RateLimiterView {
            limit: self.limit,
            window_us: self.window_us,
            window_started_at_us: self.window_started_at_us,
            seen_in_window: self.seen_in_window,
        }
    }
}

/// Whether the window that started at `started` still covers `now_us`.
pub open spec fn window_open(started: Option<u64>, window_us: u64, now_us: u64) -> bool {
    match started {
        Some(t) => (if now_us >= t { now_us - t } else { 0 }) < window_us,
        None => false,
    }
}

/// The limiter after one event at `now_us`, and whether the event is allowed:
/// an expired (or not yet started) window restarts at `now_us` with no
/// events; the event is allowed while fewer than `limit` were allowed in
/// the window, and then counted.
pub open spec fn limiter_step(v: RateLimiterView, now_us: u64) -> (RateLimiterView, bool) {
    let open = window_open(v.window_started_at_us, v.window_us, now_us);
    let start = if open {
        v.window_started_at_us
    } else {
        Some(now_us)
    };
    let seen = if open {
        v.seen_in_window
    } else {
        0
    };
    let allowed = seen < v.limit;
    (
        RateLimiterView {
            limit: v.limit,
            window_us: v.window_us,
            window_started_at_us: start,
            seen_in_window: if allowed {
                (seen + 1) as u32
            } else {
                seen
            },
        },
        allowed,
    )
}

impl FixedWindowRateLimiter {
    pub fn new(limit: u32, window_us: u64) -> (r: FixedWindowRateLimiter)
        ensures
            r@ == (RateLimiterView {
                limit,
                window_us,
                window_started_at_us: None,
                seen_in_window: 0,
            }),
    {
        FixedWindowRateLimiter { limit, window_us, window_started_at_us: None, seen_in_window: 0 }
    }

    /// Counts one event at `now_us` and says whether it is within the limit.
    pub fn allow(&mut self, now_us: u64) -> (allowed: bool)
        ensures
            (final(self)@, allowed) == limiter_step(old(self)@, now_us),
    {
        let keep = match self.window_started_at_us {
            Some(started) => now_us.saturating_sub(started) < self.window_us,
            None => false,
        };
        if !keep {
            self.window_started_at_us = Some(now_us);
            self.seen_in_window = 0;
        }
        if self.seen_in_window < self.limit {
            self.seen_in_window = self.seen_in_window + 1;
            true
        } else {
            false
        }
    }
}

// ---------------------------------------------------------------------------
// Laws
// ---------------------------------------------------------------------------

/// Within one session the accepted sequence numbers strictly increase: a
/// sample of the active session is accepted only above the last accepted sequence.
pub proof fn lemma_in_session_sequences_increase<S, A>(
    s: ReceiverStateView<S, A>,
    session_id: Seq<char>,
    sequence: u32,
    now_us: u64,
)
    requires
        s.active_session_id == Some(session_id),
        s.last_sequence is Some,
        is_accepted(spec_acceptance(s, session_id, sequence, now_us)),
    ensures
        sequence > s.last_sequence.unwrap(),
        spec_acceptance(s, session_id, sequence, now_us) == SampleAcceptance::AcceptedInOrder,
{
}

/// Another session takes over only when the active stream is disconnected.
pub proof fn lemma_takeover_only_when_disconnected<S, A>(
    s: ReceiverStateView<S, A>,
    session_id: Seq<char>,
    sequence: u32,
    now_us: u64,
)
    requires
        s.active_session_id is Some,
        s.active_session_id != Some(session_id),
    ensures
        is_accepted(spec_acceptance(s, session_id, sequence, now_us)) <==> status_at(
            s.last_valid_received_at_us,
            now_us,
        ) == StreamStatus::Disconnected,
        is_accepted(spec_acceptance(s, session_id, sequence, now_us)) ==> spec_acceptance(
            s,
            session_id,
            sequence,
            now_us,
        ) == SampleAcceptance::AcceptedSessionTakeover,
{
}

/// Offering a sample counts it exactly once: in `accepted_samples` when it
/// is accepted, else in the duplicate or the foreign-session counter; the
/// other counters do not move. An accepted sample becomes the stream's last
/// sample, sets its session, sender and sequence, and the last-valid instant.
pub proof fn lemma_sample_counted_once<S, A>(
    s: ReceiverStateView<S, A>,
    session_id: Seq<char>,
    sequence: u32,
    sample: S,
    sender: A,
    now_us: u64,
)
    requires
        sample_counter_has_room(s, session_id, sequence, now_us),
    ensures
        ({
            let a = spec_acceptance(s, session_id, sequence, now_us);
            let t = spec_after_sample(s, session_id, sequence, sample, sender, now_us, a);
            let m = t.metrics;
            &&& is_accepted(a) ==> t.last_sample == Some(sample) && t.active_sender == Some(sender)
                && t.active_session_id == Some(session_id) && t.last_sequence == Some(sequence)
                && t.last_valid_received_at_us == Some(now_us)
            &&& m.accepted_samples + m.duplicate_or_out_of_order_packets + m.foreign_session_packets
                == s.metrics.accepted_samples + s.metrics.duplicate_or_out_of_order_packets
                + s.metrics.foreign_session_packets + 1
            &&& m.accepted_samples >= s.metrics.accepted_samples
            &&& m.duplicate_or_out_of_order_packets >= s.metrics.duplicate_or_out_of_order_packets
            &&& m.foreign_session_packets >= s.metrics.foreign_session_packets
            &&& (m.accepted_samples == s.metrics.accepted_samples + 1 <==> is_accepted(a))
            &&& m.received_datagrams == s.metrics.received_datagrams
            &&& m.oversized_datagrams == s.metrics.oversized_datagrams
            &&& m.invalid_packets == s.metrics.invalid_packets
            &&& m.rate_limited_datagrams == s.metrics.rate_limited_datagrams
        }),
{
}

/// An ignored sample changes nothing but its counter: the session, sender,
/// last sample, last sequence and last-valid instant stay as they were.
pub proof fn lemma_ignored_sample_keeps_stream<S, A>(
    s: ReceiverStateView<S, A>,
    session_id: Seq<char>,
    sequence: u32,
    sample: S,
    sender: A,
    now_us: u64,
)
    requires
        !is_accepted(spec_acceptance(s, session_id, sequence, now_us)),
    ensures
        ({
            let t = spec_after_sample(
                s,
                session_id,
                sequence,
                sample,
                sender,
                now_us,
                spec_acceptance(s, session_id, sequence, now_us),
            );
            &&& t.last_sample == s.last_sample
            &&& t.active_sender == s.active_sender
            &&& t.active_session_id == s.active_session_id
            &&& t.last_sequence == s.last_sequence
            &&& t.last_valid_received_at_us == s.last_valid_received_at_us
        }),
{
}

/// The order of the stream statuses: active, then stale, then disconnected.
pub open spec fn status_rank(s: StreamStatus) -> nat {
    match s {
        StreamStatus::Active => 0,
        StreamStatus::Stale => 1,
        StreamStatus::Disconnected => 2,
    }
}

/// Without a new valid sample the stream status only degrades as time
/// passes: active, then stale, then disconnected.
pub proof fn lemma_status_degrades_with_time(last_valid: Option<u64>, earlier_us: u64, later_us: u64)
    requires
        earlier_us <= later_us,
    ensures
        status_rank(status_at(last_valid, earlier_us)) <= status_rank(status_at(last_valid, later_us)),
{
}

/// The rate limiter never counts more than `limit` allowed events in a
/// window: `seen_in_window <= limit` holds from `new` on and every step keeps it.
pub proof fn lemma_limiter_count_bounded(v: RateLimiterView, now_us: u64)
    requires
        v.seen_in_window <= v.limit,
    ensures
        limiter_step(v, now_us).0.seen_in_window <= v.limit,
        limiter_step(v, now_us).0.limit == v.limit,
{
}

/// Within an open window every allowed event is counted and a refused
/// event leaves the count at the limit: once `limit` events were allowed,
/// every further event of the same window is refused.
pub proof fn lemma_limiter_refuses_when_full(v: RateLimiterView, now_us: u64)
    requires
        window_open(v.window_started_at_us, v.window_us, now_us),
        v.seen_in_window >= v.limit,
    ensures
        !limiter_step(v, now_us).1,
        limiter_step(v, now_us).0 == v,
{
}

/// An event in an open window below the limit is allowed and counted.
pub proof fn lemma_limiter_allows_below_limit(v: RateLimiterView, now_us: u64)
    requires
        window_open(v.window_started_at_us, v.window_us, now_us),
        v.seen_in_window < v.limit,
    ensures
        limiter_step(v, now_us).1,
        limiter_step(v, now_us).0.seen_in_window == v.seen_in_window + 1,
        limiter_step(v, now_us).0.window_started_at_us == v.window_started_at_us,
{
}

/// Once a window has elapsed, the next event opens a new window at its own
/// instant, and is allowed whenever the limit is not zero.
pub proof fn lemma_limiter_resets_after_window(v: RateLimiterView, now_us: u64)
    requires
        !window_open(v.window_started_at_us, v.window_us, now_us),
    ensures
        limiter_step(v, now_us).0.window_started_at_us == Some(now_us),
        limiter_step(v, now_us).1 == (v.limit > 0),
        limiter_step(v, now_us).0.seen_in_window == (if v.limit > 0 {
            1u32
        } else {
            0u32
        }),
{
}

// ---------------------------------------------------------------------------
// Datagram handling
// ---------------------------------------------------------------------------

/// What decoding a datagram's bytes gave.
#[derive(Debug)]
pub enum DecodedDatagram<S> {
    /// The bytes exceed the protocol's datagram size.
    TooLarge,
    /// The bytes are no valid motion sample.
    Invalid,
    /// A valid motion sample: its session, sequence and payload.
    Sample { session_id: String, sequence: u32, sample: S },
}

/// The metrics after a datagram of `received_len` bytes arrived and the
/// rate limiter answered `allowed`: it is counted as received, then as rate
/// limited when refused, else as oversized when too long.
pub open spec fn admitted_metrics(m: ReceiverMetrics, allowed: bool, received_len: usize) -> ReceiverMetrics {
    let m1 = ReceiverMetrics { received_datagrams: (m.received_datagrams + 1) as u64, ..m };
    if !allowed {
        ReceiverMetrics { rate_limited_datagrams: (m.rate_limited_datagrams + 1) as u64, ..m1 }
    } else if received_len > MAX_DATAGRAM_BYTES {
        ReceiverMetrics { oversized_datagrams: (m.oversized_datagrams + 1) as u64, ..m1 }
    } else {
        m1
    }
}

/// Every datagram counted as received was classified exactly once: rate
/// limited, oversized, invalid, accepted, duplicate or from another session.
pub open spec fn metrics_balanced(m: ReceiverMetrics) -> bool {
    m.received_datagrams == m.rate_limited_datagrams + m.oversized_datagrams + m.invalid_packets
        + m.accepted_samples + m.duplicate_or_out_of_order_packets + m.foreign_session_packets
}

/// How the state machine treats an admitted, decoded datagram: a valid
/// sample gets its acceptance; an oversized or invalid datagram gets none.
pub open spec fn datagram_acceptance<S, A>(
    s: ReceiverStateView<S, A>,
    decoded: DecodedDatagram<S>,
    now_us: u64,
) -> Option<SampleAcceptance> {
    match decoded {
        DecodedDatagram::Sample { session_id, sequence, .. } => Some(
            spec_acceptance(s, session_id@, sequence, now_us),
        ),
        _ => None,
    }
}

/// The receive loop publishes a datagram's sample (to the accepted-sample
/// sink and as the latest sample) exactly when the state machine accepted it.
pub open spec fn publishes_sample(outcome: Option<SampleAcceptance>) -> bool {
    outcome matches Some(a) && is_accepted(a)
}

/// Whether to publish the sample of a datagram, given what `apply_datagram` returned.
pub fn should_publish(outcome: Option<SampleAcceptance>) -> (p: bool)
    ensures
        p == publishes_sample(outcome),
{
    match outcome {
        Some(a) => a.was_accepted(),
        None => false,
    }
}

/// A datagram's sample is published exactly when the datagram passed the
/// rate limiter and the size limit, decoded to a valid sample, and the state
/// machine accepted it: a rate-limited, oversized, invalid, duplicate or
/// foreign-session datagram publishes nothing.
pub proof fn lemma_published_exactly_when_accepted<S, A>(
    s: ReceiverStateView<S, A>,
    limiter: RateLimiterView,
    received_len: usize,
    decoded: DecodedDatagram<S>,
    now_us: u64,
)
    ensures
        ({
            let allowed = limiter_step(limiter, now_us).1;
            let admitted = allowed && received_len <= MAX_DATAGRAM_BYTES;
            let after_admission = ReceiverStateView {
                metrics: admitted_metrics(s.metrics, allowed, received_len),
                ..s
            };
            let outcome = if admitted {
                datagram_acceptance(after_admission, decoded, now_us)
            } else {
                None
            };
            publishes_sample(outcome) <==> admitted && decoded is Sample && is_accepted(
                spec_acceptance(s, decoded->session_id@, decoded->sequence, now_us),
            )
        }),
{
}

impl<S, A: Copy> ReceiverState<S, A> {
    /// The first part of handling a datagram of `received_len` bytes at
    /// `now_us`: it is counted, passed through the rate limiter and checked
    /// against the size limit; the result says whether to decode it.
    pub fn admit_datagram(&mut self, limiter: &mut FixedWindowRateLimiter, received_len: usize, now_us: u64) -> (admitted:
        bool)
        requires
            old(self)@.metrics.received_datagrams < u64::MAX,
            old(self)@.metrics.rate_limited_datagrams < u64::MAX,
            old(self)@.metrics.oversized_datagrams < u64::MAX,
        ensures
            final(limiter)@ == limiter_step(old(limiter)@, now_us).0,
            admitted == (limiter_step(old(limiter)@, now_us).1 && received_len <= MAX_DATAGRAM_BYTES),
            final(self)@ == (ReceiverStateView {
                metrics: admitted_metrics(
                    old(self)@.metrics,
                    limiter_step(old(limiter)@, now_us).1,
                    received_len,
                ),
                ..old(self)@
            }),
    {
        self.record_received_datagram();
        if !limiter.allow(now_us) {
            self.record_rate_limited_datagram();
            false
        } else if received_len > MAX_DATAGRAM_BYTES {
            self.record_oversized_datagram();
            false
        } else {
            true
        }
    }

    /// The second part of handling an admitted datagram: an oversized or
    /// invalid one is counted as such; a valid sample is offered to the
    /// state machine, and the result says how it was treated.
    pub fn apply_datagram(&mut self, decoded: DecodedDatagram<S>, sender: A, now_us: u64) -> (r: Option<
        SampleAcceptance,
    >)
        requires
            old(self)@.metrics.oversized_datagrams < u64::MAX,
            old(self)@.metrics.invalid_packets < u64::MAX,
            old(self)@.metrics.accepted_samples < u64::MAX,
            old(self)@.metrics.duplicate_or_out_of_order_packets < u64::MAX,
            old(self)@.metrics.foreign_session_packets < u64::MAX,
        ensures
            r == datagram_acceptance(old(self)@, decoded, now_us),
            match decoded {
                DecodedDatagram::TooLarge => r is None && final(self)@ == (ReceiverStateView {
                    metrics: ReceiverMetrics {
                        oversized_datagrams: (old(self)@.metrics.oversized_datagrams + 1) as u64,
                        ..old(self)@.metrics
                    },
                    ..old(self)@
                }),
                DecodedDatagram::Invalid => r is None && final(self)@ == (ReceiverStateView {
                    metrics: ReceiverMetrics {
                        invalid_packets: (old(self)@.metrics.invalid_packets + 1) as u64,
                        ..old(self)@.metrics
                    },
                    ..old(self)@
                }),
                DecodedDatagram::Sample { session_id, sequence, sample } => r == Some(
                    spec_acceptance(old(self)@, session_id@, sequence, now_us),
                ) && final(self)@ == spec_after_sample(
                    old(self)@,
                    session_id@,
                    sequence,
                    sample,
                    sender,
                    now_us,
                    spec_acceptance(old(self)@, session_id@, sequence, now_us),
                ),
            },
    {
        match decoded {
            DecodedDatagram::TooLarge => {
                self.record_oversized_datagram();
                None
            },
            DecodedDatagram::Invalid => {
                self.record_invalid_packet();
                None
            },
            DecodedDatagram::Sample { session_id, sequence, sample } => Some(
                self.apply_sample(session_id, sequence, sample, sender, now_us),
            ),
        }
    }
}

/// The receiver's counters account for every datagram: a datagram that is
/// refused at admission leaves them balanced, and one that is admitted is
/// balanced again once its decoded content is applied.
pub proof fn lemma_datagram_keeps_metrics_balanced<S, A>(
    s: ReceiverStateView<S, A>,
    allowed: bool,
    received_len: usize,
    decoded: DecodedDatagram<S>,
    sender: A,
    now_us: u64,
)
    requires
        metrics_balanced(s.metrics),
        s.metrics.received_datagrams < u64::MAX,
        s.metrics.rate_limited_datagrams < u64::MAX,
        s.metrics.oversized_datagrams < u64::MAX,
        s.metrics.invalid_packets < u64::MAX,
        s.metrics.accepted_samples < u64::MAX,
        s.metrics.duplicate_or_out_of_order_packets < u64::MAX,
        s.metrics.foreign_session_packets < u64::MAX,
    ensures
        ({
            let m = admitted_metrics(s.metrics, allowed, received_len);
            let admitted = allowed && received_len <= MAX_DATAGRAM_BYTES;
            &&& !admitted ==> metrics_balanced(m)
            &&& admitted ==> match decoded {
                DecodedDatagram::TooLarge => metrics_balanced(
                    ReceiverMetrics { oversized_datagrams: (m.oversized_datagrams + 1) as u64, ..m },
                ),
                DecodedDatagram::Invalid => metrics_balanced(
                    ReceiverMetrics { invalid_packets: (m.invalid_packets + 1) as u64, ..m },
                ),
                DecodedDatagram::Sample { session_id, sequence, sample } => {
                    let t = ReceiverStateView { metrics: m, ..s };
                    metrics_balanced(
                        spec_after_sample(
                            t,
                            session_id@,
                            sequence,
                            sample,
                            sender,
                            now_us,
                            spec_acceptance(t, session_id@, sequence, now_us),
                        ).metrics,
                    )
                },
            }
        }),
{
}

} // verus!

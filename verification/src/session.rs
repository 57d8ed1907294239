use vstd::prelude::*;
use crate::icmp::{build_echo_request, echo_packet, request_payload, ICMP_ECHO_REQUEST};
use crate::stats::{empty_stats, Stats, StatsView, MAX_DURATION_NANOS};

verus! {

/// The decisions of a ping run: which echo request goes out next, how the
/// outcome of each request enters the statistics, and whether to pause
/// before the next request. Sending, receiving, the clock and the pause
/// itself are the caller's.
pub struct Session {
    count: u16,
    next_sequence: u16,
    awaiting_outcome: bool,
    stats: Stats,
}

/// The abstract state of a [`Session`].
pub struct SessionView {
    /// Number of echo requests the run sends.
    pub count: u16,
    /// Sequence number of the next request; also the number sent so far.
    pub next_sequence: u16,
    /// Whether the last request sent still waits for its outcome.
    pub awaiting_outcome: bool,
    pub stats: StatsView,
}

/// What became of the request last sent.
pub enum SessionEvent {
    /// Its reply arrived after `rtt_nanos` nanoseconds.
    Replied { rtt_nanos: u128 },
    /// No reply arrived in time.
    TimedOut,
}

impl View for Session {
    type V = SessionView;

    closed spec fn view(&self) -> SessionView {
        SessionView {
            count: self.count,
            next_sequence: self.next_sequence,
            awaiting_outcome: self.awaiting_outcome,
            stats: self.stats@,
        }
    }
}

impl SessionView {
    /// What every session keeps: no more requests than asked for, every
    /// request counted as sent, at most one outcome per request, and
    /// consistent round-trip statistics.
    pub open spec fn wf(self) -> bool {
        &&& self.next_sequence <= self.count
        &&& self.stats.sent == self.next_sequence
        &&& self.stats.received + (if self.awaiting_outcome {
            1int
        } else {
            0
        }) <= self.next_sequence
        &&& self.stats.wf()
    }
}

impl Session {
    /// A run that sends `count` echo requests.
    pub fn new(count: u16) -> (session: Session)
        ensures
            session@ == (SessionView {
                count,
                next_sequence: 0,
                awaiting_outcome: false,
                stats: empty_stats(),
            }),
            session@.wf(),
    {
        Session { count, next_sequence: 0, awaiting_outcome: false, stats: Stats::default() }
    }

    /// The next echo request to send, with its sequence number, counted as
    /// sent; `None` once all `count` requests have gone out.
    pub fn next_request(&mut self, identifier: u16) -> (request: Option<(u16, Vec<u8>)>)
        requires
            old(self)@.wf(),
        ensures
            final(self)@.wf(),
            old(self)@.next_sequence < old(self)@.count ==> ({
                &&& request matches Some((sequence, packet))
                &&& sequence == old(self)@.next_sequence
                &&& packet@ == echo_packet(
                    ICMP_ECHO_REQUEST,
                    identifier,
                    sequence,
                    request_payload(),
                )
                &&& final(self)@ == (SessionView {
                    next_sequence: (old(self)@.next_sequence + 1) as u16,
                    awaiting_outcome: true,
                    stats: old(self)@.stats.after_sent(),
                    ..old(self)@
                })
            }),
            old(self)@.next_sequence >= old(self)@.count ==> request is None && final(self)@ == old(
                self,
            )@,
    {
        if self.next_sequence >= self.count {
            return None;
        }
        let sequence = self.next_sequence;
        self.stats.record_sent();
        let packet = build_echo_request(identifier, sequence);
        self.next_sequence = sequence + 1;
        self.awaiting_outcome = true;
        Some((sequence, packet))
    }

    /// Enters the outcome of the request last sent into the statistics. An
    /// outcome with no request waiting for one changes nothing.
    pub fn on_event(&mut self, event: SessionEvent)
        requires
            old(self)@.wf(),
            old(self)@.awaiting_outcome ==> (event matches SessionEvent::Replied { rtt_nanos }
                ==> old(self)@.stats.total_rtt + rtt_nanos <= MAX_DURATION_NANOS),
        ensures
            final(self)@.wf(),
            old(self)@.awaiting_outcome ==> final(self)@ == (SessionView {
                awaiting_outcome: false,
                stats: match event {
                    SessionEvent::Replied { rtt_nanos } => old(self)@.stats.after_reply(rtt_nanos),
                    SessionEvent::TimedOut => old(self)@.stats,
                },
                ..old(self)@
            }),
            !old(self)@.awaiting_outcome ==> final(self)@ == old(self)@,
    {
        if !self.awaiting_outcome {
            return;
        }
        match event {
            SessionEvent::Replied { rtt_nanos } => {
                self.stats.record_reply(rtt_nanos);
            },
            SessionEvent::TimedOut => {},
        }
        self.awaiting_outcome = false;
    }

    /// Whether to pause before the next request: after every request but
    /// the last.
    pub fn sleeps_before_next(&self) -> (sleeps: bool)
        ensures
            sleeps == (self@.next_sequence < self@.count),
    {
        self.next_sequence < self.count
    }

    /// The statistics of the run so far.
    pub fn stats(&self) -> (stats: &Stats)
        ensures
            stats@ == self@.stats,
    {
        &self.stats
    }
}

} // verus!

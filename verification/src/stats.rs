use vstd::prelude::*;

verus! {

/// The longest span a `std::time::Duration` can hold, in nanoseconds.
pub const MAX_DURATION_NANOS: u128 = 18_446_744_073_709_551_615_999_999_999u128;

/// Counters and round-trip times of a ping session. Round-trip times are
/// kept in nanoseconds.
pub struct Stats {
    pub sent: u32,
    pub received: u32,
    min_rtt: Option<u128>,
    max_rtt: Option<u128>,
    total_rtt: u128,
}

/// The abstract state of [`Stats`].
pub struct StatsView {
    pub sent: u32,
    pub received: u32,
    pub min_rtt: Option<u128>,
    pub max_rtt: Option<u128>,
    pub total_rtt: u128,
}

impl View for Stats {
    type V = StatsView;

    closed spec fn view(&self) -> StatsView {
        StatsView {
            sent: self.sent,
            received: self.received,
            min_rtt: self.min_rtt,
            max_rtt: self.max_rtt,
            total_rtt: self.total_rtt,
        }
    }
}

/// The smaller of two round-trip times.
pub open spec fn min_rtt_of(a: u128, b: u128) -> u128 {
    if b < a {
        b
    } else {
        a
    }
}

/// The larger of two round-trip times.
pub open spec fn max_rtt_of(a: u128, b: u128) -> u128 {
    if b > a {
        b
    } else {
        a
    }
}

impl StatsView {
    /// The shape every `Stats` built by this library keeps: the minimum and
    /// the maximum are known together, the minimum is at most the maximum,
    /// and the maximum is at most the total.
    pub open spec fn wf(self) -> bool {
        &&& self.min_rtt is Some <==> self.max_rtt is Some
        &&& self.min_rtt matches Some(min) ==> min <= self.max_rtt->0
        &&& self.max_rtt matches Some(max) ==> max <= self.total_rtt
    }

    /// The state after one more request was sent.
    pub open spec fn after_sent(self) -> StatsView {
        StatsView { sent: (self.sent + 1) as u32, ..self }
    }

    /// The state after one more reply that took `rtt` nanoseconds.
    pub open spec fn after_reply(self, rtt: u128) -> StatsView {
        StatsView {
            sent: self.sent,
            received: (self.received + 1) as u32,
            min_rtt: Some(
                match self.min_rtt {
                    Some(current) => min_rtt_of(current, rtt),
                    None => rtt,
                },
            ),
            max_rtt: Some(
                match self.max_rtt {
                    Some(current) => max_rtt_of(current, rtt),
                    None => rtt,
                },
            ),
            total_rtt: (self.total_rtt + rtt) as u128,
        }
    }
}

/// The state of fresh statistics: nothing sent, nothing received.
pub open spec fn empty_stats() -> StatsView {
    StatsView { sent: 0, received: 0, min_rtt: None, max_rtt: None, total_rtt: 0 }
}

impl Default for Stats {
    fn default() -> (stats: Stats)
        ensures
            stats@ == empty_stats(),
            stats@.wf(),
    {
        Stats { sent: 0, received: 0, min_rtt: None, max_rtt: None, total_rtt: 0 }
    }
}

impl Stats {
    /// Counts one more request as sent.
    pub fn record_sent(&mut self)
        requires
            old(self)@.sent < u32::MAX,
        ensures
            final(self)@ == old(self)@.after_sent(),
            old(self)@.wf() ==> final(self)@.wf(),
    {
        self.sent = self.sent + 1;
    }

    /// Records a reply that took `rtt` nanoseconds.
    pub fn record_reply(&mut self, rtt: u128)
        requires
            old(self)@.received < u32::MAX,
            old(self)@.total_rtt + rtt <= MAX_DURATION_NANOS,
        ensures
            final(self)@ == old(self)@.after_reply(rtt),
            old(self)@.wf() ==> final(self)@.wf(),
    {
        self.received = self.received + 1;
        self.total_rtt = self.total_rtt + rtt;
        self.min_rtt = Some(
            match self.min_rtt {
                Some(current) => if rtt < current {
                    rtt
                } else {
                    current
                },
                None => rtt,
            },
        );
        self.max_rtt = Some(
            match self.max_rtt {
                Some(current) => if rtt > current {
                    rtt
                } else {
                    current
                },
                None => rtt,
            },
        );
    }

    /// The shortest round-trip time recorded, in nanoseconds.
    pub fn min_rtt(&self) -> (rtt: Option<u128>)
        ensures
            rtt == self@.min_rtt,
    {
        self.min_rtt
    }

    /// The longest round-trip time recorded, in nanoseconds.
    pub fn max_rtt(&self) -> (rtt: Option<u128>)
        ensures
            rtt == self@.max_rtt,
    {
        self.max_rtt
    }

    /// The sum of all round-trip times recorded, in nanoseconds.
    pub fn total_rtt(&self) -> (rtt: u128)
        ensures
            rtt == self@.total_rtt,
    {
        self.total_rtt
    }
}


// ---------------------------------------------------------------------------
// A run of replies
// ---------------------------------------------------------------------------

/// The state after recording the replies `rtts`, in order, on fresh
/// statistics.
pub open spec fn stats_after_replies(rtts: Seq<u128>) -> StatsView
    decreases rtts.len(),
{
    if rtts.len() == 0 {
        empty_stats()
    } else {
        stats_after_replies(rtts.drop_last()).after_reply(rtts.last())
    }
}

/// Sum of the round-trip times `rtts`.
pub open spec fn rtt_sum(rtts: Seq<u128>) -> nat
    decreases rtts.len(),
{
    if rtts.len() == 0 {
        0
    } else {
        rtt_sum(rtts.drop_last()) + rtts.last() as nat
    }
}

/// Smallest of the (non-empty) round-trip times `rtts`.
pub open spec fn rtt_min(rtts: Seq<u128>) -> u128
    decreases rtts.len(),
{
    if rtts.len() <= 1 {
        rtts[0]
    } else {
        min_rtt_of(rtt_min(rtts.drop_last()), rtts.last())
    }
}

/// Largest of the (non-empty) round-trip times `rtts`.
pub open spec fn rtt_max(rtts: Seq<u128>) -> u128
    decreases rtts.len(),
{
    if rtts.len() <= 1 {
        rtts[0]
    } else {
        max_rtt_of(rtt_max(rtts.drop_last()), rtts.last())
    }
}

proof fn lemma_rtt_sum_prefix(rtts: Seq<u128>)
    requires
        rtts.len() > 0,
    ensures
        rtt_sum(rtts.drop_last()) <= rtt_sum(rtts),
{
}

/// After the replies `rtts` on fresh statistics: the reply count is their
/// number, nothing counts as sent, the total is their sum, the minimum and
/// maximum are theirs, and the average lies between minimum and maximum.
pub proof fn lemma_stats_after_replies(rtts: Seq<u128>)
    requires
        rtts.len() <= u32::MAX,
        rtt_sum(rtts) <= MAX_DURATION_NANOS,
    ensures
        stats_after_replies(rtts).received == rtts.len(),
        stats_after_replies(rtts).sent == 0,
        stats_after_replies(rtts).total_rtt == rtt_sum(rtts),
        stats_after_replies(rtts).wf(),
        rtts.len() == 0 ==> stats_after_replies(rtts).min_rtt is None,
        rtts.len() > 0 ==> stats_after_replies(rtts).min_rtt == Some(rtt_min(rtts)),
        rtts.len() > 0 ==> stats_after_replies(rtts).max_rtt == Some(rtt_max(rtts)),
        rtts.len() > 0 ==> rtt_min(rtts) * rtts.len() <= rtt_sum(rtts),
        rtts.len() > 0 ==> rtt_sum(rtts) <= rtt_max(rtts) * rtts.len(),
        rtts.len() > 0 ==> rtt_min(rtts) <= rtt_sum(rtts) / rtts.len() <= rtt_max(rtts),
    decreases rtts.len(),
{
    if rtts.len() > 0 {
        let prev = rtts.drop_last();
        let x = rtts.last();
        lemma_rtt_sum_prefix(rtts);
        lemma_stats_after_replies(prev);
        let k = rtts.len() as int;
        let sum = rtt_sum(rtts) as int;
        let lo = rtt_min(rtts) as int;
        let hi = rtt_max(rtts) as int;
        if prev.len() > 0 {
            let plo = rtt_min(prev) as int;
            let phi = rtt_max(prev) as int;
            let psum = rtt_sum(prev) as int;
            assert(lo <= plo && lo <= x && hi >= phi && hi >= x);
            assert(lo * k <= sum) by (nonlinear_arith)
                requires
                    lo <= plo,
                    lo <= x,
                    plo * (k - 1) <= psum,
                    sum == psum + x,
                    k >= 1,
                    lo >= 0,
            ;
            assert(sum <= hi * k) by (nonlinear_arith)
                requires
                    hi >= phi,
                    hi >= x,
                    psum <= phi * (k - 1),
                    sum == psum + x,
                    k >= 1,
            ;
        }
        assert(lo <= sum / k <= hi) by (nonlinear_arith)
            requires
                lo * k <= sum,
                sum <= hi * k,
                k >= 1,
                lo >= 0,
        ;
    }
}


/// The minimum and the maximum of a run of round-trip times bound every
/// time of the run and are times of the run.
pub proof fn lemma_rtt_min_max_bounds(rtts: Seq<u128>)
    requires
        rtts.len() > 0,
    ensures
        forall|i: int| 0 <= i < rtts.len() ==> rtt_min(rtts) <= #[trigger] rtts[i] <= rtt_max(rtts),
        exists|i: int| 0 <= i < rtts.len() && #[trigger] rtts[i] == rtt_min(rtts),
        exists|i: int| 0 <= i < rtts.len() && #[trigger] rtts[i] == rtt_max(rtts),
    decreases rtts.len(),
{
    if rtts.len() == 1 {
        assert(rtts[0] == rtt_min(rtts));
        assert(rtts[0] == rtt_max(rtts));
    } else {
        let prev = rtts.drop_last();
        let last = rtts.len() - 1;
        lemma_rtt_min_max_bounds(prev);
        assert forall|i: int| 0 <= i < rtts.len() implies rtt_min(rtts) <= #[trigger] rtts[i]
            <= rtt_max(rtts) by {
            if i < last {
                assert(rtts[i] == prev[i]);
            }
        }
        if rtt_min(rtts) == rtts[last] {
        } else {
            let k = choose|i: int| 0 <= i < prev.len() && #[trigger] prev[i] == rtt_min(prev);
            assert(rtts[k] == prev[k]);
        }
        if rtt_max(rtts) == rtts[last] {
        } else {
            let k = choose|i: int| 0 <= i < prev.len() && #[trigger] prev[i] == rtt_max(prev);
            assert(rtts[k] == prev[k]);
        }
    }
}

} // verus!

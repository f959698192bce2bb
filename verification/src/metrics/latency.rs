//! Per-frame latency stamps and their rolling averages.

use vstd::prelude::*;
use std::collections::VecDeque;

verus! {

/// Microseconds since the Unix epoch from the system clock, 0 before it.
/// Nothing is stated of the value: it is the time.
#[verifier::external_body]
pub(crate) fn clock_us() -> u64 {
    std::time::SystemTime::now().duration_since(std::time::UNIX_EPOCH).map(|d| d.as_micros() as u64).unwrap_or(0)
}

/// `later - earlier`, or 0 when `later` is not after `earlier`.
pub open spec fn elapsed_us(earlier: u64, later: u64) -> u64 {
    if later >= earlier {
        (later - earlier) as u64
    } else {
        0
    }
}

/// Timestamps of one frame through the pipeline, in clock microseconds.
#[derive(Debug, Clone)]
pub struct FrameTimestamps {
    pub frame_index: u32,
    pub t_present: u64,
    pub t_encode_start: Option<u64>,
    pub t_encode_end: Option<u64>,
    pub t_send: Option<u64>,
}

/// PC-side latency of a frame: present to send, once sent.
pub open spec fn pc_latency_spec(ts: FrameTimestamps) -> Option<u64> {
    match ts.t_send {
        Some(t) => Some(elapsed_us(ts.t_present, t)),
        None => None,
    }
}

/// Encode latency of a frame, once both ends are marked.
pub open spec fn encode_latency_spec(ts: FrameTimestamps) -> Option<u64> {
    match (ts.t_encode_start, ts.t_encode_end) {
        (Some(s), Some(e)) => Some(elapsed_us(s, e)),
        _ => None,
    }
}

impl FrameTimestamps {
    /// A frame presented at `now_us`.
    pub fn new_at(frame_index: u32, now_us: u64) -> (r: Self)
        ensures
            r.frame_index == frame_index,
            r.t_present == now_us,
            r.t_encode_start is None,
            r.t_encode_end is None,
            r.t_send is None,
    {
        FrameTimestamps { frame_index, t_present: now_us, t_encode_start: None, t_encode_end: None, t_send: None }
    }

    /// A frame presented now.
    pub fn new(frame_index: u32) -> (r: Self)
        ensures
            r.frame_index == frame_index,
            r.t_encode_start is None,
            r.t_encode_end is None,
            r.t_send is None,
    {
        Self::new_at(frame_index, clock_us())
    }

    pub fn mark_encode_start(&mut self)
        ensures
            final(self).t_encode_start is Some,
            final(self).frame_index == old(self).frame_index,
            final(self).t_present == old(self).t_present,
            final(self).t_encode_end == old(self).t_encode_end,
            final(self).t_send == old(self).t_send,
    {
        self.t_encode_start = Some(clock_us());
    }

    pub fn mark_encode_end(&mut self)
        ensures
            final(self).t_encode_end is Some,
            final(self).frame_index == old(self).frame_index,
            final(self).t_present == old(self).t_present,
            final(self).t_encode_start == old(self).t_encode_start,
            final(self).t_send == old(self).t_send,
    {
        self.t_encode_end = Some(clock_us());
    }

    pub fn mark_send(&mut self)
        ensures
            final(self).t_send is Some,
            final(self).frame_index == old(self).frame_index,
            final(self).t_present == old(self).t_present,
            final(self).t_encode_start == old(self).t_encode_start,
            final(self).t_encode_end == old(self).t_encode_end,
    {
        self.t_send = Some(clock_us());
    }

    /// Total PC-side latency: present to send.
    pub fn pc_latency_us(&self) -> (r: Option<u64>)
        ensures
            r == pc_latency_spec(*self),
    {
        match self.t_send {
            Some(t) => Some(t.saturating_sub(self.t_present)),
            None => None,
        }
    }

    /// Encode latency only.
    pub fn encode_latency_us(&self) -> (r: Option<u64>)
        ensures
            r == encode_latency_spec(*self),
    {
        match (self.t_encode_start, self.t_encode_end) {
            (Some(s), Some(e)) => Some(e.saturating_sub(s)),
            _ => None,
        }
    }
}

/// Sum and count of the present values.
pub open spec fn sum_some(s: Seq<Option<u64>>) -> (nat, nat)
    decreases s.len(),
{
    if s.len() == 0 {
        (0, 0)
    } else {
        let (sum, count) = sum_some(s.drop_last());
        match s.last() {
            Some(v) => (sum + v as nat, count + 1),
            None => (sum, count),
        }
    }
}

/// The integer mean of the present values; `None` when there are none.
pub open spec fn mean_some(s: Seq<Option<u64>>) -> Option<u64> {
    let (sum, count) = sum_some(s);
    if count == 0 {
        None
    } else {
        Some((sum / count) as u64)
    }
}

proof fn lemma_sum_some_bound(s: Seq<Option<u64>>)
    ensures
        sum_some(s).0 <= sum_some(s).1 * u64::MAX,
        sum_some(s).1 <= s.len(),
    decreases s.len(),
{
    if s.len() > 0 {
        lemma_sum_some_bound(s.drop_last());
    }
}

/// One latency of each frame: present-to-send (`pc`) or encode.
pub open spec fn latencies(h: Seq<FrameTimestamps>, pc: bool) -> Seq<Option<u64>> {
    h.map_values(|ts: FrameTimestamps| if pc { pc_latency_spec(ts) } else { encode_latency_spec(ts) })
}

/// Rolling latency statistics over the last `max_history` frames.
pub struct LatencyTracker {
    history: VecDeque<FrameTimestamps>,
    max_history: usize,
}

impl LatencyTracker {
    pub closed spec fn history_spec(&self) -> Seq<FrameTimestamps> {
        self.history@
    }

    pub closed spec fn max_history_spec(&self) -> usize {
        self.max_history
    }

    pub fn new(max_history: usize) -> (r: Self)
        ensures
            r.history_spec().len() == 0,
            r.max_history_spec() == max_history,
    {
        LatencyTracker { history: VecDeque::with_capacity(max_history), max_history }
    }

    /// Keep a frame's stamps, dropping the oldest when the history is full.
    pub fn record(&mut self, ts: FrameTimestamps)
        ensures
            final(self).max_history_spec() == old(self).max_history_spec(),
            final(self).history_spec() == if old(self).history_spec().len() >= old(self).max_history_spec() {
                (if old(self).history_spec().len() > 0 {
                    old(self).history_spec().drop_first()
                } else {
                    old(self).history_spec()
                }).push(ts)
            } else {
                old(self).history_spec().push(ts)
            },
    {
        if self.history.len() >= self.max_history {
            let _ = self.history.pop_front();
        }
        self.history.push_back(ts);
    }

    /// Mean of a latency over the history, for the frames that have it.
    fn mean_over(&self, pc: bool) -> (r: Option<u64>)
        ensures
            r == mean_some(latencies(self.history@, pc)),
    {
        let ghost vals = latencies(self.history@, pc);
        let mut sum: u128 = 0;
        let mut count: u64 = 0;
        let n = self.history.len();
        let mut i: usize = 0;
        while i < n
            invariant
                n == self.history@.len(),
                vals.len() == n,
                vals == latencies(self.history@, pc),
                i <= n,
                (sum as nat, count as nat) == sum_some(vals.subrange(0, i as int)),
                count <= i,
                sum <= count * u64::MAX,
            decreases n - i,
        {
            let ts = &self.history[i];
            let v = if pc {
                ts.pc_latency_us()
            } else {
                ts.encode_latency_us()
            };
            proof {
                assert(vals.subrange(0, i + 1).drop_last() =~= vals.subrange(0, i as int));
                assert(vals.subrange(0, i + 1).last() == vals[i as int]);
                assert(v == vals[i as int]);
            }
            match v {
                Some(x) => {
                    assert(sum + x <= (count + 1) * u64::MAX) by (nonlinear_arith)
                        requires
                            sum <= count * u64::MAX,
                            x <= u64::MAX,
                    ;
                    sum = sum + x as u128;
                    count = count + 1;
                },
                None => {},
            }
            i = i + 1;
        }
        proof {
            assert(vals.subrange(0, n as int) =~= vals);
        }
        if count == 0 {
            return None;
        }
        assert(sum / (count as u128) <= u64::MAX) by (nonlinear_arith)
            requires
                sum <= count * u64::MAX,
                count > 0,
        ;
        Some((sum / (count as u128)) as u64)
    }

    /// Mean PC-side latency over the recent frames (µs).
    pub fn avg_pc_latency_us(&self) -> (r: Option<u64>)
        ensures
            r == mean_some(self.history_spec().map_values(|ts: FrameTimestamps| pc_latency_spec(ts))),
    {
        let r = self.mean_over(true);
        proof {
            assert(latencies(self.history@, true) =~= self.history_spec().map_values(
                |ts: FrameTimestamps| pc_latency_spec(ts),
            ));
        }
        r
    }

    /// Mean encode latency over the recent frames (µs).
    pub fn avg_encode_latency_us(&self) -> (r: Option<u64>)
        ensures
            r == mean_some(self.history_spec().map_values(|ts: FrameTimestamps| encode_latency_spec(ts))),
    {
        let r = self.mean_over(false);
        proof {
            assert(latencies(self.history@, false) =~= self.history_spec().map_values(
                |ts: FrameTimestamps| encode_latency_spec(ts),
            ));
        }
        r
    }

    pub fn frame_count(&self) -> (r: usize)
        ensures
            r == self.history_spec().len(),
    {
        self.history.len()
    }
}

} // verus!

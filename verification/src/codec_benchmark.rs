//! Choosing between H.265 and H.264 from the headset's decode latencies:
//! five seconds of H.265 samples, five of H.264, then the codec with the
//! lower mean decode latency (H.265 on a tie or without H.264 samples).

use vstd::prelude::*;
use crate::metrics::latency::clock_us;

verus! {

#[derive(Debug, Clone, Copy, PartialEq, Eq, Structural)]
pub enum BenchPhase {
    NotStarted,
    TestingHevc,
    TestingH264,
    Complete,
}

#[derive(Debug, Clone, Copy, PartialEq, Eq, Structural)]
pub enum CodecChoice {
    Hevc,
    H264,
}

/// Microseconds each codec is tested.
pub const PHASE_DURATION_US: u64 = 5_000_000;

pub open spec fn sum_u32(s: Seq<u32>) -> nat
    decreases s.len(),
{
    if s.len() == 0 {
        0
    } else {
        sum_u32(s.drop_last()) + s.last() as nat
    }
}

/// Integer mean of the samples, 0 for none.
pub open spec fn mean_u32(s: Seq<u32>) -> u32 {
    if s.len() == 0 {
        0
    } else {
        (sum_u32(s) / s.len()) as u32
    }
}

proof fn lemma_sum_u32_bound(s: Seq<u32>)
    ensures
        sum_u32(s) <= s.len() * u32::MAX,
    decreases s.len(),
{
    if s.len() > 0 {
        lemma_sum_u32_bound(s.drop_last());
    }
}

proof fn lemma_sum_u32_between(s: Seq<u32>, lo: u32, hi: u32)
    requires
        forall|i: int| 0 <= i < s.len() ==> lo <= #[trigger] s[i] <= hi,
    ensures
        s.len() * lo <= sum_u32(s) <= s.len() * hi,
    decreases s.len(),
{
    if s.len() > 0 {
        assert forall|i: int| 0 <= i < s.drop_last().len() implies lo <= #[trigger] s.drop_last()[i] <= hi by {
            assert(s.drop_last()[i] == s[i]);
        }
        lemma_sum_u32_between(s.drop_last(), lo, hi);
        assert(s.last() == s[s.len() - 1]);
        assert((s.len() - 1) * lo + lo == s.len() * lo) by (nonlinear_arith);
        assert((s.len() - 1) * hi + hi == s.len() * hi) by (nonlinear_arith);
    }
}

/// The mean lies within the samples' range: if every sample is between
/// `lo` and `hi`, so is the mean (the mean of equal samples is that value).
pub proof fn lemma_mean_within_samples(s: Seq<u32>, lo: u32, hi: u32)
    requires
        s.len() > 0,
        forall|i: int| 0 <= i < s.len() ==> lo <= #[trigger] s[i] <= hi,
    ensures
        lo <= mean_u32(s) <= hi,
{
    lemma_sum_u32_between(s, lo, hi);
    let n: int = s.len() as int;
    let t: int = sum_u32(s) as int;
    vstd::arithmetic::div_mod::lemma_div_is_ordered(n * lo, t, n);
    vstd::arithmetic::div_mod::lemma_div_is_ordered(t, n * hi, n);
    vstd::arithmetic::mul::lemma_mul_is_commutative(n, lo as int);
    vstd::arithmetic::mul::lemma_mul_is_commutative(n, hi as int);
    vstd::arithmetic::div_mod::lemma_div_by_multiple(lo as int, n);
    vstd::arithmetic::div_mod::lemma_div_by_multiple(hi as int, n);
}

/// Integer mean of decode latency samples, 0 for none.
pub fn sample_avg(samples: &[u32]) -> (r: u32)
    ensures
        r == mean_u32(samples@),
{
    let n = samples.len();
    if n == 0 {
        return 0;
    }
    let mut sum: u128 = 0;
    let mut i: usize = 0;
    while i < n
        invariant
            n == samples@.len(),
            i <= n,
            sum == sum_u32(samples@.subrange(0, i as int)),
            sum <= i * u32::MAX,
        decreases n - i,
    {
        proof {
            assert(samples@.subrange(0, i + 1).drop_last() =~= samples@.subrange(0, i as int));
        }
        sum = sum + samples[i] as u128;
        i = i + 1;
    }
    proof {
        assert(samples@.subrange(0, n as int) =~= samples@);
    }
    assert(sum / (n as u128) <= u32::MAX) by (nonlinear_arith)
        requires
            sum <= n * u32::MAX,
            n > 0,
    ;
    (sum / (n as u128)) as u32
}

/// The smallest sample, 0 for none.
pub open spec fn min_u32(s: Seq<u32>) -> u32
    decreases s.len(),
{
    if s.len() == 0 {
        0
    } else if s.len() == 1 {
        s[0]
    } else {
        let m = min_u32(s.drop_last());
        if s.last() < m { s.last() } else { m }
    }
}

/// The largest sample, 0 for none.
pub open spec fn max_u32(s: Seq<u32>) -> u32
    decreases s.len(),
{
    if s.len() == 0 {
        0
    } else if s.len() == 1 {
        s[0]
    } else {
        let m = max_u32(s.drop_last());
        if s.last() > m { s.last() } else { m }
    }
}

/// Smallest and largest of the samples, `(0, 0)` for none.
pub fn sample_min_max(samples: &[u32]) -> (r: (u32, u32))
    ensures
        r == (min_u32(samples@), max_u32(samples@)),
{
    let n = samples.len();
    if n == 0 {
        return (0, 0);
    }
    let mut lo = samples[0];
    let mut hi = samples[0];
    let mut i: usize = 1;
    proof {
        assert(samples@.subrange(0, 1) =~= seq![samples@[0]]);
    }
    while i < n
        invariant
            n == samples@.len(),
            1 <= i <= n,
            lo == min_u32(samples@.subrange(0, i as int)),
            hi == max_u32(samples@.subrange(0, i as int)),
        decreases n - i,
    {
        proof {
            assert(samples@.subrange(0, i + 1).drop_last() =~= samples@.subrange(0, i as int));
        }
        let x = samples[i];
        if x < lo {
            lo = x;
        }
        if x > hi {
            hi = x;
        }
        i = i + 1;
    }
    proof {
        assert(samples@.subrange(0, n as int) =~= samples@);
    }
    (lo, hi)
}

/// The codec chosen from the two sample sets: H.264 only when it has
/// samples and a strictly lower mean.
pub open spec fn choose_codec(hevc: Seq<u32>, h264: Seq<u32>) -> CodecChoice {
    if mean_u32(h264) < mean_u32(hevc) && h264.len() > 0 {
        CodecChoice::H264
    } else {
        CodecChoice::Hevc
    }
}

/// The faster codec wins: H.264 is chosen only with samples and a strictly
/// lower mean decode latency than H.265; when H.265's mean is lower or
/// equal, or H.264 has no samples, H.265 is kept.
pub proof fn lemma_choose_faster_codec(hevc: Seq<u32>, h264: Seq<u32>)
    ensures
        choose_codec(hevc, h264) == CodecChoice::H264 ==> h264.len() > 0 && mean_u32(h264) < mean_u32(hevc),
        h264.len() > 0 && mean_u32(h264) < mean_u32(hevc) ==> choose_codec(hevc, h264) == CodecChoice::H264,
        mean_u32(hevc) <= mean_u32(h264) ==> choose_codec(hevc, h264) == CodecChoice::Hevc,
        h264.len() == 0 ==> choose_codec(hevc, h264) == CodecChoice::Hevc,
{
}

/// Abstract benchmark state.
pub struct BenchView {
    pub phase: BenchPhase,
    pub phase_start_us: Option<u64>,
    pub phase_duration_us: u64,
    pub hevc: Seq<u32>,
    pub h264: Seq<u32>,
    pub result: Option<CodecChoice>,
}

pub open spec fn phase_over(v: BenchView, now_us: u64) -> bool {
    v.phase_start_us matches Some(s) && (if now_us >= s { now_us - s } else { 0 }) >= v.phase_duration_us
}

/// One tick at `now_us`: the codec to use right now. The H.265 phase hands
/// over to H.264 once its time is up; the H.264 phase then completes with
/// `choose_codec`.
pub open spec fn tick_step(v: BenchView, now_us: u64) -> (BenchView, Option<CodecChoice>) {
    match v.phase {
        BenchPhase::NotStarted => (v, None),
        BenchPhase::TestingHevc => if phase_over(v, now_us) {
            (BenchView { phase: BenchPhase::TestingH264, phase_start_us: Some(now_us), ..v }, Some(CodecChoice::H264))
        } else {
            (v, Some(CodecChoice::Hevc))
        },
        BenchPhase::TestingH264 => if phase_over(v, now_us) {
            let c = choose_codec(v.hevc, v.h264);
            (BenchView { phase: BenchPhase::Complete, result: Some(c), ..v }, Some(c))
        } else {
            (v, Some(CodecChoice::H264))
        },
        BenchPhase::Complete => (v, v.result),
    }
}

/// One sample recorded: it joins the samples of the codec under test;
/// outside a test phase nothing changes.
pub open spec fn sample_step(v: BenchView, x: u32) -> BenchView {
    match v.phase {
        BenchPhase::TestingHevc => BenchView { hevc: v.hevc.push(x), ..v },
        BenchPhase::TestingH264 => BenchView { h264: v.h264.push(x), ..v },
        _ => v,
    }
}

/// A (re)start at `now_us`: the H.265 phase, with no samples and no result.
pub open spec fn start_step(v: BenchView, now_us: u64) -> BenchView {
    BenchView {
        phase: BenchPhase::TestingHevc,
        phase_start_us: Some(now_us),
        phase_duration_us: v.phase_duration_us,
        hevc: Seq::empty(),
        h264: Seq::empty(),
        result: None,
    }
}

/// The benchmark before it starts.
pub open spec fn bench_initial() -> BenchView {
    BenchView {
        phase: BenchPhase::NotStarted,
        phase_start_us: None,
        phase_duration_us: PHASE_DURATION_US,
        hevc: Seq::empty(),
        h264: Seq::empty(),
        result: None,
    }
}

/// A benchmark has a result exactly when it is complete.
pub open spec fn bench_wf(v: BenchView) -> bool {
    (v.phase == BenchPhase::Complete) == (v.result is Some)
}

/// What happens to a benchmark between starts: a tick at a time, or a
/// sample.
pub enum BenchEvent {
    Tick(u64),
    Sample(u32),
}

/// The benchmark after `events`, with what each tick returned (`None` for
/// samples).
pub open spec fn bench_run(v: BenchView, events: Seq<BenchEvent>) -> (BenchView, Seq<Option<CodecChoice>>)
    decreases events.len(),
{
    if events.len() == 0 {
        (v, Seq::empty())
    } else {
        let (w, outs) = bench_run(v, events.drop_last());
        match events.last() {
            BenchEvent::Tick(now_us) => {
                let (w2, o) = tick_step(w, now_us);
                (w2, outs.push(o))
            },
            BenchEvent::Sample(x) => (sample_step(w, x), outs.push(None)),
        }
    }
}

/// Complete exactly when there is a result: so it is at the start, and
/// every tick, sample, (re)start or change of phase length keeps it so.
pub proof fn lemma_bench_complete_iff_result(v: BenchView, now_us: u64, x: u32, us: u64)
    ensures
        bench_wf(bench_initial()),
        bench_wf(v) ==> bench_wf(tick_step(v, now_us).0),
        bench_wf(v) ==> bench_wf(sample_step(v, x)),
        bench_wf(start_step(v, now_us)),
        bench_wf(v) ==> bench_wf(BenchView { phase_duration_us: us, ..v }),
{
}

/// The tick that ends the H.264 phase completes the benchmark with the
/// codec of lower mean decode latency over the samples recorded in each
/// phase (H.265 on a tie or without H.264 samples), and returns it.
pub proof fn lemma_bench_completes_with_faster(v: BenchView, now_us: u64)
    requires
        v.phase == BenchPhase::TestingH264,
        phase_over(v, now_us),
    ensures
        ({
            let (w, r) = tick_step(v, now_us);
            &&& w.phase == BenchPhase::Complete
            &&& r == w.result
            &&& (w.result == Some(CodecChoice::H264) <==> (v.h264.len() > 0 && mean_u32(v.h264) < mean_u32(
                v.hevc,
            )))
            &&& (w.result == Some(CodecChoice::Hevc) <==> !(v.h264.len() > 0 && mean_u32(v.h264) < mean_u32(
                v.hevc,
            )))
        }),
{
}

/// A completed benchmark keeps its result: whatever ticks and samples
/// follow (without a restart), it does not change, and every tick returns
/// that result.
pub proof fn lemma_bench_result_stays(v: BenchView, events: Seq<BenchEvent>)
    requires
        v.phase == BenchPhase::Complete,
    ensures
        bench_run(v, events).0 == v,
        bench_run(v, events).1.len() == events.len(),
        forall|i: int| 0 <= i < events.len() && (#[trigger] events[i]) is Tick ==> bench_run(v, events).1[i] == v.result,
    decreases events.len(),
{
    if events.len() > 0 {
        lemma_bench_result_stays(v, events.drop_last());
        let outs = bench_run(v, events).1;
        let prev = bench_run(v, events.drop_last()).1;
        assert forall|i: int| 0 <= i < events.len() && (#[trigger] events[i]) is Tick implies outs[i] == v.result by {
            if i < events.len() - 1 {
                assert(events.drop_last()[i] == events[i]);
                assert(outs[i] == prev[i]);
            }
        }
    }
}

/// The codec benchmark state machine.
pub struct CodecBenchmark {
    phase: BenchPhase,
    phase_start_us: Option<u64>,
    phase_duration_us: u64,
    hevc_samples: Vec<u32>,
    h264_samples: Vec<u32>,
    result: Option<CodecChoice>,
}

impl CodecBenchmark {
    pub closed spec fn view(&self) -> BenchView {
        BenchView {
            phase: self.phase,
            phase_start_us: self.phase_start_us,
            phase_duration_us: self.phase_duration_us,
            hevc: self.hevc_samples@,
            h264: self.h264_samples@,
            result: self.result,
        }
    }

    pub fn new() -> (r: Self)
        ensures
            r.view() == bench_initial(),
    {
        CodecBenchmark {
            phase: BenchPhase::NotStarted,
            phase_start_us: None,
            phase_duration_us: PHASE_DURATION_US,
            hevc_samples: Vec::with_capacity(450),
            h264_samples: Vec::with_capacity(450),
            result: None,
        }
    }

    /// Test each codec for `us` microseconds instead.
    pub fn set_phase_duration_us(&mut self, us: u64)
        ensures
            final(self).view() == (BenchView { phase_duration_us: us, ..old(self).view() }),
    {
        self.phase_duration_us = us;
    }

    /// Start (or restart) the sequence at `now_us` with H.265.
    pub fn start_at(&mut self, now_us: u64)
        ensures
            final(self).view() == start_step(old(self).view(), now_us),
    {
        self.phase = BenchPhase::TestingHevc;
        self.phase_start_us = Some(now_us);
        self.hevc_samples.clear();
        self.h264_samples.clear();
        self.result = None;
    }

    /// Start the sequence now.
    pub fn start(&mut self)
        ensures
            final(self).view().phase == BenchPhase::TestingHevc,
            final(self).view().phase_start_us is Some,
            final(self).view().phase_duration_us == old(self).view().phase_duration_us,
            final(self).view().hevc.len() == 0,
            final(self).view().h264.len() == 0,
            final(self).view().result is None,
    {
        self.start_at(clock_us());
    }

    /// Record a decode latency sample for the codec under test.
    pub fn record_sample(&mut self, decode_latency_us: u32)
        ensures
            final(self).view() == sample_step(old(self).view(), decode_latency_us),
    {
        match self.phase {
            BenchPhase::TestingHevc => self.hevc_samples.push(decode_latency_us),
            BenchPhase::TestingH264 => self.h264_samples.push(decode_latency_us),
            _ => {},
        }
    }

    /// Advance at `now_us` (see `tick_step`).
    pub fn tick_at(&mut self, now_us: u64) -> (r: Option<CodecChoice>)
        ensures
            (final(self).view(), r) == tick_step(old(self).view(), now_us),
    {
        let over = match self.phase_start_us {
            Some(s) => now_us.saturating_sub(s) >= self.phase_duration_us,
            None => false,
        };
        match self.phase {
            BenchPhase::NotStarted => None,
            BenchPhase::TestingHevc => {
                if over {
                    self.phase = BenchPhase::TestingH264;
                    self.phase_start_us = Some(now_us);
                    return Some(CodecChoice::H264);
                }
                Some(CodecChoice::Hevc)
            },
            BenchPhase::TestingH264 => {
                if over {
                    self.finalize();
                    return self.result;
                }
                Some(CodecChoice::H264)
            },
            BenchPhase::Complete => self.result,
        }
    }

    /// Advance now: the codec to use right now.
    pub fn tick(&mut self) -> (r: Option<CodecChoice>)
        ensures
            exists|now_us: u64| (final(self).view(), r) == tick_step(old(self).view(), now_us),
    {
        self.tick_at(clock_us())
    }

    pub fn is_complete(&self) -> (r: bool)
        ensures
            r == (self.view().phase == BenchPhase::Complete),
    {
        match self.phase {
            BenchPhase::Complete => true,
            _ => false,
        }
    }

    pub fn result(&self) -> (r: Option<CodecChoice>)
        ensures
            r == self.view().result,
    {
        self.result
    }

    pub fn phase(&self) -> (r: BenchPhase)
        ensures
            r == self.view().phase,
    {
        self.phase
    }

    /// The H.265 decode latency samples.
    pub fn hevc_samples(&self) -> (r: &[u32])
        ensures
            r@ == self.view().hevc,
    {
        self.hevc_samples.as_slice()
    }

    /// The H.264 decode latency samples.
    pub fn h264_samples(&self) -> (r: &[u32])
        ensures
            r@ == self.view().h264,
    {
        self.h264_samples.as_slice()
    }

    fn finalize(&mut self)
        ensures
            final(self).view() == (BenchView {
                phase: BenchPhase::Complete,
                result: Some(choose_codec(old(self).view().hevc, old(self).view().h264)),
                ..old(self).view()
            }),
    {
        let hevc_avg = sample_avg(self.hevc_samples.as_slice());
        let h264_avg = sample_avg(self.h264_samples.as_slice());
        self.result = if h264_avg < hevc_avg && self.h264_samples.len() > 0 {
            Some(CodecChoice::H264)
        } else {
            Some(CodecChoice::Hevc)
        };
        self.phase = BenchPhase::Complete;
    }
}

} // verus!

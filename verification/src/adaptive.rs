//! Adaptive bitrate: loss-pattern tracking, and the arbitration between the
//! network signals, the thermal ceiling and the bitrate bounds.
//! Signals arrive already compared against their thresholds.

use vstd::prelude::*;
use crate::metrics::latency::clock_us;

verus! {

/// Classification of the current loss pattern.
#[derive(Debug, Clone, Copy, PartialEq, Eq, Structural)]
pub enum LossPattern {
    /// No significant loss.
    NoLoss,
    /// Transient burst: more FEC, not less bitrate.
    Burst,
    /// Sustained loss: less bitrate.
    Sustained,
}

/// State of the delay trend detector.
#[derive(Debug, Clone, Copy, PartialEq, Eq, Structural)]
pub enum DelayTrend {
    Normal,
    Increasing,
    Overuse,
}

/// Which signal decided an arbitrated bitrate.
#[derive(Debug, Clone, Copy, PartialEq, Eq, Structural)]
pub enum ArbDominant {
    /// No change requested.
    NoChange,
    /// Sustained loss: -20%.
    Sustained,
    /// Loss-based reduction.
    Loss,
    /// Delay-based reduction.
    Delay,
    /// The thermal ceiling clamped the target.
    Thermal,
    /// Hysteresis-gated step up: +5%.
    Increase,
    /// The floor raised the target.
    Floor,
}

#[derive(Debug, Clone, Copy, PartialEq, Eq, Structural)]
pub struct ArbitrationOutcome {
    pub target_bps: u64,
    pub dominant: ArbDominant,
}

/// A bitrate change the network signals ask for.
#[derive(Debug, Clone, Copy, PartialEq, Eq, Structural)]
pub enum RateStep {
    /// x1.00
    Hold,
    /// x0.95
    Down5,
    /// x0.90
    Down10,
    /// x0.80
    Down20,
    /// x1.05
    Up5,
}

/// The network signals of one arbitration, each compared against its
/// threshold by the caller.
#[derive(Debug, Clone, Copy)]
pub struct NetworkSignals {
    pub burst: LossPattern,
    /// Filtered delay gradient above 2 ms.
    pub delay_overuse: bool,
    /// Loss above 5%.
    pub loss_high: bool,
    /// Loss above the target loss rate.
    pub loss_above_target: bool,
    /// Loss below 1%.
    pub loss_low: bool,
    /// The upward-adjustment cooldown has passed.
    pub hysteresis_elapsed: bool,
}

/// The step the network signals ask for, and the signal behind it; `None`
/// during a burst (FEC absorbs it, the bitrate holds). Sustained loss cuts
/// 20%; otherwise the strongest of delay (-10%), high loss (-20%) and loss
/// above target (-5%) applies; with none of them, a calm link past the
/// cooldown steps up 5%.
pub open spec fn rate_step_spec(s: NetworkSignals) -> Option<(RateStep, ArbDominant)> {
    if s.burst == LossPattern::Burst {
        None
    } else {
        let (m, d) = if s.burst == LossPattern::Sustained {
            (RateStep::Down20, ArbDominant::Sustained)
        } else if s.loss_high {
            (RateStep::Down20, ArbDominant::Loss)
        } else if s.delay_overuse {
            (RateStep::Down10, ArbDominant::Delay)
        } else if s.loss_above_target {
            (RateStep::Down5, ArbDominant::Loss)
        } else {
            (RateStep::Hold, ArbDominant::NoChange)
        };
        if m == RateStep::Hold && s.hysteresis_elapsed && s.loss_low {
            Some((RateStep::Up5, ArbDominant::Increase))
        } else {
            Some((m, d))
        }
    }
}

/// What each network signal does to the bitrate: a burst holds it for FEC
/// to absorb; sustained loss and high loss cut 20%; otherwise delay overuse
/// cuts 10% whatever the loss below 5% and the cooldown; loss above target
/// alone cuts 5%; only a link with none of these, loss under 1% and the
/// cooldown over is raised 5%; anything else holds.
pub proof fn lemma_rate_step_signals(s: NetworkSignals)
    ensures
        s.burst == LossPattern::Burst ==> rate_step_spec(s) is None,
        s.burst == LossPattern::Sustained ==> rate_step_spec(s) == Some(
            (RateStep::Down20, ArbDominant::Sustained),
        ),
        s.burst == LossPattern::NoLoss && s.loss_high ==> rate_step_spec(s) == Some(
            (RateStep::Down20, ArbDominant::Loss),
        ),
        s.burst == LossPattern::NoLoss && !s.loss_high && s.delay_overuse ==> rate_step_spec(s) == Some(
            (RateStep::Down10, ArbDominant::Delay),
        ),
        s.burst == LossPattern::NoLoss && !s.loss_high && !s.delay_overuse && s.loss_above_target
            ==> rate_step_spec(s) == Some((RateStep::Down5, ArbDominant::Loss)),
        (rate_step_spec(s) matches Some((step, _)) && step == RateStep::Up5) <==> (s.burst == LossPattern::NoLoss
            && !s.loss_high && !s.delay_overuse && !s.loss_above_target && s.loss_low && s.hysteresis_elapsed),
        rate_step_spec(s) matches Some((step, dom)) ==> (step == RateStep::Up5 <==> dom == ArbDominant::Increase),
        s.delay_overuse && s.burst != LossPattern::Burst ==> (rate_step_spec(s) matches Some((step, _)) && (step
            == RateStep::Down10 || step == RateStep::Down20)),
        s.burst == LossPattern::NoLoss && !s.loss_high && !s.delay_overuse && !s.loss_above_target && !(s.loss_low
            && s.hysteresis_elapsed) ==> rate_step_spec(s) == Some((RateStep::Hold, ArbDominant::NoChange)),
{
}

/// The step the network signals ask for (see `rate_step_spec`).
pub fn choose_rate_step(s: &NetworkSignals) -> (r: Option<(RateStep, ArbDominant)>)
    ensures
        r == rate_step_spec(*s),
{
    if s.burst == LossPattern::Burst {
        return None;
    }
    let mut step = RateStep::Hold;
    let mut dom = ArbDominant::NoChange;
    if s.burst == LossPattern::Sustained {
        step = RateStep::Down20;
        dom = ArbDominant::Sustained;
    } else {
        if s.delay_overuse {
            step = RateStep::Down10;
            dom = ArbDominant::Delay;
        }
        if s.loss_high {
            step = RateStep::Down20;
            dom = ArbDominant::Loss;
        } else if s.loss_above_target {
            if step == RateStep::Hold {
                step = RateStep::Down5;
                dom = ArbDominant::Loss;
            }
        }
    }
    if step == RateStep::Hold && s.hysteresis_elapsed && s.loss_low {
        step = RateStep::Up5;
        dom = ArbDominant::Increase;
    }
    Some((step, dom))
}

/// The cap in force: the hard maximum, lowered by a thermal ceiling.
pub open spec fn effective_max(hard_max: u64, thermal: Option<u64>) -> u64 {
    match thermal {
        Some(t) => if t < hard_max { t } else { hard_max },
        None => hard_max,
    }
}

/// The candidate within `[min, effective_max]`, the floor winning over any
/// cap below it.
pub open spec fn clamp_with_thermal_spec(candidate: u64, min: u64, hard_max: u64, thermal: Option<u64>) -> u64 {
    let m = effective_max(hard_max, thermal);
    let capped = if candidate < m { candidate } else { m };
    if capped > min { capped } else { min }
}

/// Apply the floor / hard maximum / thermal ceiling stack. The floor wins:
/// even a thermal ceiling below `min` cannot push the target under it.
pub fn clamp_with_thermal(candidate: u64, min: u64, hard_max: u64, thermal: Option<u64>) -> (r: u64)
    ensures
        r == clamp_with_thermal_spec(candidate, min, hard_max, thermal),
        r >= min,
        r <= candidate || r == min,
        r <= effective_max(hard_max, thermal) || r == min,
{
    let m = match thermal {
        Some(t) => if t < hard_max {
            t
        } else {
            hard_max
        },
        None => hard_max,
    };
    let capped = if candidate < m {
        candidate
    } else {
        m
    };
    if capped > min {
        capped
    } else {
        min
    }
}

/// Which signal won after clamping: the floor if it raised the candidate,
/// the thermal ceiling if it is what cut it, else the network's signal.
pub open spec fn clamp_dominant_spec(candidate: u64, target: u64, thermal: Option<u64>, network: ArbDominant) -> ArbDominant {
    if target > candidate {
        ArbDominant::Floor
    } else if thermal matches Some(t) && target == t && t < candidate {
        ArbDominant::Thermal
    } else {
        network
    }
}

pub fn decide_clamp_dominant(candidate: u64, target: u64, thermal: Option<u64>, network: ArbDominant) -> (r: ArbDominant)
    ensures
        r == clamp_dominant_spec(candidate, target, thermal, network),
{
    if target > candidate {
        return ArbDominant::Floor;
    }
    match thermal {
        Some(t) => if target == t && t < candidate {
            return ArbDominant::Thermal;
        },
        None => {},
    }
    network
}

/// The clamped target never leaves the floor or (unless the floor is above
/// it) the maximum and thermal ceiling, and never rises above the candidate
/// unless the floor lifts it; the floor is named exactly when it lifted the
/// candidate, the thermal ceiling only when the target is that ceiling
/// below the candidate, and the network's signal (never one of those two)
/// when neither bit.
pub proof fn lemma_arbitration_clamp(candidate: u64, min: u64, hard_max: u64, thermal: Option<u64>, network: ArbDominant)
    requires
        network != ArbDominant::Floor,
        network != ArbDominant::Thermal,
    ensures
        clamp_with_thermal_spec(candidate, min, hard_max, thermal) >= min,
        clamp_with_thermal_spec(candidate, min, hard_max, thermal) <= hard_max || clamp_with_thermal_spec(
            candidate,
            min,
            hard_max,
            thermal,
        ) == min,
        thermal matches Some(c) ==> clamp_with_thermal_spec(candidate, min, hard_max, thermal) <= c
            || clamp_with_thermal_spec(candidate, min, hard_max, thermal) == min,
        clamp_with_thermal_spec(candidate, min, hard_max, thermal) <= candidate || clamp_with_thermal_spec(
            candidate,
            min,
            hard_max,
            thermal,
        ) == min,
        min <= candidate <= effective_max(hard_max, thermal) ==> clamp_with_thermal_spec(
            candidate,
            min,
            hard_max,
            thermal,
        ) == candidate,
        (clamp_dominant_spec(candidate, clamp_with_thermal_spec(candidate, min, hard_max, thermal), thermal, network)
            == ArbDominant::Floor) <==> clamp_with_thermal_spec(candidate, min, hard_max, thermal) > candidate,
        clamp_dominant_spec(candidate, clamp_with_thermal_spec(candidate, min, hard_max, thermal), thermal, network)
            == ArbDominant::Thermal ==> thermal == Some(clamp_with_thermal_spec(candidate, min, hard_max, thermal))
            && clamp_with_thermal_spec(candidate, min, hard_max, thermal) < candidate,
        clamp_with_thermal_spec(candidate, min, hard_max, thermal) == candidate ==> clamp_dominant_spec(
            candidate,
            candidate,
            thermal,
            network,
        ) == network,
{
}

/// Clamp a network-derived candidate and name the signal that decided it.
pub fn finish_arbitration(candidate: u64, min: u64, hard_max: u64, thermal: Option<u64>, network: ArbDominant) -> (r: ArbitrationOutcome)
    ensures
        r.target_bps == clamp_with_thermal_spec(candidate, min, hard_max, thermal),
        r.dominant == clamp_dominant_spec(candidate, r.target_bps, thermal, network),
{
    let target = clamp_with_thermal(candidate, min, hard_max, thermal);
    let dominant = decide_clamp_dominant(candidate, target, thermal, network);
    ArbitrationOutcome { target_bps: target, dominant }
}

/// Abstract state of a burst detector.
pub struct BurstView {
    pub pattern: LossPattern,
    pub burst_start_us: Option<u64>,
}

/// Loss that lasts longer than this is sustained.
pub const SUSTAINED_THRESHOLD_US: u64 = 500_000;

/// One loss measurement at `now_us`: the first lossy one starts a burst, a
/// lossy one more than `SUSTAINED_THRESHOLD_US` after the start makes it
/// sustained, a clean one ends it.
pub open spec fn burst_step(v: BurstView, lossy: bool, now_us: u64) -> BurstView {
    if lossy {
        match v.burst_start_us {
            None => BurstView { pattern: LossPattern::Burst, burst_start_us: Some(now_us) },
            Some(s) => if (if now_us >= s { now_us - s } else { 0 }) > SUSTAINED_THRESHOLD_US {
                BurstView { pattern: LossPattern::Sustained, burst_start_us: v.burst_start_us }
            } else {
                v
            },
        }
    } else if v.burst_start_us is Some {
        BurstView { pattern: LossPattern::NoLoss, burst_start_us: None }
    } else {
        v
    }
}

/// Tells transient burst loss from sustained congestion.
pub struct BurstDetector {
    pattern: LossPattern,
    burst_start_us: Option<u64>,
}

impl BurstDetector {
    pub closed spec fn view(&self) -> BurstView {
        BurstView { pattern: self.pattern, burst_start_us: self.burst_start_us }
    }

    pub fn new() -> (r: Self)
        ensures
            r.view() == (BurstView { pattern: LossPattern::NoLoss, burst_start_us: None }),
    {
        BurstDetector { pattern: LossPattern::NoLoss, burst_start_us: None }
    }

    /// Record whether the interval ending at `now_us` was lossy (at or
    /// above the burst loss threshold); see `burst_step`.
    pub fn record_at(&mut self, lossy: bool, now_us: u64)
        ensures
            final(self).view() == burst_step(old(self).view(), lossy, now_us),
    {
        if lossy {
            match self.burst_start_us {
                None => {
                    self.burst_start_us = Some(now_us);
                    self.pattern = LossPattern::Burst;
                },
                Some(start) => {
                    if now_us.saturating_sub(start) > SUSTAINED_THRESHOLD_US {
                        self.pattern = LossPattern::Sustained;
                    }
                },
            }
        } else if self.burst_start_us.is_some() {
            self.burst_start_us = None;
            self.pattern = LossPattern::NoLoss;
        }
    }

    /// Record whether the interval ending now was lossy.
    pub fn record(&mut self, lossy: bool)
        ensures
            exists|now_us: u64| final(self).view() == burst_step(old(self).view(), lossy, now_us),
    {
        self.record_at(lossy, clock_us());
    }

    pub fn pattern(&self) -> (r: LossPattern)
        ensures
            r == self.view().pattern,
    {
        self.pattern
    }

    pub fn recommend_fec_boost(&self) -> (r: bool)
        ensures
            r == (self.view().pattern == LossPattern::Burst),
    {
        self.pattern == LossPattern::Burst
    }

    pub fn recommend_bitrate_reduction(&self) -> (r: bool)
        ensures
            r == (self.view().pattern == LossPattern::Sustained),
    {
        self.pattern == LossPattern::Sustained
    }
}

/// Floor of the adaptive bitrate.
pub const MIN_BITRATE_BPS: u64 = 10_000_000;

/// Ceiling of the adaptive bitrate.
pub const MAX_BITRATE_BPS: u64 = 200_000_000;

/// Minimum time between upward adjustments.
pub const HYSTERESIS_US: u64 = 10_000_000;

/// Abstract state of a bitrate controller.
pub struct BitrateView {
    pub current_bps: u64,
    pub min_bps: u64,
    pub max_bps: u64,
    pub thermal_ceiling_bps: Option<u64>,
    pub last_adjustment_us: u64,
    pub hysteresis_us: u64,
    pub last_decision: ArbDominant,
}

/// Adaptive bitrate controller state: the live bitrate, its bounds, the
/// thermal ceiling, and the cooldown between upward steps.
pub struct BitrateController {
    current_bitrate_bps: u64,
    min_bitrate_bps: u64,
    max_bitrate_bps: u64,
    thermal_ceiling_bps: Option<u64>,
    last_adjustment_us: u64,
    hysteresis_us: u64,
    last_decision: ArbDominant,
}

/// The cooldown has passed at `now_us`: strictly more than
/// `hysteresis_us` since the last change (a clock that went backwards
/// counts as no time).
pub open spec fn cooldown_passed(v: BitrateView, now_us: u64) -> bool {
    (if now_us >= v.last_adjustment_us {
        now_us - v.last_adjustment_us
    } else {
        0
    }) > v.hysteresis_us
}

impl BitrateController {
    pub closed spec fn view(&self) -> BitrateView {
        BitrateView {
            current_bps: self.current_bitrate_bps,
            min_bps: self.min_bitrate_bps,
            max_bps: self.max_bitrate_bps,
            thermal_ceiling_bps: self.thermal_ceiling_bps,
            last_adjustment_us: self.last_adjustment_us,
            hysteresis_us: self.hysteresis_us,
            last_decision: self.last_decision,
        }
    }

    /// A controller at `initial_bitrate_mbps`, bounded by 10 and 200 Mbps,
    /// whose cooldown of `hysteresis_us` starts at `now_us`.
    pub fn new_at(initial_bitrate_mbps: u32, hysteresis_us: u64, now_us: u64) -> (r: Self)
        ensures
            r.view() == (BitrateView {
                current_bps: (initial_bitrate_mbps * 1_000_000) as u64,
                min_bps: MIN_BITRATE_BPS,
                max_bps: MAX_BITRATE_BPS,
                thermal_ceiling_bps: None,
                last_adjustment_us: now_us,
                hysteresis_us,
                last_decision: ArbDominant::NoChange,
            }),
    {
        BitrateController {
            current_bitrate_bps: initial_bitrate_mbps as u64 * 1_000_000,
            min_bitrate_bps: MIN_BITRATE_BPS,
            max_bitrate_bps: MAX_BITRATE_BPS,
            thermal_ceiling_bps: None,
            last_adjustment_us: now_us,
            hysteresis_us,
            last_decision: ArbDominant::NoChange,
        }
    }

    /// A controller at `initial_bitrate_mbps` with the 10 s cooldown.
    pub fn new(initial_bitrate_mbps: u32) -> (r: Self)
        ensures
            r.view().current_bps == initial_bitrate_mbps * 1_000_000,
            r.view().min_bps == MIN_BITRATE_BPS,
            r.view().max_bps == MAX_BITRATE_BPS,
            r.view().thermal_ceiling_bps is None,
            r.view().hysteresis_us == HYSTERESIS_US,
            r.view().last_decision == ArbDominant::NoChange,
    {
        Self::new_at(initial_bitrate_mbps, HYSTERESIS_US, clock_us())
    }

    /// A controller with another cooldown.
    pub fn new_with_hysteresis_us(initial_bitrate_mbps: u32, hysteresis_us: u64) -> (r: Self)
        ensures
            r.view().current_bps == initial_bitrate_mbps * 1_000_000,
            r.view().hysteresis_us == hysteresis_us,
            r.view().thermal_ceiling_bps is None,
    {
        Self::new_at(initial_bitrate_mbps, hysteresis_us, clock_us())
    }

    /// Whether the cooldown has passed at `now_us` (strictly more than it).
    pub fn hysteresis_elapsed_at(&self, now_us: u64) -> (r: bool)
        ensures
            r == cooldown_passed(self.view(), now_us),
    {
        now_us.saturating_sub(self.last_adjustment_us) > self.hysteresis_us
    }

    /// Whether the cooldown has passed now.
    pub fn hysteresis_elapsed(&self) -> (r: bool)
        ensures
            exists|now_us: u64| r == #[trigger] cooldown_passed(self.view(), now_us),
    {
        self.hysteresis_elapsed_at(clock_us())
    }

    /// Take an arbitration outcome at `now_us`: remember its signal, and
    /// move to its target if it differs (restarting the cooldown). True
    /// when the bitrate changed.
    pub fn apply_outcome_at(&mut self, outcome: ArbitrationOutcome, now_us: u64) -> (changed: bool)
        ensures
            changed == (outcome.target_bps != old(self).view().current_bps),
            final(self).view() == (BitrateView {
                current_bps: outcome.target_bps,
                last_adjustment_us: if changed { now_us } else { old(self).view().last_adjustment_us },
                last_decision: outcome.dominant,
                ..old(self).view()
            }),
    {
        self.last_decision = outcome.dominant;
        if outcome.target_bps != self.current_bitrate_bps {
            self.current_bitrate_bps = outcome.target_bps;
            self.last_adjustment_us = now_us;
            true
        } else {
            false
        }
    }

    /// Take an arbitration outcome now.
    pub fn apply_outcome(&mut self, outcome: ArbitrationOutcome) -> (changed: bool)
        ensures
            changed == (outcome.target_bps != old(self).view().current_bps),
            final(self).view().current_bps == outcome.target_bps,
            final(self).view().last_decision == outcome.dominant,
            final(self).view().thermal_ceiling_bps == old(self).view().thermal_ceiling_bps,
    {
        self.apply_outcome_at(outcome, clock_us())
    }

    /// The signal behind the most recent decision.
    pub fn last_decision(&self) -> (r: ArbDominant)
        ensures
            r == self.view().last_decision,
    {
        self.last_decision
    }

    /// A candidate bitrate within the bounds and the thermal ceiling.
    pub fn clamp_to_bounds(&self, candidate_bps: u64) -> (r: u64)
        ensures
            r == clamp_with_thermal_spec(
                candidate_bps,
                self.view().min_bps,
                self.view().max_bps,
                self.view().thermal_ceiling_bps,
            ),
    {
        clamp_with_thermal(candidate_bps, self.min_bitrate_bps, self.max_bitrate_bps, self.thermal_ceiling_bps)
    }

    /// Set the thermal ceiling; the live bitrate is clamped at once.
    pub fn set_thermal_ceiling_bps(&mut self, ceiling_bps: u64)
        ensures
            final(self).view() == (BitrateView {
                thermal_ceiling_bps: Some(ceiling_bps),
                current_bps: clamp_with_thermal_spec(
                    old(self).view().current_bps,
                    old(self).view().min_bps,
                    old(self).view().max_bps,
                    Some(ceiling_bps),
                ),
                ..old(self).view()
            }),
    {
        self.thermal_ceiling_bps = Some(ceiling_bps);
        let clamped = self.clamp_to_bounds(self.current_bitrate_bps);
        if clamped != self.current_bitrate_bps {
            self.current_bitrate_bps = clamped;
        }
    }

    /// Lift the thermal ceiling; the live bitrate stays.
    pub fn clear_thermal_ceiling(&mut self)
        ensures
            final(self).view() == (BitrateView { thermal_ceiling_bps: None, ..old(self).view() }),
    {
        self.thermal_ceiling_bps = None;
    }

    pub fn thermal_ceiling_bps(&self) -> (r: Option<u64>)
        ensures
            r == self.view().thermal_ceiling_bps,
    {
        self.thermal_ceiling_bps
    }

    pub fn current_bitrate_bps(&self) -> (r: u64)
        ensures
            r == self.view().current_bps,
    {
        self.current_bitrate_bps
    }

    /// The live bitrate in whole Mbps.
    pub fn current_bitrate_mbps(&self) -> (r: u32)
        ensures
            r == (self.view().current_bps / 1_000_000) as u32,
    {
        (self.current_bitrate_bps / 1_000_000) as u32
    }

    pub fn min_bitrate_bps(&self) -> (r: u64)
        ensures
            r == self.view().min_bps,
    {
        self.min_bitrate_bps
    }

    pub fn max_bitrate_bps(&self) -> (r: u64)
        ensures
            r == self.view().max_bps,
    {
        self.max_bitrate_bps
    }
}

} // verus!

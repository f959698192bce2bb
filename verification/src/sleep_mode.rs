//! Sleep mode: after a run of motionless tracking frames the stream sleeps
//! at a low bitrate; motion wakes it.

use vstd::prelude::*;

verus! {

/// Tracking frames per second the timeout is counted in.
pub const TRACKING_FPS: u64 = 90;

#[derive(Debug, Clone, Copy, PartialEq, Eq, Structural)]
pub enum SleepTransition {
    Sleep,
    Wake,
}

/// Abstract state of a sleep detector.
pub struct SleepView {
    pub enabled: bool,
    pub timeout_seconds: u32,
    pub sleep_bitrate_mbps: u32,
    pub idle_frames: u64,
    pub sleeping: bool,
}

/// Idle frames after which the stream sleeps.
pub open spec fn idle_limit(timeout_seconds: u32) -> nat {
    (TRACKING_FPS * timeout_seconds) as nat
}

/// One tracking frame: `moved` when the head moved more than the motion
/// threshold since the previous frame. Motion resets the idle count and
/// wakes a sleeping stream; stillness counts, and sleep starts once the
/// count reaches `idle_limit`. Disabled: nothing happens.
pub open spec fn sleep_step(v: SleepView, moved: bool) -> (SleepView, Option<SleepTransition>) {
    if !v.enabled {
        (v, None)
    } else if moved {
        (SleepView { idle_frames: 0, sleeping: false, ..v }, if v.sleeping { Some(SleepTransition::Wake) } else { None })
    } else {
        let idle = ((v.idle_frames + 1) % 0x1_0000_0000_0000_0000) as u64;
        if !v.sleeping && idle >= idle_limit(v.timeout_seconds) {
            (SleepView { idle_frames: idle, sleeping: true, ..v }, Some(SleepTransition::Sleep))
        } else {
            (SleepView { idle_frames: idle, ..v }, None)
        }
    }
}

/// Inactivity detection and the sleep/wake transitions.
pub struct SleepDetector {
    enabled: bool,
    timeout_seconds: u32,
    sleep_bitrate_mbps: u32,
    idle_frames: u64,
    is_sleeping: bool,
}

impl SleepDetector {
    pub closed spec fn view(&self) -> SleepView {
        SleepView {
            enabled: self.enabled,
            timeout_seconds: self.timeout_seconds,
            sleep_bitrate_mbps: self.sleep_bitrate_mbps,
            idle_frames: self.idle_frames,
            sleeping: self.is_sleeping,
        }
    }

    pub fn new(enabled: bool, timeout_seconds: u32, sleep_bitrate_mbps: u32) -> (r: Self)
        ensures
            r.view() == (SleepView { enabled, timeout_seconds, sleep_bitrate_mbps, idle_frames: 0, sleeping: false }),
    {
        SleepDetector { enabled, timeout_seconds, sleep_bitrate_mbps, idle_frames: 0, is_sleeping: false }
    }

    /// Feed one tracking frame (see `sleep_step`); returns the transition,
    /// if any.
    pub fn update(&mut self, moved: bool) -> (r: Option<SleepTransition>)
        ensures
            (final(self).view(), r) == sleep_step(old(self).view(), moved),
    {
        if !self.enabled {
            return None;
        }
        if moved {
            self.idle_frames = 0;
            if self.is_sleeping {
                self.is_sleeping = false;
                return Some(SleepTransition::Wake);
            }
        } else {
            self.idle_frames = self.idle_frames.wrapping_add(1);
            let threshold_frames = TRACKING_FPS * (self.timeout_seconds as u64);
            if !self.is_sleeping && self.idle_frames >= threshold_frames {
                self.is_sleeping = true;
                return Some(SleepTransition::Sleep);
            }
        }
        None
    }

    pub fn is_sleeping(&self) -> (r: bool)
        ensures
            r == self.view().sleeping,
    {
        self.is_sleeping
    }

    pub fn sleep_bitrate_mbps(&self) -> (r: u32)
        ensures
            r == self.view().sleep_bitrate_mbps,
    {
        self.sleep_bitrate_mbps
    }

    /// Wake now (button press, controller input).
    pub fn force_wake(&mut self) -> (r: Option<SleepTransition>)
        ensures
            final(self).view() == (SleepView { idle_frames: 0, sleeping: false, ..old(self).view() }),
            r == if old(self).view().sleeping { Some(SleepTransition::Wake) } else { None },
    {
        self.idle_frames = 0;
        if self.is_sleeping {
            self.is_sleeping = false;
            Some(SleepTransition::Wake)
        } else {
            None
        }
    }
}

/// A still stream with a timeout of `t` seconds sleeps at exactly the
/// `90 * t`-th still frame (at the first one when `t` is 0) and not before;
/// then stays asleep through further still frames.
pub open spec fn sleep_run(v: SleepView, n: nat) -> (SleepView, Seq<Option<SleepTransition>>)
    decreases n,
{
    if n == 0 {
        (v, Seq::empty())
    } else {
        let (v1, outs) = sleep_run(v, (n - 1) as nat);
        let (v2, o) = sleep_step(v1, false);
        (v2, outs.push(o))
    }
}

/// From an awake, enabled detector with no idle frames, `n` still frames
/// (not beyond the counter's range): the idle count is `n`, and the stream
/// is asleep exactly when `n` reached the idle limit (at least one frame),
/// having slept at one frame only, the limit's (the first for a zero
/// timeout).
pub proof fn lemma_sleeps_after_timeout(v: SleepView, n: nat)
    requires
        v.enabled,
        !v.sleeping,
        v.idle_frames == 0,
        n < u64::MAX,
    ensures
        ({
            let (w, outs) = sleep_run(v, n);
            let lim = if idle_limit(v.timeout_seconds) == 0 { 1 } else { idle_limit(v.timeout_seconds) };
            &&& w.idle_frames == n
            &&& w.enabled
            &&& w.timeout_seconds == v.timeout_seconds
            &&& w.sleeping == (n >= lim)
            &&& outs.len() == n
            &&& forall|k: int| 0 <= k < n ==> (#[trigger] outs[k] is Some) == (k + 1 == lim)
            &&& forall|k: int| 0 <= k < n && outs[k] is Some ==> outs[k] == Some(SleepTransition::Sleep)
        }),
    decreases n,
{
    if n > 0 {
        lemma_sleeps_after_timeout(v, (n - 1) as nat);
        let (w1, outs1) = sleep_run(v, (n - 1) as nat);
        let (w, outs) = sleep_run(v, n);
        let (w2, o) = sleep_step(w1, false);
        assert(w == w2 && outs == outs1.push(o));
        assert(((w1.idle_frames + 1) % 0x1_0000_0000_0000_0000) as u64 == n);
        let lim = if idle_limit(v.timeout_seconds) == 0 { 1 } else { idle_limit(v.timeout_seconds) };
        assert forall|k: int| 0 <= k < n implies (#[trigger] outs[k] is Some) == (k + 1 == lim) by {
            if k < n - 1 {
                assert(outs[k] == outs1[k]);
            }
        }
        assert forall|k: int| 0 <= k < n && outs[k] is Some implies outs[k] == Some(SleepTransition::Sleep) by {
            if k < n - 1 {
                assert(outs[k] == outs1[k]);
            }
        }
    }
}

} // verus!

//! PIN pairing with brute-force protection: a 6-digit PIN, a lockout after
//! `MAX_PIN_ATTEMPTS` wrong PINs, and a fresh PIN after each lockout.

use vstd::prelude::*;
use crate::metrics::latency::clock_us;
use crate::protocol::{MAX_PIN_ATTEMPTS, PIN_LOCKOUT_SECONDS};

verus! {

/// PINs have six decimal digits.
pub const PIN_SPACE: u32 = 1_000_000;

/// Why a PIN was refused.
#[derive(Debug, Clone, Copy, PartialEq, Eq, Structural)]
pub enum PairingError {
    WrongPin { remaining: u8 },
    LockedOut,
}

/// A uniformly random `u32` from `rand::random`. Nothing is stated of it.
#[verifier::external_body]
pub(crate) fn random_u32() -> u32 {
    rand::random::<u32>()
}

#[verifier::external_type_specification]
#[verifier::external_body]
pub struct ExInstant(std::time::Instant);

/// `std::time::Instant::now`: a reading of the monotonic clock. Nothing is
/// stated of it: it is the time.
#[verifier::external_body]
fn instant_now() -> std::time::Instant {
    std::time::Instant::now()
}

/// `Instant::elapsed`, in whole microseconds: the monotonic time since
/// `origin`. Nothing is stated of it: it is the time.
#[verifier::external_body]
fn micros_since(origin: &std::time::Instant) -> u64 {
    origin.elapsed().as_micros() as u64
}

/// `std::hint::black_box`: returns its argument, hiding it from the
/// optimizer so the PIN comparison is not short-circuited.
#[verifier::external_body]
fn black_box_bool(b: bool) -> (r: bool)
    ensures
        r == b,
{
    std::hint::black_box(b)
}

/// A PIN drawn from a random number: its value below `PIN_SPACE`.
pub open spec fn pin_from(source: u32) -> u32 {
    (source % PIN_SPACE) as u32
}

/// A fresh random PIN.
pub fn generate_pin() -> (pin: u32)
    ensures
        pin < PIN_SPACE,
{
    random_u32() % PIN_SPACE
}

/// Microseconds a lockout lasts.
pub open spec fn lockout_us() -> nat {
    (PIN_LOCKOUT_SECONDS * 1_000_000) as nat
}

/// Abstract pairing state.
pub struct PairingView {
    pub pin: u32,
    pub attempts: u8,
    pub lockout_until_us: Option<u64>,
    pub paired: bool,
    /// The clock base: the monotonic reading taken at creation, and the
    /// Unix time in microseconds it stands for.
    pub clock_origin: std::time::Instant,
    pub clock_origin_us: u64,
}

pub open spec fn locked_at(v: PairingView, now_us: u64) -> bool {
    v.lockout_until_us matches Some(u) && now_us < u
}

/// One PIN submission at `now_us`; `pin_source` draws the new PIN should a
/// lockout start. Paired: accepted. Locked out: refused. The right PIN pairs
/// and clears attempts and lockout. A wrong one counts; the
/// `MAX_PIN_ATTEMPTS`-th starts a lockout of `PIN_LOCKOUT_SECONDS`, resets
/// the count and rotates the PIN.
pub open spec fn verify_step(v: PairingView, submitted: u32, now_us: u64, pin_source: u32) -> (PairingView, Result<(), PairingError>) {
    if v.paired {
        (v, Ok(()))
    } else if locked_at(v, now_us) {
        (v, Err(PairingError::LockedOut))
    } else if submitted == v.pin {
        (PairingView { pin: v.pin, attempts: 0, lockout_until_us: None, paired: true, ..v }, Ok(()))
    } else if v.attempts + 1 >= MAX_PIN_ATTEMPTS {
        let until = if now_us + lockout_us() > u64::MAX { u64::MAX } else { (now_us + lockout_us()) as u64 };
        (
            PairingView { pin: pin_from(pin_source), attempts: 0, lockout_until_us: Some(until), paired: false, ..v },
            Err(PairingError::LockedOut),
        )
    } else {
        (
            PairingView {
                pin: v.pin,
                attempts: (v.attempts + 1) as u8,
                lockout_until_us: v.lockout_until_us,
                paired: false,
                ..v
            },
            Err(PairingError::WrongPin { remaining: (MAX_PIN_ATTEMPTS - (v.attempts + 1)) as u8 }),
        )
    }
}

/// PIN pairing state. Time is counted in microseconds from the Unix time
/// at creation, advanced by the monotonic clock (so a jump of the system
/// clock neither lengthens nor ends a lockout); the lockout end on that
/// scale can be persisted and resumed after a restart.
pub struct PairingState {
    pin: u32,
    attempts: u8,
    lockout_until_us: Option<u64>,
    paired: bool,
    origin: std::time::Instant,
    origin_us: u64,
}

impl PairingState {
    #[verifier::type_invariant]
    spec fn inv(&self) -> bool {
        &&& self.pin < PIN_SPACE
        &&& self.attempts < MAX_PIN_ATTEMPTS
    }

    pub closed spec fn view(&self) -> PairingView {
        PairingView {
            pin: self.pin,
            attempts: self.attempts,
            lockout_until_us: self.lockout_until_us,
            paired: self.paired,
            clock_origin: self.origin,
            clock_origin_us: self.origin_us,
        }
    }

    /// A state created at Unix time `now_us` with the PIN drawn from
    /// `pin_source`, resuming a persisted lockout that ends after `now_us`
    /// (`persisted_until_us` 0: none).
    pub fn new_at(pin_source: u32, now_us: u64, persisted_until_us: u64) -> (r: Self)
        ensures
            r.view().pin == pin_from(pin_source),
            r.view().attempts == 0,
            r.view().lockout_until_us == if persisted_until_us > now_us {
                Some(persisted_until_us)
            } else {
                None
            },
            !r.view().paired,
            r.view().clock_origin_us == now_us,
    {
        let lockout_until_us = if persisted_until_us > now_us {
            Some(persisted_until_us)
        } else {
            None
        };
        PairingState {
            pin: pin_source % PIN_SPACE,
            attempts: 0,
            lockout_until_us,
            paired: false,
            origin: instant_now(),
            origin_us: now_us,
        }
    }

    /// A state with a fresh random PIN, resuming the persisted lockout end
    /// `persisted_until_us` (0: none) if it is still ahead.
    pub fn new(persisted_until_us: u64) -> (r: Self)
        ensures
            r.view().pin < PIN_SPACE,
            r.view().attempts == 0,
            !r.view().paired,
            r.view().lockout_until_us is Some ==> r.view().lockout_until_us == Some(persisted_until_us),
            persisted_until_us == 0 ==> r.view().lockout_until_us is None,
    {
        Self::new_at(random_u32(), clock_us(), persisted_until_us)
    }

    /// The time now on the state's scale: the Unix time at creation plus
    /// the monotonic time since.
    fn now_us(&self) -> (r: u64)
        ensures
            r >= self.view().clock_origin_us,
    {
        self.origin_us.saturating_add(micros_since(&self.origin))
    }

    /// Whether a lockout is running at `now_us`.
    pub fn is_locked_at(&self, now_us: u64) -> (r: bool)
        ensures
            r == locked_at(self.view(), now_us),
    {
        match self.lockout_until_us {
            Some(until) => now_us < until,
            None => false,
        }
    }

    /// Whether a lockout is running now.
    pub fn is_locked(&self) -> (r: bool)
        ensures
            exists|now_us: u64| now_us >= self.view().clock_origin_us && r == locked_at(self.view(), now_us),
    {
        self.is_locked_at(self.now_us())
    }

    /// Submit a PIN at `now_us` (see `verify_step`).
    pub fn verify_at(&mut self, submitted_pin: u32, now_us: u64, pin_source: u32) -> (r: Result<(), PairingError>)
        ensures
            (final(self).view(), r) == verify_step(old(self).view(), submitted_pin, now_us, pin_source),
    {
        proof {
            use_type_invariant(&*self);
        }
        if self.paired {
            return Ok(());
        }
        if self.is_locked_at(now_us) {
            return Err(PairingError::LockedOut);
        }
        let pin = self.pin;
        let same = black_box_bool((submitted_pin ^ pin) == 0);
        assert(((submitted_pin ^ pin) == 0) == (submitted_pin == pin)) by (bit_vector);
        if same {
            self.paired = true;
            self.attempts = 0;
            self.lockout_until_us = None;
            Ok(())
        } else {
            let attempts = self.attempts + 1;
            if attempts >= MAX_PIN_ATTEMPTS {
                self.lockout_until_us = Some(now_us.saturating_add(PIN_LOCKOUT_SECONDS * 1_000_000));
                self.attempts = 0;
                self.pin = pin_source % PIN_SPACE;
                Err(PairingError::LockedOut)
            } else {
                self.attempts = attempts;
                Err(PairingError::WrongPin { remaining: MAX_PIN_ATTEMPTS - attempts })
            }
        }
    }

    /// Submit a PIN now; a lockout that starts draws a fresh random PIN.
    pub fn verify(&mut self, submitted_pin: u32) -> (r: Result<(), PairingError>)
        ensures
            exists|now_us: u64, pin_source: u32|
                now_us >= old(self).view().clock_origin_us && (final(self).view(), r) == verify_step(
                    old(self).view(),
                    submitted_pin,
                    now_us,
                    pin_source,
                ),
    {
        let now = self.now_us();
        let source = random_u32();
        self.verify_at(submitted_pin, now, source)
    }

    pub fn is_paired(&self) -> (r: bool)
        ensures
            r == self.view().paired,
    {
        self.paired
    }

    /// The current PIN, always six digits.
    pub fn get_pin(&self) -> (r: u32)
        ensures
            r == self.view().pin,
            r < PIN_SPACE,
    {
        proof {
            use_type_invariant(&*self);
        }
        self.pin
    }

    /// When the running lockout ends, on the state's scale of Unix
    /// microseconds (0: none); what a caller persists so a restart resumes
    /// it.
    pub fn lockout_until_unix_us(&self) -> (r: u64)
        ensures
            r == match self.view().lockout_until_us {
                Some(u) => u,
                None => 0,
            },
    {
        match self.lockout_until_us {
            Some(u) => u,
            None => 0,
        }
    }
}

/// Submissions `(pin, time, pin source)` in order: the final state and
/// every answer.
pub open spec fn verify_run(v: PairingView, subs: Seq<(u32, u64, u32)>) -> (PairingView, Seq<Result<(), PairingError>>)
    decreases subs.len(),
{
    if subs.len() == 0 {
        (v, Seq::empty())
    } else {
        let (v1, rs) = verify_run(v, subs.drop_last());
        let (sub, now, src) = subs.last();
        let (v2, r) = verify_step(v1, sub, now, src);
        (v2, rs.push(r))
    }
}

/// `MAX_PIN_ATTEMPTS` wrong PINs in a row, from a state with no attempts
/// and no lockout, lock the pairing out: the last is answered `LockedOut`,
/// the earlier ones `WrongPin` with the attempts left, a lockout runs from
/// the last attempt, and the PIN is replaced. (A last attempt within
/// `PIN_LOCKOUT_SECONDS` of the clock's end is left out: the saturated
/// lockout would end at once.)
pub proof fn lemma_lockout_after_max_attempts(v: PairingView, subs: Seq<(u32, u64, u32)>)
    requires
        !v.paired,
        v.attempts == 0,
        v.lockout_until_us is None,
        subs.len() == MAX_PIN_ATTEMPTS,
        forall|k: int| 0 <= k < subs.len() ==> (#[trigger] subs[k]).0 != v.pin,
        subs[MAX_PIN_ATTEMPTS - 1].1 + lockout_us() <= u64::MAX,
    ensures
        ({
            let (last, answers) = verify_run(v, subs);
            let (sub, now, src) = subs[MAX_PIN_ATTEMPTS - 1];
            &&& answers.len() == MAX_PIN_ATTEMPTS
            &&& forall|k: int|
                0 <= k < MAX_PIN_ATTEMPTS - 1 ==> #[trigger] answers[k] == Err::<(), PairingError>(
                    PairingError::WrongPin { remaining: (MAX_PIN_ATTEMPTS - 1 - k) as u8 },
                )
            &&& answers[MAX_PIN_ATTEMPTS - 1] == Err::<(), PairingError>(PairingError::LockedOut)
            &&& locked_at(last, now)
            &&& last.pin == pin_from(src)
            &&& !last.paired
        }),
{
    let s1 = subs.subrange(0, 1);
    let s2 = subs.subrange(0, 2);
    let s3 = subs.subrange(0, 3);
    let s4 = subs.subrange(0, 4);
    assert(s1.drop_last() =~= Seq::<(u32, u64, u32)>::empty());
    assert(s2.drop_last() =~= s1);
    assert(s3.drop_last() =~= s2);
    assert(s4.drop_last() =~= s3);
    assert(subs.drop_last() =~= s4);
    assert(subs[0] == s1.last());
    assert(subs[1] == s2.last());
    assert(subs[2] == s3.last());
    assert(subs[3] == s4.last());
    assert(verify_run(v, s1.drop_last()).0 == v);
    assert(verify_run(v, s1.drop_last()).1 =~= Seq::<Result<(), PairingError>>::empty());
    let r1 = verify_run(v, s1);
    assert(r1.1 =~= seq![Err::<(), PairingError>(PairingError::WrongPin { remaining: 4 })]);
    assert(r1.0.attempts == 1 && r1.0.pin == v.pin && r1.0.lockout_until_us is None && !r1.0.paired);
    let r2 = verify_run(v, s2);
    assert(r2.1 =~= seq![
        Err::<(), PairingError>(PairingError::WrongPin { remaining: 4 }),
        Err::<(), PairingError>(PairingError::WrongPin { remaining: 3 }),
    ]);
    assert(r2.0.attempts == 2 && r2.0.pin == v.pin && r2.0.lockout_until_us is None && !r2.0.paired);
    let r3 = verify_run(v, s3);
    assert(r3.1 =~= seq![
        Err::<(), PairingError>(PairingError::WrongPin { remaining: 4 }),
        Err::<(), PairingError>(PairingError::WrongPin { remaining: 3 }),
        Err::<(), PairingError>(PairingError::WrongPin { remaining: 2 }),
    ]);
    assert(r3.0.attempts == 3 && r3.0.pin == v.pin && r3.0.lockout_until_us is None && !r3.0.paired);
    let r4 = verify_run(v, s4);
    assert(r4.0.attempts == 4 && r4.0.pin == v.pin && r4.0.lockout_until_us is None && !r4.0.paired);
    assert(r4.1 =~= seq![
        Err::<(), PairingError>(PairingError::WrongPin { remaining: 4 }),
        Err::<(), PairingError>(PairingError::WrongPin { remaining: 3 }),
        Err::<(), PairingError>(PairingError::WrongPin { remaining: 2 }),
        Err::<(), PairingError>(PairingError::WrongPin { remaining: 1 }),
    ]);
}

} // verus!

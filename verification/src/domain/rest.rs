//! Rest interventions: the timing is done by the core.
//!
//! [`decide`] is the whole of it — a pure function from the current position,
//! the present, the previous tick and the settings to "raise an intervention?"
//! and "where does the continuous work time start?". It knows neither the
//! operating system nor a clock.
//!
//! The work time runs from the position's `activated_at`, which only a move from
//! inactive to active resets — a switch never does. A sleep is seen as a jump of
//! the clock far longer than the tick interval: a sleep longer than the rest
//! threshold counts as a rest and resets the timing; a shorter one is taken off
//! the work time.

use vstd::prelude::*;

use super::position::{activated_at_of, CurrentPosition};
use super::setting::{positive_seconds, positive_seconds_of, setting_views, Setting};
use super::{clamp_millis, Timestamp};

verus! {

broadcast use super::lemma_timestamp_view_eq;

/// Default rest threshold: 50 minutes, used when the storage holds no value.
pub const DEFAULT_REST_THRESHOLD_SECONDS: i64 = 50 * 60;

/// Default grace period: 15 minutes, used when the storage holds no value.
pub const DEFAULT_GRACE_PERIOD_SECONDS: i64 = 15 * 60;

/// The key under which the rest threshold is stored.
pub const REST_THRESHOLD_KEY: &'static str = "rest_threshold_seconds";

/// The key under which the grace period is stored.
pub const GRACE_PERIOD_KEY: &'static str = "grace_period_seconds";

/// The interval of the timing ticks, in milliseconds.
pub const TICK_INTERVAL_MILLIS: i64 = 10_000;

/// How many tick intervals a jump of the clock must exceed to count as a sleep.
pub const SLEEP_GAP_FACTOR: i64 = 3;

// --- saturating arithmetic on i64 ---------------------------------------------

/// `v` clamped to the range of `i64`.
pub open spec fn saturate(v: int) -> int {
    if v < i64::MIN {
        i64::MIN as int
    } else if v > i64::MAX {
        i64::MAX as int
    } else {
        v
    }
}

/// `a + b`, saturating at the ends of `i64` (`i64::saturating_add`).
pub fn saturating_add(a: i64, b: i64) -> (sum: i64)
    ensures
        sum == saturate(a + b),
{
    match a.checked_add(b) {
        Some(sum) => sum,
        None => if b > 0 {
            i64::MAX
        } else {
            i64::MIN
        },
    }
}

/// `a - b`, saturating at the ends of `i64` (`i64::saturating_sub`).
pub fn saturating_sub(a: i64, b: i64) -> (difference: i64)
    ensures
        difference == saturate(a - b),
{
    match a.checked_sub(b) {
        Some(difference) => difference,
        None => if b < 0 {
            i64::MAX
        } else {
            i64::MIN
        },
    }
}

/// `a * b`, saturating at the ends of `i64` (`i64::saturating_mul`).
pub fn saturating_mul(a: i64, b: i64) -> (product: i64)
    ensures
        product == saturate(a * b),
{
    match a.checked_mul(b) {
        Some(product) => product,
        None => {
            assert((a > 0 && b > 0) || (a < 0 && b < 0) ==> a * b > 0) by (nonlinear_arith);
            assert(!((a > 0 && b > 0) || (a < 0 && b < 0)) ==> a * b <= 0) by (nonlinear_arith);
            if (a > 0) == (b > 0) {
                i64::MAX
            } else {
                i64::MIN
            }
        },
    }
}

// --- settings ----------------------------------------------------------------

/// The rest threshold and the grace period, in seconds; both always positive.
#[derive(Debug, Clone, Copy, PartialEq, Eq, Structural)]
pub struct RestSettings {
    rest_threshold_seconds: i64,
    grace_period_seconds: i64,
}

/// The number of seconds stored under `key`, or `fallback`.
pub open spec fn seconds_or(settings: Seq<(Seq<char>, Seq<char>)>, key: Seq<char>, fallback: int) -> int {
    match positive_seconds_of(settings, key) {
        Some(v) => v,
        None => fallback,
    }
}

impl RestSettings {
    #[verifier::type_invariant]
    spec fn positive(self) -> bool {
        self.rest_threshold_seconds > 0 && self.grace_period_seconds > 0
    }

    /// The rest threshold, in seconds.
    pub closed spec fn threshold(self) -> i64 {
        self.rest_threshold_seconds
    }

    /// The grace period, in seconds.
    pub closed spec fn grace(self) -> i64 {
        self.grace_period_seconds
    }

    /// The rest threshold in milliseconds, saturating.
    pub open spec fn threshold_millis(self) -> int {
        saturate(self.threshold() * 1000)
    }

    /// The grace period in milliseconds, saturating.
    pub open spec fn grace_millis(self) -> int {
        saturate(self.grace() * 1000)
    }

    /// Reads the stored settings; a missing, unreadable, zero or negative value
    /// falls back to the constant.
    pub fn from_settings(settings: &[Setting]) -> (rest: Self)
        ensures
            rest.threshold() == seconds_or(
                setting_views(settings@),
                REST_THRESHOLD_KEY@,
                DEFAULT_REST_THRESHOLD_SECONDS as int,
            ),
            rest.grace() == seconds_or(
                setting_views(settings@),
                GRACE_PERIOD_KEY@,
                DEFAULT_GRACE_PERIOD_SECONDS as int,
            ),
    {
        let rest_threshold_seconds = match positive_seconds(settings, REST_THRESHOLD_KEY) {
            Some(seconds) => seconds,
            None => DEFAULT_REST_THRESHOLD_SECONDS,
        };
        let grace_period_seconds = match positive_seconds(settings, GRACE_PERIOD_KEY) {
            Some(seconds) => seconds,
            None => DEFAULT_GRACE_PERIOD_SECONDS,
        };
        RestSettings { rest_threshold_seconds, grace_period_seconds }
    }

    /// The rest threshold, in seconds.
    pub fn rest_threshold_seconds(&self) -> (seconds: i64)
        ensures
            seconds == self.threshold(),
            seconds > 0,
    {
        proof {
            use_type_invariant(self);
        }
        self.rest_threshold_seconds
    }

    /// The grace period, in seconds.
    pub fn grace_period_seconds(&self) -> (seconds: i64)
        ensures
            seconds == self.grace(),
            seconds > 0,
    {
        proof {
            use_type_invariant(self);
        }
        self.grace_period_seconds
    }

    /// The rest threshold, in milliseconds (saturating).
    pub fn rest_threshold_millis(&self) -> (millis: i64)
        ensures
            millis == self.threshold_millis(),
    {
        saturating_mul(self.rest_threshold_seconds, 1_000)
    }

    /// The grace period, in milliseconds (saturating).
    pub fn grace_period_millis(&self) -> (millis: i64)
        ensures
            millis == self.grace_millis(),
    {
        saturating_mul(self.grace_period_seconds, 1_000)
    }
}

impl Default for RestSettings {
    /// The constants: 50 minutes and 15 minutes.
    fn default() -> (rest: Self)
        ensures
            rest.threshold() == DEFAULT_REST_THRESHOLD_SECONDS,
            rest.grace() == DEFAULT_GRACE_PERIOD_SECONDS,
    {
        RestSettings {
            rest_threshold_seconds: DEFAULT_REST_THRESHOLD_SECONDS,
            grace_period_seconds: DEFAULT_GRACE_PERIOD_SECONDS,
        }
    }
}

// --- interventions -----------------------------------------------------------

/// The intervention on show; there is at most one, never stored.
#[derive(Debug, Clone, Copy, PartialEq, Eq, Structural)]
pub struct Intervention {
    raised_at: Timestamp,
}

impl Intervention {
    /// When it was raised.
    pub closed spec fn raised(self) -> Timestamp {
        self.raised_at
    }

    /// The intervention raised at `at`.
    pub closed spec fn raised_on(at: Timestamp) -> Self {
        Intervention { raised_at: at }
    }

    /// An intervention raised at `raised_at`.
    pub fn raised_at(raised_at: Timestamp) -> (intervention: Self)
        ensures
            intervention == Self::raised_on(raised_at),
            intervention.raised() == raised_at,
    {
        Intervention { raised_at }
    }

    /// When it was raised.
    pub fn at(&self) -> (at: Timestamp)
        ensures
            at == self.raised(),
    {
        self.raised_at
    }
}

/// The answers to an intervention — exactly two, so that "ignore" cannot be chosen.
#[derive(Debug, Clone, Copy, PartialEq, Eq, Structural)]
pub enum InterventionChoice {
    /// Take a rest: the position keeps its value and becomes inactive.
    Rest,
    /// Ask again after the grace period; the position stays active.
    Grace,
}

// --- the decision of one tick -------------------------------------------------

/// All that one tick looks at.
#[derive(Debug, Clone, Copy, PartialEq, Eq, Structural)]
pub struct Tick {
    /// The current position; neither not started nor inactive is counted.
    pub position: CurrentPosition,
    /// The present.
    pub now: Timestamp,
    /// The previous tick; jumps of the clock are measured from it.
    pub previous: Timestamp,
    /// The tick interval, in milliseconds.
    pub interval_millis: i64,
    /// The rest threshold and the grace period.
    pub settings: RestSettings,
    /// When to ask again after a grace period, if one was given.
    pub grace_until: Option<Timestamp>,
    /// Whether an intervention is already on show (then later ones wait).
    pub showing: bool,
}

/// What one tick decides. Unchanged fields hold the value of the input, so
/// that the core can tell "nothing changed, write nothing".
#[derive(Debug, Clone, Copy, PartialEq, Eq, Structural)]
pub struct Decision {
    /// The start of the continuous work time afterwards; `None` when not started.
    pub activated_at: Option<Timestamp>,
    /// When to ask again after a grace period, afterwards.
    pub grace_until: Option<Timestamp>,
    /// Whether to raise an intervention.
    pub raise: bool,
}

/// The part of a jump of the clock that a sleep accounts for: only jumps beyond
/// [`SLEEP_GAP_FACTOR`] intervals count, less the one interval that was expected.
pub open spec fn slept_of(jump_millis: int, interval_millis: int) -> int {
    let threshold = saturate(interval_millis * SLEEP_GAP_FACTOR);
    if jump_millis <= threshold {
        0
    } else {
        let rest = saturate(jump_millis - interval_millis);
        if rest < 0 {
            0
        } else {
            rest
        }
    }
}

/// The part of a jump of the clock that a sleep accounts for, in milliseconds;
/// zero for jumps within [`SLEEP_GAP_FACTOR`] intervals.
pub fn slept_millis(jump_millis: i64, interval_millis: i64) -> (slept: i64)
    ensures
        slept == slept_of(jump_millis as int, interval_millis as int),
{
    let threshold = saturating_mul(interval_millis, SLEEP_GAP_FACTOR);
    if jump_millis <= threshold {
        return 0;
    }
    let rest = saturating_sub(jump_millis, interval_millis);
    if rest < 0 {
        0
    } else {
        rest
    }
}

/// The instant `millis` after `at` (saturating, clamped to the representable range).
pub open spec fn shifted_of(at: Timestamp, millis: int) -> int {
    clamp_millis(saturate(at@ + millis))
}

/// The instant `millis` after `at`, clamped to the representable range.
pub fn shifted(at: Timestamp, millis: i64) -> (later: Timestamp)
    ensures
        later@ == shifted_of(at, millis as int),
{
    Timestamp::from_unix_millis(saturating_add(at.unix_millis(), millis))
}

/// An optional instant, in milliseconds.
pub open spec fn millis_of(at: Option<Timestamp>) -> Option<int> {
    match at {
        Some(t) => Some(t@),
        None => None,
    }
}

/// An optional instant moved by `millis`.
pub open spec fn shift_opt(at: Option<int>, millis: int) -> Option<int> {
    match at {
        Some(t) => Some(clamp_millis(saturate(t + millis))),
        None => None,
    }
}

/// What [`decide`] decides, in milliseconds: `(activated_at, grace_until, raise)`.
///
/// 1. Not started and inactive are never counted: nothing changes, nothing is raised.
/// 2. A sleep at least as long as the rest threshold counts as a rest: the work
///    time restarts now, the grace period is dropped, nothing is raised. A
///    shorter sleep is taken off both the work time and the grace deadline.
/// 3. An intervention is raised when active, none is on show, and either the
///    grace deadline (if one is set) is reached, or else the work time has
///    reached the rest threshold. A raised intervention drops the grace deadline.
pub open spec fn decided(tick: Tick) -> (Option<int>, Option<int>, bool) {
    let activated = millis_of(activated_at_of(tick.position));
    let grace = millis_of(tick.grace_until);
    if !(tick.position is Active) {
        (activated, grace, false)
    } else {
        let jump = saturate(tick.now@ - tick.previous@);
        let slept = slept_of(jump, tick.interval_millis as int);
        if slept >= tick.settings.threshold_millis() {
            (Some(tick.now@), None, false)
        } else {
            let activated = if slept > 0 {
                shift_opt(activated, slept)
            } else {
                activated
            };
            let grace = if slept > 0 {
                shift_opt(grace, slept)
            } else {
                grace
            };
            let raise = !tick.showing && match grace {
                Some(deadline) => tick.now@ >= deadline,
                None => match activated {
                    Some(at) => saturate(tick.now@ - at) >= tick.settings.threshold_millis(),
                    None => false,
                },
            };
            (activated, if raise {
                None
            } else {
                grace
            }, raise)
        }
    }
}

/// The timing decision of one tick: see [`decided`] for the rules.
pub fn decide(tick: &Tick) -> (decision: Decision)
    ensures
        (millis_of(decision.activated_at), millis_of(decision.grace_until), decision.raise)
            == decided(*tick),
{
    let mut activated_at = tick.position.activated_at();
    let mut grace_until = tick.grace_until;
    if !tick.position.is_active() {
        return Decision { activated_at, grace_until, raise: false };
    }
    let jump = saturating_sub(tick.now.unix_millis(), tick.previous.unix_millis());
    let slept = slept_millis(jump, tick.interval_millis);
    let threshold = tick.settings.rest_threshold_millis();
    if slept >= threshold {
        return Decision { activated_at: Some(tick.now), grace_until: None, raise: false };
    }
    if slept > 0 {
        activated_at = match activated_at {
            Some(at) => Some(shifted(at, slept)),
            None => None,
        };
        grace_until = match grace_until {
            Some(at) => Some(shifted(at, slept)),
            None => None,
        };
    }
    let raise = !tick.showing && match grace_until {
        Some(deadline) => tick.now.unix_millis() >= deadline.unix_millis(),
        None => match activated_at {
            Some(at) => saturating_sub(tick.now.unix_millis(), at.unix_millis()) >= threshold,
            None => false,
        },
    };
    Decision {
        activated_at,
        grace_until: if raise {
            None
        } else {
            grace_until
        },
        raise,
    }
}

/// The timing never counts a position that is not active: for a resting or
/// not-started position the decision changes nothing and raises nothing.
pub proof fn law_rest_is_not_counted(tick: Tick)
    requires
        !(tick.position is Active),
    ensures
        decided(tick) == (
            millis_of(activated_at_of(tick.position)),
            millis_of(tick.grace_until),
            false,
        ),
{
}

/// The milliseconds a tick accounts to a sleep: the jump of the clock since the
/// previous tick, as [`slept_of`] counts it.
pub open spec fn tick_slept(tick: Tick) -> int {
    slept_of(saturate(tick.now@ - tick.previous@), tick.interval_millis as int)
}

/// `at` moved later by `millis`, clamped to the representable instants.
pub open spec fn later_by(at: Timestamp, millis: int) -> int {
    clamp_millis(saturate(at@ + millis))
}

/// A sleep shorter than the rest threshold during a grace period moves the
/// grace deadline by the time slept, as it moves the start of the work time:
/// an intervention is raised exactly when the present reaches the moved
/// deadline (and none is on show), and when none is raised the decision keeps
/// the moved deadline.
pub proof fn law_sleep_moves_the_grace_deadline(tick: Tick, decision: Decision)
    requires
        (millis_of(decision.activated_at), millis_of(decision.grace_until), decision.raise) == decided(tick),
        tick.position is Active,
        tick.grace_until is Some,
        0 < tick_slept(tick) < tick.settings.threshold_millis(),
    ensures
        ({
            let deadline = later_by(tick.grace_until->0, tick_slept(tick));
            &&& decision.raise == (!tick.showing && tick.now@ >= deadline)
            &&& !decision.raise ==> (decision.grace_until matches Some(g) && g@ == deadline)
            &&& decision.raise ==> decision.grace_until is None
            &&& decision.activated_at matches Some(a) && a@ == later_by(
                tick.position->Active_activated_at,
                tick_slept(tick),
            )
        }),
{
}

/// A sleep at least as long as the rest threshold counts as a rest taken: the
/// work time starts again at the present, the grace deadline is dropped, and
/// nothing is raised.
pub proof fn law_long_sleep_is_a_rest(tick: Tick, decision: Decision)
    requires
        (millis_of(decision.activated_at), millis_of(decision.grace_until), decision.raise) == decided(tick),
        tick.position is Active,
        tick_slept(tick) >= tick.settings.threshold_millis(),
    ensures
        decision.activated_at matches Some(a) && a@ == tick.now@,
        decision.grace_until is None,
        !decision.raise,
{
}

/// Without a sleep, a grace deadline alone decides: the work time is left as
/// it is, an intervention is raised exactly when the present reaches the
/// deadline (and none is on show), and the deadline is kept until then.
pub proof fn law_grace_deadline_decides(tick: Tick, decision: Decision)
    requires
        (millis_of(decision.activated_at), millis_of(decision.grace_until), decision.raise) == decided(tick),
        tick.position is Active,
        tick.grace_until is Some,
        tick_slept(tick) == 0,
        tick.settings.threshold_millis() > 0,
    ensures
        decision.raise == (!tick.showing && tick.now@ >= (tick.grace_until->0)@),
        !decision.raise ==> (decision.grace_until matches Some(g) && g@ == (tick.grace_until->0)@),
        decision.raise ==> decision.grace_until is None,
        decision.activated_at matches Some(a) && a@ == (tick.position->Active_activated_at)@,
{
}

/// Without a grace deadline, the continuous work time decides: an
/// intervention is raised exactly when the work time — less any sleep shorter
/// than the threshold — has reached the rest threshold (and none is on show).
pub proof fn law_work_time_decides(tick: Tick, decision: Decision)
    requires
        (millis_of(decision.activated_at), millis_of(decision.grace_until), decision.raise) == decided(tick),
        tick.position is Active,
        tick.grace_until is None,
        tick_slept(tick) < tick.settings.threshold_millis(),
    ensures
        ({
            let start = if tick_slept(tick) > 0 {
                later_by(tick.position->Active_activated_at, tick_slept(tick))
            } else {
                (tick.position->Active_activated_at)@
            };
            &&& decision.activated_at matches Some(a) && a@ == start
            &&& decision.raise == (!tick.showing && saturate(tick.now@ - start) >= tick.settings.threshold_millis())
            &&& decision.grace_until is None
        }),
{
}

/// While an intervention is on show, no second one is raised.
pub proof fn law_one_intervention_at_a_time(tick: Tick)
    requires
        tick.showing,
    ensures
        !decided(tick).2,
{
}

} // verus!

//! Coalescing rapid skip presses into a small number of player seeks.
//!
//! **A pure state machine with no clock.** It is driven by "is a seek in
//! flight?" plus three events from the caller; the burst window is only handed
//! *back* so the caller can arm its own debounce timer.
//!
//! The policy: the **first** press of any sequence seeks exact, so one
//! keypress is one frame-precise jump. Follow-up presses during flight only
//! accumulate the target; a keyframe-tolerant seek goes out when the leading
//! one *lands*, and once the presses stop an exact seek settles the frame.

use vstd::prelude::*;

use crate::time;

verus! {

/// A seek for the caller to issue.
#[derive(Debug, Clone, Copy, PartialEq, Eq, Structural)]
pub struct SeekParams {
    /// Ticks.
    pub target: i64,
    /// `false`: keyframe-tolerant, cheap on long-GOP video. `true`: settle on
    /// the exact frame.
    pub exact: bool,
}

/// What the caller should do in response to an event.
///
/// The two fields are independent: a follow-up press re-arms the debounce with
/// **no** seek, and the switch to burst mode returns both at once.
#[derive(Debug, Clone, Copy, PartialEq, Eq, Structural)]
pub struct SkipDecision {
    pub seek: Option<SeekParams>,
    /// Milliseconds after which the caller reports the burst's end.
    pub arm_debounce: Option<u64>,
}

/// Default burst window, in milliseconds.
pub const DEFAULT_BURST_WINDOW: u64 = 150;

/// What a [`SkipCoordinator`] knows.
pub struct SkipState {
    pub burst_window: u64,
    /// Accumulated user intent, if a burst is in progress.
    pub target: Option<i64>,
    /// The target of the seek in flight, if any.
    pub flying: Option<i64>,
    pub flying_exact: bool,
    /// The debounce fired while a seek was in flight; settle when it lands.
    pub exact_pending: bool,
}

pub open spec fn no_decision() -> SkipDecision {
    SkipDecision { seek: None, arm_debounce: None }
}

pub open spec fn seek_to(target: i64, exact: bool) -> SkipDecision {
    SkipDecision { seek: Some(SeekParams { target, exact }), arm_debounce: None }
}

impl SkipState {
    /// No burst, no seek in flight, nothing to settle.
    pub open spec fn idle(burst_window: u64) -> SkipState {
        SkipState {
            burst_window,
            target: None,
            flying: None,
            flying_exact: false,
            exact_pending: false,
        }
    }

    /// A settle waits only for a seek in flight, and has a target to settle to.
    pub open spec fn consistent(self) -> bool {
        self.exact_pending ==> self.target is Some && self.flying is Some
    }

    /// The target after a press: accumulated, and clamped to the clip.
    pub open spec fn aimed(self, delta: i64, current: i64, clip_duration: i64) -> i64 {
        let base = match self.target {
            Some(t) => t,
            None => current,
        };
        time::clamped(base + delta, 0, clip_duration as int) as i64
    }

    pub open spec fn pressed(self, delta: i64, current: i64, clip_duration: i64) -> (
        SkipState,
        SkipDecision,
    ) {
        let t = self.aimed(delta, current, clip_duration);
        if self.flying is None {
            (
                SkipState {
                    target: Some(t),
                    flying: Some(t),
                    flying_exact: true,
                    exact_pending: false,
                    ..self
                },
                seek_to(t, true),
            )
        } else {
            (
                SkipState { target: Some(t), exact_pending: false, ..self },
                SkipDecision { seek: None, arm_debounce: Some(self.burst_window) },
            )
        }
    }

    pub open spec fn landed(self) -> (SkipState, SkipDecision) {
        let down = SkipState { flying: None, ..self };
        if self.exact_pending {
            // Settle now on what the burst added up to.
            match self.target {
                Some(t) => (
                    SkipState {
                        target: None,
                        flying: Some(t),
                        flying_exact: true,
                        exact_pending: false,
                        ..self
                    },
                    seek_to(t, true),
                ),
                None => (SkipState { exact_pending: false, ..down }, no_decision()),
            }
        } else if self.target is Some && self.target != self.flying {
            // The target moved on during the flight: chase it coarsely. Only
            // the leading exact seek's landing arms the debounce itself.
            let t = self.target->0;
            (
                SkipState { flying: Some(t), flying_exact: false, ..self },
                SkipDecision {
                    seek: Some(SeekParams { target: t, exact: false }),
                    arm_debounce: if self.flying_exact {
                        Some(self.burst_window)
                    } else {
                        None
                    },
                },
            )
        } else if self.flying_exact {
            (SkipState { target: None, ..down }, no_decision())
        } else {
            (down, no_decision())
        }
    }

    pub open spec fn burst_over(self) -> (SkipState, SkipDecision) {
        match (self.target, self.flying) {
            (Some(t), None) => (
                SkipState {
                    target: None,
                    flying: Some(t),
                    flying_exact: true,
                    ..self
                },
                seek_to(t, true),
            ),
            (Some(t), Some(_)) => (SkipState { exact_pending: true, ..self }, no_decision()),
            (None, _) => (self, no_decision()),
        }
    }
}

/// The skip state machine.
#[derive(Debug)]
pub struct SkipCoordinator {
    burst_window: u64,
    target: Option<i64>,
    flying: Option<i64>,
    flying_exact: bool,
    exact_pending: bool,
}

impl View for SkipCoordinator {
    type V = SkipState;

    closed spec fn view(&self) -> SkipState {
        SkipState {
            burst_window: self.burst_window,
            target: self.target,
            flying: self.flying,
            flying_exact: self.flying_exact,
            exact_pending: self.exact_pending,
        }
    }
}

impl Default for SkipCoordinator {
    fn default() -> (coordinator: SkipCoordinator)
        ensures
            coordinator@ == SkipState::idle(DEFAULT_BURST_WINDOW),
    {
        SkipCoordinator::new(DEFAULT_BURST_WINDOW)
    }
}

impl SkipCoordinator {
    #[verifier::type_invariant]
    spec fn consistent(&self) -> bool {
        self@.consistent()
    }

    pub fn new(burst_window: u64) -> (coordinator: SkipCoordinator)
        ensures
            coordinator@ == SkipState::idle(burst_window),
    {
        SkipCoordinator {
            burst_window,
            target: None,
            flying: None,
            flying_exact: false,
            exact_pending: false,
        }
    }

    /// The user pressed a skip key: accumulates from the pending target if a
    /// burst is in progress, otherwise from the player's current position.
    pub fn request_skip(&mut self, delta: i64, current: i64, clip_duration: i64) -> (decision:
        SkipDecision)
        requires
            clip_duration >= 0,
        ensures
            (final(self)@, decision) == old(self)@.pressed(delta, current, clip_duration),
    {
        let base: i64 = match self.target {
            Some(t) => t,
            None => current,
        };
        let aimed: i128 = base as i128 + delta as i128;
        let t: i64 = if aimed < 0 {
            0
        } else if aimed > clip_duration as i128 {
            clip_duration
        } else {
            aimed as i64
        };
        if self.flying.is_none() {
            *self =
            SkipCoordinator {
                burst_window: self.burst_window,
                target: Some(t),
                flying: Some(t),
                flying_exact: true,
                exact_pending: false,
            };
            return SkipDecision {
                seek: Some(SeekParams { target: t, exact: true }),
                arm_debounce: None,
            };
        }
        *self =
        SkipCoordinator {
            burst_window: self.burst_window,
            target: Some(t),
            flying: self.flying,
            flying_exact: self.flying_exact,
            exact_pending: false,
        };
        SkipDecision { seek: None, arm_debounce: Some(self.burst_window) }
    }

    /// The seek in flight finished.
    pub fn seek_completed(&mut self) -> (decision: SkipDecision)
        ensures
            (final(self)@, decision) == old(self)@.landed(),
    {
        let landed = self.flying;
        let moved_on = match (self.target, landed) {
            (Some(t), Some(l)) => t != l,
            (Some(_), None) => true,
            (None, _) => false,
        };
        if self.exact_pending {
            let target = self.target;
            *self =
            SkipCoordinator {
                burst_window: self.burst_window,
                target: None,
                flying: target,
                flying_exact: if target.is_some() {
                    true
                } else {
                    self.flying_exact
                },
                exact_pending: false,
            };
            return match target {
                Some(t) => SkipDecision {
                    seek: Some(SeekParams { target: t, exact: true }),
                    arm_debounce: None,
                },
                None => SkipDecision { seek: None, arm_debounce: None },
            };
        }
        if moved_on {
            if let Some(t) = self.target {
                let leading = self.flying_exact;
                *self =
                SkipCoordinator {
                    burst_window: self.burst_window,
                    target: Some(t),
                    flying: Some(t),
                    flying_exact: false,
                    exact_pending: false,
                };
                return SkipDecision {
                    seek: Some(SeekParams { target: t, exact: false }),
                    arm_debounce: if leading {
                        Some(self.burst_window)
                    } else {
                        None
                    },
                };
            }
        }
        let target = if self.flying_exact {
            None
        } else {
            self.target
        };
        *self =
        SkipCoordinator {
            burst_window: self.burst_window,
            target,
            flying: None,
            flying_exact: self.flying_exact,
            exact_pending: false,
        };
        SkipDecision { seek: None, arm_debounce: None }
    }

    /// The caller's burst-end debounce fired.
    pub fn burst_ended(&mut self) -> (decision: SkipDecision)
        ensures
            (final(self)@, decision) == old(self)@.burst_over(),
    {
        proof {
            use_type_invariant(&*self);
        }
        if let Some(t) = self.target {
            if self.flying.is_none() {
                *self =
                SkipCoordinator {
                    burst_window: self.burst_window,
                    target: None,
                    flying: Some(t),
                    flying_exact: true,
                    exact_pending: self.exact_pending,
                };
                return SkipDecision {
                    seek: Some(SeekParams { target: t, exact: true }),
                    arm_debounce: None,
                };
            }
            self.exact_pending = true;
        }
        SkipDecision { seek: None, arm_debounce: None }
    }

    /// Clear transient state when the active player swaps; the burst window is
    /// kept.
    pub fn reset(&mut self)
        ensures
            final(self)@ == SkipState::idle(old(self)@.burst_window),
    {
        *self = SkipCoordinator::new(self.burst_window);
    }
}

/// **A consistent state stays consistent** through every press, landing and
/// burst end: a pending settle always has a seek in flight and a target.
pub proof fn law_settle_always_has_a_target(
    state: SkipState,
    delta: i64,
    current: i64,
    clip_duration: i64,
)
    requires
        state.consistent(),
    ensures
        state.pressed(delta, current, clip_duration).0.consistent(),
        state.landed().0.consistent(),
        state.burst_over().0.consistent(),
        SkipState::idle(state.burst_window).consistent(),
{
}

/// **One seek at a time**: a press or a burst end asks for a seek only while
/// none is in flight, and a seek asked for is the one then in flight.
pub proof fn law_one_seek_in_flight(
    state: SkipState,
    delta: i64,
    current: i64,
    clip_duration: i64,
)
    ensures
        ({
            let (next, decision) = state.pressed(delta, current, clip_duration);
            &&& decision.seek is Some ==> state.flying is None
            &&& decision.seek matches Some(seek) ==> next.flying == Some(seek.target)
                && next.flying_exact == seek.exact
        }),
        ({
            let (next, decision) = state.burst_over();
            &&& decision.seek is Some ==> state.flying is None
            &&& decision.seek matches Some(seek) ==> next.flying == Some(seek.target)
                && next.flying_exact == seek.exact
        }),
        ({
            let (next, decision) = state.landed();
            &&& decision.seek matches Some(seek) ==> next.flying == Some(seek.target)
                && next.flying_exact == seek.exact
            &&& decision.seek is None ==> next.flying is None
        }),
{
}

/// **A lone press is one exact seek**: it seeks to its clamped target at once,
/// arms nothing, and its landing asks for nothing more.
pub proof fn law_lone_press_is_one_exact_seek(
    burst_window: u64,
    delta: i64,
    current: i64,
    clip_duration: i64,
)
    requires
        clip_duration >= 0,
    ensures
        ({
            let target = time::clamped(current + delta, 0, clip_duration as int) as i64;
            let (flying, decision) = SkipState::idle(burst_window).pressed(
                delta,
                current,
                clip_duration,
            );
            &&& decision == seek_to(target, true)
            &&& flying.landed().1 == no_decision()
            &&& flying.landed().0.target is None
            &&& flying.landed().0.flying is None
        }),
{
}

/// **Presses during a flight add up** and stay on the clip, and only re-arm
/// the debounce.
pub proof fn law_presses_accumulate(
    state: SkipState,
    first: i64,
    second: i64,
    current: i64,
    elsewhere: i64,
    clip_duration: i64,
)
    requires
        clip_duration >= 0,
        state.flying is Some,
    ensures
        ({
            let (once, one) = state.pressed(first, current, clip_duration);
            let (twice, two) = once.pressed(second, elsewhere, clip_duration);
            &&& one.seek is None && two.seek is None
            &&& two.arm_debounce == Some(state.burst_window)
            &&& twice.target == Some(
                time::clamped(once.target->0 + second, 0, clip_duration as int) as i64,
            )
            &&& 0 <= twice.target->0 <= clip_duration
        }),
{
}

/// **A burst settles**: once the debounce fires with a seek in flight, that
/// seek's landing seeks exactly to what the burst added up to, and the landing
/// after it leaves nothing to do.
pub proof fn law_burst_settles_on_its_target(state: SkipState)
    requires
        state.flying is Some,
        state.target is Some,
    ensures
        ({
            let (waiting, quiet) = state.burst_over();
            let (settling, settle) = waiting.landed();
            let (settled, done) = settling.landed();
            &&& quiet == no_decision()
            &&& settle == seek_to(state.target->0, true)
            &&& done == no_decision()
            &&& settled.target is None && settled.flying is None && !settled.exact_pending
        }),
{
}

/// **A press goes on from where the last one left off**: from the burst's
/// target while there is one, and from where the player is without; kept on the
/// clip. Only while nothing is in flight does it seek, and then exactly.
pub proof fn law_a_press_goes_on_from_the_last(
    state: SkipState,
    delta: i64,
    current: i64,
    clip_duration: i64,
)
    requires
        clip_duration >= 0,
    ensures
        ({
            let (next, decision) = state.pressed(delta, current, clip_duration);
            let wanted = delta + match state.target {
                Some(burst) => burst,
                None => current,
            };
            &&& next.target is Some
            &&& wanted < 0 ==> next.target->0 == 0
            &&& wanted > clip_duration ==> next.target->0 == clip_duration
            &&& 0 <= wanted <= clip_duration ==> next.target->0 == wanted
            &&& next.burst_window == state.burst_window
            &&& !next.exact_pending
            &&& state.flying is None ==> {
                &&& decision.seek is Some && decision.arm_debounce is None
                &&& decision.seek->0.exact
                &&& decision.seek->0.target == next.target->0
                &&& next.flying == next.target && next.flying_exact
            }
            &&& state.flying is Some ==> {
                &&& decision.seek is None
                &&& decision.arm_debounce == Some(state.burst_window)
                &&& next.flying == state.flying && next.flying_exact == state.flying_exact
            }
        }),
{
}

/// **A landing is answered once**: with the settle that waits for it; else, if
/// the target has moved on, with a keyframe there, which arms the debounce if
/// the flight was the leading one; else with nothing, and an exact landing ends
/// the burst. A debounce settles at once where nothing is in flight.
pub proof fn law_a_landing_is_answered_once(state: SkipState)
    requires
        state.flying is Some,
    ensures
        ({
            let (next, decision) = state.landed();
            let moved = state.target is Some && state.target->0 != state.flying->0;
            &&& next.burst_window == state.burst_window && !next.exact_pending
            &&& state.exact_pending && state.target is Some ==> {
                &&& decision.seek is Some && decision.arm_debounce is None
                &&& decision.seek->0.exact && decision.seek->0.target == state.target->0
                &&& next.target is None && next.flying == state.target && next.flying_exact
            }
            &&& !state.exact_pending && moved ==> {
                &&& decision.seek is Some
                &&& !decision.seek->0.exact && decision.seek->0.target == state.target->0
                &&& decision.arm_debounce == if state.flying_exact {
                    Some(state.burst_window)
                } else {
                    None
                }
                &&& next.target == state.target && next.flying == state.target
                &&& !next.flying_exact
            }
            &&& !state.exact_pending && !moved ==> {
                &&& decision.seek is None && decision.arm_debounce is None
                &&& next.flying is None
                &&& state.flying_exact ==> next.target is None
                &&& !state.flying_exact ==> next.target == state.target
            }
        }),
        ({
            let still = SkipState { flying: None, ..state };
            let (next, decision) = still.burst_over();
            &&& state.target is None ==> decision.seek is None && next == still
            &&& state.target is Some ==> {
                &&& decision.seek is Some && decision.arm_debounce is None
                &&& decision.seek->0.exact && decision.seek->0.target == state.target->0
                &&& next.target is None && next.flying == state.target && next.flying_exact
            }
        }),
        ({
            let (next, decision) = state.burst_over();
            &&& decision.seek is None && decision.arm_debounce is None
            &&& next.flying == state.flying && next.target == state.target
            &&& state.target is Some ==> next.exact_pending
        }),
{
}

} // verus!

//! Quitting takes Ctrl-D twice within one second: the first press only arms the guard and says
//! so on the status row; the second, while the guard is armed, quits.
use vstd::prelude::*;

use crate::status::StatusNote;

verus! {

/// How long an armed guard waits for the second press, in milliseconds.
pub const QUIT_WINDOW_MS: u64 = 1000;

/// What a press of Ctrl-D did.
#[derive(Clone, Copy, Debug, PartialEq, Eq, Structural)]
pub enum QuitStep {
    /// The guard is armed; nothing quits yet.
    Armed,
    /// The second press came in time: quit.
    Quit,
}

/// Whether a guard armed at `armed_at` still waits at `now`.
pub open spec fn still_armed(armed_at: u64, now: u64) -> bool {
    armed_at <= now && now - armed_at <= QUIT_WINDOW_MS
}

/// The guard after, and the outcome of, a press at `now` on a guard armed at `armed`.
pub open spec fn press_step(armed: Option<u64>, now: u64) -> (Option<u64>, QuitStep) {
    match armed {
        Some(at) if still_armed(at, now) => (None, QuitStep::Quit),
        _ => (Some(now), QuitStep::Armed),
    }
}

/// The note the status row shows at `now`.
pub open spec fn note_at(armed: Option<u64>, now: u64) -> StatusNote {
    match armed {
        Some(at) if still_armed(at, now) => StatusNote::QuitArmed,
        _ => StatusNote::Quiet,
    }
}

/// The quit guard: when the first of two presses came, if one did.
#[derive(Clone, Copy, Debug, PartialEq, Eq, Structural)]
pub struct QuitGuard {
    armed_at: Option<u64>,
}

impl QuitGuard {
    /// When the guard was armed, in milliseconds of the caller's clock.
    pub closed spec fn armed(self) -> Option<u64> {
        self.armed_at
    }

    /// A guard that nobody has pressed.
    pub fn new() -> (guard: Self)
        ensures
            guard.armed() is None,
    {
        QuitGuard { armed_at: None }
    }

    /// Ctrl-D at `now` (milliseconds): quits when the guard was armed within the last second,
    /// else arms it from `now`.
    pub fn press(&mut self, now: u64) -> (step: QuitStep)
        ensures
            (final(self).armed(), step) == press_step(old(self).armed(), now),
    {
        match self.armed_at {
            Some(at) if at <= now && now - at <= QUIT_WINDOW_MS => {
                self.armed_at = None;
                QuitStep::Quit
            },
            _ => {
                self.armed_at = Some(now);
                QuitStep::Armed
            },
        }
    }

    /// What the status row says at `now`: that a second press quits, while it would.
    pub fn note(&self, now: u64) -> (note: StatusNote)
        ensures
            note == note_at(self.armed(), now),
    {
        match self.armed_at {
            Some(at) if at <= now && now - at <= QUIT_WINDOW_MS => StatusNote::QuitArmed,
            _ => StatusNote::Quiet,
        }
    }
}

/// One press never quits a guard nobody pressed, and a second press quits exactly when it comes
/// within one second of the first; the status row asks for the second press exactly while it
/// would quit.
pub proof fn law_quitting_takes_two_presses_within_a_second(first: u64, second: u64)
    ensures
        press_step(None, first).1 == QuitStep::Armed,
        (press_step(press_step(None, first).0, second).1 == QuitStep::Quit) <==> (first <= second
            && second - first <= QUIT_WINDOW_MS),
        (note_at(press_step(None, first).0, second) == StatusNote::QuitArmed) <==> (
        press_step(press_step(None, first).0, second).1 == QuitStep::Quit),
{
}

} // verus!

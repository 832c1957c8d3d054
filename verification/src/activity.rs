//! The conversation's activity mark, and how long readings are written.
use vstd::prelude::*;

use std::time::Duration;

use crate::text::string_of;

verus! {

/// The mark's frames: outline, then filled, each through circle, rounded square, square and back.
pub const MARK: [&'static str; 8] = [
    "\u{F0766}",
    "\u{F14FC}",
    "\u{F0764}",
    "\u{F14FC}",
    "\u{F0765}",
    "\u{F14FB}",
    "\u{F0763}",
    "\u{F14FB}",
];

/// Clock phases per frame: at fifteen phases a second, a cycle takes 1.6 s.
pub const PHASES_PER_FRAME: u16 = 3;

/// Which frame the mark shows at clock phase `phase`.
pub open spec fn mark_frame(phase: u16) -> int {
    (phase / PHASES_PER_FRAME) as int % 8
}

/// The frame for a clock phase.
pub fn mark(phase: u16) -> (frame: &'static str)
    ensures
        frame == MARK[mark_frame(phase)],
{
    let marks = MARK;
    marks[((phase / PHASES_PER_FRAME) as usize) % 8]
}

/// The character for a decimal digit.
pub open spec fn digit_char(d: nat) -> char {
    ((d + 48) as u8) as char
}

/// `n` written in decimal, without leading zeros.
pub open spec fn decimal(n: nat) -> Seq<char>
    decreases n,
{
    if n < 10 {
        seq![digit_char(n)]
    } else {
        decimal(n / 10).push(digit_char(n % 10))
    }
}

/// An elapsed time in its largest two whole units: seconds under a minute, minutes and seconds
/// under an hour, hours and minutes after.
pub open spec fn elapsed_text(seconds: nat) -> Seq<char> {
    if seconds < 60 {
        decimal(seconds).push('s')
    } else if seconds < 3600 {
        decimal(seconds / 60) + seq!['m', ' '] + decimal(seconds % 60).push('s')
    } else {
        decimal(seconds / 3600) + seq!['h', ' '] + decimal(seconds % 3600 / 60).push('m')
    }
}

/// The whole seconds `Duration::as_secs` reads from a duration.
pub uninterp spec fn whole_seconds_of(elapsed: Duration) -> u64;

/// `Duration::as_secs`: the duration's whole seconds, named rather than stated.
#[verifier::external_body]
fn whole_seconds(elapsed: Duration) -> (seconds: u64)
    ensures
        seconds == whole_seconds_of(elapsed),
{
    elapsed.as_secs()
}

/// Appends `n` in decimal to `out`.
pub fn push_decimal(n: u64, out: &mut Vec<char>)
    ensures
        final(out)@ == old(out)@ + decimal(n as nat),
    decreases n,
{
    if n >= 10 {
        push_decimal(n / 10, out);
    }
    let d = (n % 10) as u8;
    out.push((d + 48) as char);
    proof {
        assert(digit_char((n % 10) as nat) == (d + 48) as char);
        if n >= 10 {
            assert(decimal(n as nat) == decimal((n / 10) as nat).push(digit_char((n % 10) as nat)));
        } else {
            assert(decimal(n as nat) == seq![digit_char(n as nat)]);
        }
    }
}

/// A number of seconds in its largest two whole units.
pub fn seconds_label(seconds: u64) -> (label: String)
    ensures
        label@ == elapsed_text(seconds as nat),
{
    let mut out: Vec<char> = Vec::new();
    if seconds < 60 {
        push_decimal(seconds, &mut out);
        out.push('s');
    } else if seconds < 3600 {
        push_decimal(seconds / 60, &mut out);
        out.push('m');
        out.push(' ');
        push_decimal(seconds % 60, &mut out);
        out.push('s');
        assert(out@ =~= decimal((seconds / 60) as nat) + seq!['m', ' '] + decimal((seconds % 60) as nat).push('s'));
    } else {
        push_decimal(seconds / 3600, &mut out);
        out.push('h');
        out.push(' ');
        push_decimal(seconds % 3600 / 60, &mut out);
        out.push('m');
        assert(out@ =~= decimal((seconds / 3600) as nat) + seq!['h', ' '] + decimal((seconds % 3600 / 60) as nat).push('m'));
    }
    assert(out@ =~= elapsed_text(seconds as nat));
    string_of(out.as_slice())
}

/// How long something has run, in its largest two whole units.
pub fn elapsed_label(elapsed: Duration) -> (label: String)
    ensures
        label@ == elapsed_text(whole_seconds_of(elapsed) as nat),
{
    seconds_label(whole_seconds(elapsed))
}

} // verus!

//! When a message leaves the screen, and when it is dimmed before that.
use crate::text;
use crate::time::{Duration, NANOS_PER_SEC};
use vstd::prelude::*;

verus! {

/// How a message should fade out once its lifetime elapses.
#[derive(Debug, Clone, Copy, PartialEq, Eq, Structural)]
pub enum FadeMode {
    /// Drop the message outright when the timeout hits.
    Remove,
    /// Dim the message during a short fade-out window, then drop it.
    Dim,
}

impl FadeMode {
    /// Parse a config value. Unknown/empty values fall back to `Remove`.
    pub fn parse(s: &str) -> (mode: FadeMode)
        ensures
            mode == fade_mode(s@),
    {
        let name = text::lower_ascii(text::trim(s).as_str());
        if text::same(name.as_str(), "dim") {
            FadeMode::Dim
        } else {
            FadeMode::Remove
        }
    }
}

/// The mode a config value names: `dim`, in any case and with any white space around it, or else
/// the fallback.
pub open spec fn fade_mode(s: Seq<char>) -> FadeMode {
    if text::lowered(text::trimmed(s)) == "dim"@ {
        FadeMode::Dim
    } else {
        FadeMode::Remove
    }
}

/// What the fade logic wants the renderer to do with a message right now.
#[derive(Debug, Clone, Copy, PartialEq, Eq, Structural)]
pub enum FadeAction {
    /// Keep rendering normally.
    Keep,
    /// Keep rendering, but dimmed (only produced in `Dim` mode).
    Dim,
    /// The message is past its lifetime and should be removed from the display.
    Remove,
}

/// Nanoseconds of the fade-out window: a fifth of the lifetime, at most two seconds.
pub open spec fn window_nanos(fade_secs: u64) -> int {
    if fade_secs >= 10 {
        2 * NANOS_PER_SEC
    } else {
        fade_secs * NANOS_PER_SEC / 5
    }
}

/// Length of the fade-out window used in `Dim` mode: the final 20% of the lifetime, capped at 2
/// seconds so short lifetimes still get a quick dim.
pub fn fade_window(fade_secs: u64) -> (window: Duration)
    ensures
        window.nanos == window_nanos(fade_secs),
{
    if fade_secs >= 10 {
        Duration::from_secs(2)
    } else {
        Duration { nanos: fade_secs as u128 * NANOS_PER_SEC / 5 }
    }
}

/// What happens to a message of age `age` (in nanoseconds) that lives `fade_secs` seconds.
pub open spec fn fade_decision(age: int, fade_secs: u64, mode: FadeMode) -> FadeAction {
    let total = fade_secs * NANOS_PER_SEC;
    if fade_secs == 0 {
        FadeAction::Keep
    } else if age >= total {
        FadeAction::Remove
    } else if mode == FadeMode::Dim && age >= total - window_nanos(fade_secs) {
        FadeAction::Dim
    } else {
        FadeAction::Keep
    }
}

/// Decide what to do with a message of the given `age`.
///
/// `fade_secs == 0` disables fading entirely. In `Remove` mode the message is kept until
/// `age >= fade_secs`, then removed. In `Dim` mode it dims for the last `fade_window(fade_secs)`
/// before being removed at `fade_secs`.
pub fn fade_action(age: Duration, fade_secs: u64, mode: FadeMode) -> (action: FadeAction)
    ensures
        action == fade_decision(age.nanos as int, fade_secs, mode),
{
    if fade_secs == 0 {
        return FadeAction::Keep;
    }
    let total = Duration::from_secs(fade_secs);
    match mode {
        FadeMode::Remove => {
            if age.nanos >= total.nanos {
                FadeAction::Remove
            } else {
                FadeAction::Keep
            }
        },
        FadeMode::Dim => {
            let dim_start = total.nanos - fade_window(fade_secs).nanos;
            if age.nanos >= total.nanos {
                FadeAction::Remove
            } else if age.nanos >= dim_start {
                FadeAction::Dim
            } else {
                FadeAction::Keep
            }
        },
    }
}

/// A message only moves forward through its life: once dimmed it is never shown in full again,
/// and once removed it never comes back.
pub proof fn fade_only_progresses(younger: int, older: int, fade_secs: u64, mode: FadeMode)
    requires
        younger <= older,
    ensures
        fade_decision(younger, fade_secs, mode) == FadeAction::Remove ==> fade_decision(
            older,
            fade_secs,
            mode,
        ) == FadeAction::Remove,
        fade_decision(younger, fade_secs, mode) == FadeAction::Dim ==> fade_decision(
            older,
            fade_secs,
            mode,
        ) != FadeAction::Keep,
{
}

/// Both modes remove a message at the same moment, and only `Dim` mode ever dims.
pub proof fn modes_differ_only_in_dimming(age: int, fade_secs: u64)
    ensures
        fade_decision(age, fade_secs, FadeMode::Remove) == FadeAction::Remove <==> fade_decision(
            age,
            fade_secs,
            FadeMode::Dim,
        ) == FadeAction::Remove,
        fade_decision(age, fade_secs, FadeMode::Remove) != FadeAction::Dim,
{
}

/// A lifetime of zero switches fading off: no message ever changes, whatever its age.
pub proof fn zero_lifetime_never_fades(age: int, mode: FadeMode)
    ensures
        fade_decision(age, 0, mode) == FadeAction::Keep,
{
}

/// Whatever the lifetime, the dimmed stretch lies inside it and lasts at most two seconds.
pub proof fn window_fits_lifetime(fade_secs: u64)
    ensures
        0 <= window_nanos(fade_secs) <= fade_secs * NANOS_PER_SEC,
        window_nanos(fade_secs) <= 2 * NANOS_PER_SEC,
        fade_secs > 0 ==> window_nanos(fade_secs) > 0,
{
}

/// A message is gone exactly from the moment on at which its age in seconds reaches its lifetime,
/// and is dimmed, where that is wanted, exactly for the last fifth of it, at most for two seconds.
pub proof fn messages_fade_on_time(age: int, fade_secs: u64, mode: FadeMode)
    requires
        fade_secs > 0,
    ensures
        ({
            let left = fade_secs * 1_000_000_000 - age;
            let action = fade_decision(age, fade_secs, mode);
            &&& action == FadeAction::Remove <==> left <= 0
            &&& action == FadeAction::Dim <==> mode == FadeMode::Dim && left > 0 && 5 * left
                <= fade_secs * 1_000_000_000 && left <= 2_000_000_000
        }),
{
}

/// The name of the mode may be written in any case and with white space around it; every other
/// value means that messages are removed without being dimmed.
pub proof fn mode_is_read_leniently(front: Seq<char>, s: Seq<char>, back: Seq<char>)
    requires
        text::all_white(front),
        text::all_white(back),
        text::tight(s),
    ensures
        fade_mode(front + s + back) == FadeMode::Dim <==> text::lowered(s) == "dim"@,
        fade_mode(front + s + back) != FadeMode::Dim ==> fade_mode(front + s + back)
            == FadeMode::Remove,
{
    text::trimming_frees_the_text(front, s, back);
}

/// The window is a fifth of the lifetime, or two seconds where that is less.
pub proof fn window_is_a_fifth(fade_secs: u64)
    ensures
        5 * window_nanos(fade_secs) <= fade_secs * 1_000_000_000,
        window_nanos(fade_secs) <= 2_000_000_000,
        5 * window_nanos(fade_secs) == fade_secs * 1_000_000_000 || window_nanos(fade_secs)
            == 2_000_000_000,
{
}

} // verus!

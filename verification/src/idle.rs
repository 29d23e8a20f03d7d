//! When the seat is idle: which compositor globals are needed to know, and
//! what they report.

use crate::text;
use vstd::prelude::*;

verus! {

/// What the compositor reports about the seat.
#[derive(Clone, Copy, Debug)]
pub enum IdleEvent {
    Idled,
    Resumed,
}

/// What to do about a global that the compositor offers.
#[derive(Clone, Copy, Debug)]
pub enum Binding {
    /// Bind the seat, in the given version of its interface.
    Seat { version: u32 },
    /// Bind the idle notifier, in the given version of its interface.
    Notifier { version: u32 },
    /// Leave it.
    Ignore,
}

/// The lower of two versions.
pub open spec fn lower(a: u32, b: u32) -> u32 {
    if a <= b {
        a
    } else {
        b
    }
}

/// Decides what to do about a global, in no higher version than we know.
pub fn binding(interface: &str, version: u32) -> (b: Binding)
    ensures
        b == (if interface@ == "wl_seat"@ {
            Binding::Seat { version: lower(version, 7) }
        } else if interface@ == "ext_idle_notifier_v1"@ {
            Binding::Notifier { version: lower(version, 1) }
        } else {
            Binding::Ignore
        }),
{
    if text::equal(interface, "wl_seat") {
        Binding::Seat { version: if version <= 7 { version } else { 7 } }
    } else if text::equal(interface, "ext_idle_notifier_v1") {
        Binding::Notifier { version: if version <= 1 { version } else { 1 } }
    } else {
        Binding::Ignore
    }
}

/// The compositor does not tell when the seat is idle.
#[derive(Clone, Copy, Debug)]
pub struct Unsupported;

impl Unsupported {
    /// The error in words.
    pub fn message(&self) -> (m: String)
        ensures
            m@
                == "compositor does not advertise ext-idle-notify-v1; idle integration disabled"@,
    {
        "compositor does not advertise ext-idle-notify-v1; idle integration disabled".to_owned()
    }
}

/// Whether to subscribe, once the globals are known: that takes both a notifier
/// and a seat.
pub fn subscribe<N, S>(notifier: Option<N>, seat: Option<S>) -> (r: Result<(N, S), Unsupported>)
    ensures
        match (notifier, seat) {
            (Some(n), Some(s)) => r == Ok::<(N, S), Unsupported>((n, s)),
            _ => r is Err,
        },
{
    match (notifier, seat) {
        (Some(n), Some(s)) => Ok((n, s)),
        _ => Err(Unsupported),
    }
}

/// The lower of two versions is one of them, and no higher than either.
pub proof fn law_lower(a: u32, b: u32)
    ensures
        lower(a, b) <= a,
        lower(a, b) <= b,
        lower(a, b) == a || lower(a, b) == b,
{
}

}

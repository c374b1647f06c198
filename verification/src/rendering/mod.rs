//! What the renderer decides without the GPU: how grids scroll, where glyphs and messages
//! go, and when the next frame is due.
pub mod cmdline_grid;
pub mod grid;
pub mod grids;
pub mod highlights;
pub mod message_grids;
pub mod pipelines;
pub mod scrolling_grids;
pub mod state;

use core::time::Duration;
use vstd::prelude::*;

verus! {

/// The length of a duration in nanoseconds (`Duration::as_nanos`).
pub uninterp spec fn duration_nanos(d: Duration) -> u128;

/// `Duration::as_nanos`: the whole nanoseconds of the duration. A duration is whole
/// seconds and a part of a second under one billion nanoseconds, so no other duration has
/// as many nanoseconds.
#[verifier::external_body]
fn as_nanos(d: &Duration) -> (r: u128)
    ensures
        r == duration_nanos(*d),
        forall|e: Duration| #[trigger] duration_nanos(e) == r ==> e == *d,
{
    d.as_nanos()
}

/// Whether the screen changes without new input: not at all, continuously, or after a
/// delay.
#[derive(Debug, Clone, Copy, PartialEq, Eq, Default)]
pub enum Motion {
    #[default]
    Still,
    Animating,
    Delay(Duration),
}

/// The shorter of two delays, the first where they are as long.
pub open spec fn shorter(a: Duration, b: Duration) -> Duration {
    if duration_nanos(a) <= duration_nanos(b) {
        a
    } else {
        b
    }
}

/// The motion that needs the soonest redraw.
pub open spec fn soonest_spec(m: Motion, other: Motion) -> Motion {
    match (m, other) {
        (Motion::Animating, _) => Motion::Animating,
        (_, Motion::Animating) => Motion::Animating,
        (Motion::Delay(a), Motion::Delay(b)) => Motion::Delay(shorter(a, b)),
        (Motion::Delay(a), Motion::Still) => Motion::Delay(a),
        (Motion::Still, Motion::Delay(b)) => Motion::Delay(b),
        (Motion::Still, Motion::Still) => Motion::Still,
    }
}

/// Combining with a still screen changes nothing, an animation wins over anything, and the
/// order does not matter but between two delays of the same length.
pub proof fn soonest_laws(m: Motion, n: Motion)
    ensures
        soonest_spec(Motion::Still, m) == m,
        soonest_spec(m, Motion::Still) == m,
        soonest_spec(Motion::Animating, m) == Motion::Animating,
        soonest_spec(m, Motion::Animating) == Motion::Animating,
        !(m matches Motion::Delay(a) && n matches Motion::Delay(b) && duration_nanos(a)
            == duration_nanos(b)) ==> soonest_spec(m, n) == soonest_spec(n, m),
{
}

/// Two delays give the shorter one, and combining three motions gives the same in either
/// grouping.
pub proof fn soonest_delays_and_grouping(a: Duration, b: Duration, m: Motion, n: Motion, o: Motion)
    ensures
        soonest_spec(Motion::Delay(a), Motion::Delay(b)) == Motion::Delay(shorter(a, b)),
        duration_nanos(shorter(a, b)) <= duration_nanos(a),
        duration_nanos(shorter(a, b)) <= duration_nanos(b),
        soonest_spec(soonest_spec(m, n), o) == soonest_spec(m, soonest_spec(n, o)),
{
}

impl Motion {
    /// The motion that needs the soonest redraw: animating before any delay, and the
    /// shorter of two delays.
    pub fn soonest(self, other: Motion) -> (r: Motion)
        ensures
            r == soonest_spec(self, other),
            r == soonest_spec(other, self),
    {
        match (self, other) {
            (Motion::Animating, _) | (_, Motion::Animating) => Motion::Animating,
            (Motion::Delay(a), Motion::Delay(b)) => {
                if as_nanos(&a) <= as_nanos(&b) {
                    Motion::Delay(a)
                } else {
                    Motion::Delay(b)
                }
            },
            (Motion::Delay(d), Motion::Still) | (Motion::Still, Motion::Delay(d)) => Motion::Delay(d),
            (Motion::Still, Motion::Still) => Motion::Still,
        }
    }
}

} // verus!

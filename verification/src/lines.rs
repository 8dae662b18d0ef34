//! The pixels of a line on the pixel grid.

use vstd::prelude::*;
use vstd::arithmetic::div_mod::{
    lemma_div_is_ordered,
    lemma_div_multiples_vanish,
    lemma_fundamental_div_mod,
    lemma_fundamental_div_mod_converse,
};

verus! {

/// The distance between two coordinates.
pub open spec fn span(from: int, to: int) -> int {
    if from <= to {
        to - from
    } else {
        from - to
    }
}

/// The coordinate `steps` away from `from` in the direction of `to`.
pub open spec fn toward(from: int, to: int, steps: int) -> int {
    if from <= to {
        from + steps
    } else {
        from - steps
    }
}

/// How far a line has moved along its minor axis after `k` steps along its
/// major axis, where the line spans `major` and `minor` in all: the slope
/// added up `k` times, rounded down.
pub open spec fn minor_steps(k: int, major: int, minor: int) -> int {
    if major == 0 {
        0
    } else {
        k * minor / major
    }
}

/// The number of steps from the first pixel of a line to its last.
pub open spec fn line_steps(x0: int, y0: int, x1: int, y1: int) -> int {
    if span(x0, x1) >= span(y0, y1) {
        span(x0, x1)
    } else {
        span(y0, y1)
    }
}

/// The pixel that a line reaches after `k` steps. The axis along which the
/// line spans more is the driving axis and moves one pixel with each step;
/// where the spans are equal, that is the x axis.
pub open spec fn line_point(x0: int, y0: int, x1: int, y1: int, k: int) -> (int, int) {
    let dx = span(x0, x1);
    let dy = span(y0, y1);
    if dx >= dy {
        (toward(x0, x1, k), toward(y0, y1, minor_steps(k, dx, dy)))
    } else {
        (toward(x0, x1, minor_steps(k, dy, dx)), toward(y0, y1, k))
    }
}

/// Whether the line from `(x0, y0)` to `(x1, y1)` visits the pixel `(x, y)`.
pub open spec fn on_line(x0: int, y0: int, x1: int, y1: int, x: int, y: int) -> bool {
    exists|k: int|
        0 <= k <= line_steps(x0, y0, x1, y1) && #[trigger] line_point(x0, y0, x1, y1, k) == (x, y)
}

/// One more step along the major axis adds the slope to what has been added
/// up: the minor axis moves when the sum reaches a whole pixel, and never
/// beyond the end of the line.
pub proof fn lemma_minor_step(k: int, major: int, minor: int)
    requires
        0 <= k < major,
        0 <= minor <= major,
    ensures
        0 <= (k * minor) % major < major,
        0 <= minor_steps(k, major, minor),
        minor_steps(k + 1, major, minor) <= minor,
        (k * minor) % major + minor >= major ==> minor_steps(k + 1, major, minor) == minor_steps(
            k,
            major,
            minor,
        ) + 1 && ((k + 1) * minor) % major == (k * minor) % major + minor - major,
        (k * minor) % major + minor < major ==> minor_steps(k + 1, major, minor) == minor_steps(
            k,
            major,
            minor,
        ) && ((k + 1) * minor) % major == (k * minor) % major + minor,
{
    let q = (k * minor) / major;
    let r = (k * minor) % major;
    lemma_fundamental_div_mod(k * minor, major);
    assert((k + 1) * minor == k * minor + minor) by (nonlinear_arith);
    assert(major * q == q * major && (q + 1) * major == q * major + major) by (nonlinear_arith);
    assert(0 <= k * minor) by (nonlinear_arith)
        requires
            0 <= k,
            0 <= minor,
    ;
    assert(0 <= q) by {
        lemma_div_is_ordered(0, k * minor, major);
    }
    if r + minor >= major {
        lemma_fundamental_div_mod_converse((k + 1) * minor, major, q + 1, r + minor - major);
    } else {
        lemma_fundamental_div_mod_converse((k + 1) * minor, major, q, r + minor);
    }
    assert((k + 1) * minor <= major * minor) by (nonlinear_arith)
        requires
            k + 1 <= major,
            0 <= minor,
    ;
    lemma_div_is_ordered((k + 1) * minor, major * minor, major);
    lemma_div_multiples_vanish(minor, major);
}

/// At its last step a line has moved along its minor axis by all it spans there.
pub proof fn lemma_minor_end(major: int, minor: int)
    requires
        0 <= minor <= major,
    ensures
        minor_steps(major, major, minor) == minor,
{
    if major > 0 {
        lemma_div_multiples_vanish(minor, major);
    }
}

/// A line visits both of its ends: the first after no step, the second after
/// the last.
pub proof fn lemma_line_ends(x0: int, y0: int, x1: int, y1: int)
    ensures
        line_point(x0, y0, x1, y1, 0) == (x0, y0),
        line_point(x0, y0, x1, y1, line_steps(x0, y0, x1, y1)) == (x1, y1),
        on_line(x0, y0, x1, y1, x0, y0),
        on_line(x0, y0, x1, y1, x1, y1),
{
    let dx = span(x0, x1);
    let dy = span(y0, y1);
    if dx >= dy {
        lemma_minor_end(dx, dy);
    } else {
        lemma_minor_end(dy, dx);
    }
    assert(0 * dy / dx == 0 || dx == 0) by (nonlinear_arith)
        requires
            dx >= 0,
    ;
    assert(0 * dx / dy == 0 || dy == 0) by (nonlinear_arith)
        requires
            dy >= 0,
    ;
    assert(line_point(x0, y0, x1, y1, 0) == (x0, y0));
    assert(line_point(x0, y0, x1, y1, line_steps(x0, y0, x1, y1)) == (x1, y1));
}

} // verus!

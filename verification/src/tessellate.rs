//! Arc tessellation.
//!
//! An arc is described by its start and end angle in fixed-point radians;
//! the source format allows `start > end` to mean a sweep that wraps through
//! zero.  The sweep is normalized to the counter-clockwise angular distance
//! from start to end (a coinciding start and end mean a full circle), then
//! subdivided into a fixed number of equal angular steps regardless of
//! radius or sweep size — a documented resolution trade-off: tiny full
//! circles and long shallow arcs get the same segment count.

use vstd::prelude::*;

use crate::fixed::FULL_TURN;

verus! {

/// Every arc is approximated by this many consecutive segments.
pub const ARC_SEGMENTS: usize = 32;

/// The normalized sweep: `end - start`, plus a full turn whenever that
/// difference is not positive.
pub open spec fn spec_sweep(start: int, end: int) -> int {
    if end - start <= 0 {
        end - start + FULL_TURN
    } else {
        end - start
    }
}

/// The i-th sample angle of the subdivision: start plus `i` equal steps of
/// the sweep (rounding once per sample, so the last sample lands exactly on
/// `start + sweep`).
pub open spec fn spec_sample(start: int, end: int, i: int) -> int {
    start + spec_sweep(start, end) * i / (ARC_SEGMENTS as int)
}

/// One straight segment of a tessellated arc, described by the angles of
/// its two endpoints.
#[derive(Debug, Clone, Copy, PartialEq, Eq, Structural)]
pub struct ArcSegment {
    pub a1: i64,
    pub a2: i64,
}

/// Normalizes the sweep of an arc.
pub fn normalize_sweep(start: i64, end: i64) -> (s: i64)
    requires
        0 <= start <= FULL_TURN,
        0 <= end <= FULL_TURN,
    ensures
        s == spec_sweep(start as int, end as int),
        0 <= s <= FULL_TURN,
{
    let d = end - start;
    if d <= 0 {
        d + FULL_TURN
    } else {
        d
    }
}

/// The sample angles of the subdivision, from the start angle (inclusive)
/// to the far end of the sweep (inclusive): one more angle than there are
/// segments.
pub fn arc_sample_angles(start: i64, end: i64) -> (angles: Vec<i64>)
    requires
        0 <= start <= FULL_TURN,
        0 <= end <= FULL_TURN,
    ensures
        angles@.len() == ARC_SEGMENTS + 1,
        forall|i: int|
            0 <= i <= ARC_SEGMENTS ==> #[trigger] angles@[i] == spec_sample(
                start as int,
                end as int,
                i,
            ),
        angles@[0] == start,
        angles@[ARC_SEGMENTS as int] == start + spec_sweep(start as int, end as int),
{
    let sweep = normalize_sweep(start, end);
    let mut angles: Vec<i64> = Vec::new();
    let mut i: usize = 0;
    while i <= ARC_SEGMENTS
        invariant
            0 <= i <= ARC_SEGMENTS + 1,
            0 <= sweep <= FULL_TURN,
            sweep == spec_sweep(start as int, end as int),
            0 <= start <= FULL_TURN,
            angles@.len() == i,
            forall|j: int|
                0 <= j < i ==> #[trigger] angles@[j] == spec_sample(start as int, end as int, j),
        decreases ARC_SEGMENTS + 1 - i,
    {
        proof {
            assert((sweep as int) * (i as int) <= (FULL_TURN as int) * 33) by (nonlinear_arith)
                requires
                    0 <= sweep <= FULL_TURN,
                    0 <= i <= 32,
            ;
            assert((sweep as int) * (i as int) >= 0) by (nonlinear_arith)
                requires
                    sweep >= 0,
                    i >= 0,
            ;
        }
        let offset: u64 = ((sweep as u64) * (i as u64)) / 32;
        proof {
            assert((sweep as int) * (i as int) / 32 <= (sweep as int)) by (nonlinear_arith)
                requires
                    0 <= sweep,
                    0 <= i <= 32,
            ;
        }
        angles.push(start + (offset as i64));
        i = i + 1;
    }
    proof {
        assert(angles@[ARC_SEGMENTS as int] == spec_sample(start as int, end as int, 32));
        assert(spec_sweep(start as int, end as int) * 32 / 32 == spec_sweep(start as int, end as int))
            by (nonlinear_arith);
        assert(spec_sample(start as int, end as int, 0) == start);
    }
    angles
}

/// Tessellates an arc into its fixed number of consecutive segments: the
/// first starts at the start angle, each further one starts where the
/// previous ended, and the last ends a full normalized sweep past the
/// start.
pub fn tessellate_arc(start: i64, end: i64) -> (segs: Vec<ArcSegment>)
    requires
        0 <= start <= FULL_TURN,
        0 <= end <= FULL_TURN,
    ensures
        segs@.len() == ARC_SEGMENTS,
        forall|i: int|
            0 <= i < ARC_SEGMENTS ==> #[trigger] segs@[i].a1 == spec_sample(
                start as int,
                end as int,
                i,
            ) && segs@[i].a2 == spec_sample(start as int, end as int, i + 1),
{
    let angles = arc_sample_angles(start, end);
    let mut segs: Vec<ArcSegment> = Vec::new();
    let mut i: usize = 0;
    while i < ARC_SEGMENTS
        invariant
            0 <= i <= ARC_SEGMENTS,
            angles@.len() == ARC_SEGMENTS + 1,
            forall|j: int|
                0 <= j <= ARC_SEGMENTS ==> #[trigger] angles@[j] == spec_sample(
                    start as int,
                    end as int,
                    j,
                ),
            segs@.len() == i,
            forall|j: int|
                0 <= j < i ==> #[trigger] segs@[j].a1 == spec_sample(start as int, end as int, j)
                    && segs@[j].a2 == spec_sample(start as int, end as int, j + 1),
        decreases ARC_SEGMENTS - i,
    {
        segs.push(ArcSegment { a1: angles[i], a2: angles[i + 1] });
        i = i + 1;
    }
    segs
}

/// A coinciding start and end angle mean a full circle: the normalized
/// sweep is a whole turn, never zero.
pub proof fn lemma_full_circle_sweep(a: int)
    ensures
        spec_sweep(a, a) == FULL_TURN,
{
}

/// A wrap-around arc (`end` before `start`) sweeps through zero: its
/// normalized sweep is `end + FULL_TURN - start`.
pub proof fn lemma_wraparound_sweep(start: int, end: int)
    requires
        end <= start,
    ensures
        spec_sweep(start, end) == end + FULL_TURN - start,
{
}

/// The normalized sweep is always the positive counter-clockwise distance
/// from start to end, at most one turn — except for the single degenerate
/// input `start = FULL_TURN, end = 0`, whose difference is a full negative
/// turn and which normalizes to zero.
pub proof fn lemma_sweep_positive(start: int, end: int)
    requires
        0 <= start <= FULL_TURN,
        0 <= end <= FULL_TURN,
        end - start != -FULL_TURN,
    ensures
        0 < spec_sweep(start, end) <= FULL_TURN,
{
}

} // verus!

//! The render-ready overlay cache.
//!
//! Four flat buckets of drawable primitives, rebuilt wholesale on every
//! import and read once per display refresh.  There is no incremental
//! update: an import clears all four buckets and refills them from the
//! records of one file, so the final contents are a pure function of those
//! records, independent of whatever the cache held before.  The clearing
//! happens first, so a file that fails to parse leaves the view empty —
//! the previously displayed drawing is not restored.

use vstd::prelude::*;

use crate::entity::{
    canon_matches, record_converts, spec_lw_vertices, spec_poly_vertices, spec_remap,
    CanonicalShape, DisplayColor, RawEntityData, RawEntityRecord,
};
use crate::fixed::{spec_deg_to_rad, Vec3Fx};

verus! {

/// A line-segment primitive: start, end, color.
pub type LinePrim = (Vec3Fx, Vec3Fx, DisplayColor);

/// A circle primitive: center, radius, color.
pub type CirclePrim = (Vec3Fx, i64, DisplayColor);

/// An arc primitive: center, radius, start and end angle in fixed-point
/// radians, color.
pub type ArcPrim = (Vec3Fx, i64, i64, i64, DisplayColor);

/// A polyline primitive: vertices, closed flag, color.
pub type PolyPrim = (Vec<Vec3Fx>, bool, DisplayColor);

/// The flat, render-ready primitive buckets.
#[derive(Debug)]
pub struct DxfDrawData {
    pub lines: Vec<LinePrim>,
    pub circles: Vec<CirclePrim>,
    pub arcs: Vec<ArcPrim>,
    pub polylines: Vec<PolyPrim>,
}

/// Mathematical contents of a polyline bucket: the vertex vector replaced
/// by its sequence.
pub open spec fn poly_view(s: Seq<PolyPrim>) -> Seq<(Seq<Vec3Fx>, bool, DisplayColor)> {
    s.map_values(|t: PolyPrim| (t.0@, t.1, t.2))
}

/// Per-kind counts of one import pass: how many primitives of each kind
/// were converted, and how many records were skipped (malformed,
/// unrecognized, or degenerate).
#[derive(Debug, Clone, Copy, PartialEq, Eq, Structural)]
pub struct ImportReport {
    pub line_count: usize,
    pub circle_count: usize,
    pub arc_count: usize,
    pub polyline_count: usize,
    pub skipped_count: usize,
}

/// What one record adds to the line bucket.
pub open spec fn step_lines(s: Seq<LinePrim>, r: RawEntityRecord) -> Seq<LinePrim> {
    match r.data {
        RawEntityData::Line { p1, p2 } => if record_converts(r.data) {
            s.push((spec_remap(p1), spec_remap(p2), DisplayColor::White))
        } else {
            s
        },
        _ => s,
    }
}

/// What one record adds to the circle bucket.
pub open spec fn step_circles(s: Seq<CirclePrim>, r: RawEntityRecord) -> Seq<CirclePrim> {
    match r.data {
        RawEntityData::Circle { center, radius } => if record_converts(r.data) {
            s.push((spec_remap(center), radius, DisplayColor::Cyan))
        } else {
            s
        },
        _ => s,
    }
}

/// What one record adds to the arc bucket.
pub open spec fn step_arcs(s: Seq<ArcPrim>, r: RawEntityRecord) -> Seq<ArcPrim> {
    match r.data {
        RawEntityData::Arc { center, radius, start_angle_deg, end_angle_deg } => if
        record_converts(r.data) {
            s.push(
                (
                    spec_remap(center),
                    radius,
                    spec_deg_to_rad(start_angle_deg as int) as i64,
                    spec_deg_to_rad(end_angle_deg as int) as i64,
                    DisplayColor::Yellow,
                ),
            )
        } else {
            s
        },
        _ => s,
    }
}

/// What one record adds to the polyline bucket.
pub open spec fn step_polylines(s: Seq<(Seq<Vec3Fx>, bool, DisplayColor)>, r: RawEntityRecord) -> Seq<
    (Seq<Vec3Fx>, bool, DisplayColor),
> {
    match r.data {
        RawEntityData::LwPolyline { vertices, closed } => if record_converts(r.data) {
            s.push((spec_lw_vertices(vertices@), closed, DisplayColor::Green))
        } else {
            s
        },
        RawEntityData::Polyline { vertices, closed } => if record_converts(r.data) {
            s.push((spec_poly_vertices(vertices@), closed, DisplayColor::Green))
        } else {
            s
        },
        _ => s,
    }
}

/// The line segments an import of `rs` produces, in record order.
pub open spec fn spec_lines(rs: Seq<RawEntityRecord>) -> Seq<LinePrim>
    decreases rs.len(),
{
    if rs.len() == 0 {
        Seq::empty()
    } else {
        step_lines(spec_lines(rs.drop_last()), rs.last())
    }
}

/// The circles an import of `rs` produces, in record order.
pub open spec fn spec_circles(rs: Seq<RawEntityRecord>) -> Seq<CirclePrim>
    decreases rs.len(),
{
    if rs.len() == 0 {
        Seq::empty()
    } else {
        step_circles(spec_circles(rs.drop_last()), rs.last())
    }
}

/// The arcs an import of `rs` produces, in record order; angles converted
/// from degrees to fixed-point radians.
pub open spec fn spec_arcs(rs: Seq<RawEntityRecord>) -> Seq<ArcPrim>
    decreases rs.len(),
{
    if rs.len() == 0 {
        Seq::empty()
    } else {
        step_arcs(spec_arcs(rs.drop_last()), rs.last())
    }
}

/// The polylines an import of `rs` produces, in record order; lightweight
/// polylines lifted to height zero, full polylines axis-remapped, and
/// anything with fewer than two vertices dropped.
pub open spec fn spec_polylines(rs: Seq<RawEntityRecord>) -> Seq<(Seq<Vec3Fx>, bool, DisplayColor)>
    decreases rs.len(),
{
    if rs.len() == 0 {
        Seq::empty()
    } else {
        step_polylines(spec_polylines(rs.drop_last()), rs.last())
    }
}

/// How many records of `rs` are skipped rather than converted.
pub open spec fn spec_skipped(rs: Seq<RawEntityRecord>) -> int
    decreases rs.len(),
{
    if rs.len() == 0 {
        0
    } else {
        spec_skipped(rs.drop_last()) + if record_converts(rs.last().data) {
            0int
        } else {
            1int
        }
    }
}

/// Each bucket gains at most one primitive per record.
pub proof fn lemma_bucket_lens(rs: Seq<RawEntityRecord>)
    ensures
        spec_lines(rs).len() <= rs.len(),
        spec_circles(rs).len() <= rs.len(),
        spec_arcs(rs).len() <= rs.len(),
        spec_polylines(rs).len() <= rs.len(),
        0 <= spec_skipped(rs) <= rs.len(),
    decreases rs.len(),
{
    if rs.len() > 0 {
        lemma_bucket_lens(rs.drop_last());
    }
}

impl DxfDrawData {
    /// An overlay with all four buckets empty.
    pub fn new() -> (d: DxfDrawData)
        ensures
            d.lines@.len() == 0,
            d.circles@.len() == 0,
            d.arcs@.len() == 0,
            d.polylines@.len() == 0,
    {
        DxfDrawData {
            lines: Vec::new(),
            circles: Vec::new(),
            arcs: Vec::new(),
            polylines: Vec::new(),
        }
    }

    /// Empties all four buckets.
    pub fn clear(&mut self)
        ensures
            final(self).lines@.len() == 0,
            final(self).circles@.len() == 0,
            final(self).arcs@.len() == 0,
            final(self).polylines@.len() == 0,
    {
        self.lines.clear();
        self.circles.clear();
        self.arcs.clear();
        self.polylines.clear();
    }

    /// Appends one line-segment primitive.
    pub fn push_line(&mut self, p: LinePrim)
        ensures
            final(self).lines@ == old(self).lines@.push(p),
            final(self).circles@ == old(self).circles@,
            final(self).arcs@ == old(self).arcs@,
            final(self).polylines@ == old(self).polylines@,
    {
        self.lines.push(p);
    }

    /// Appends one circle primitive.
    pub fn push_circle(&mut self, p: CirclePrim)
        ensures
            final(self).circles@ == old(self).circles@.push(p),
            final(self).lines@ == old(self).lines@,
            final(self).arcs@ == old(self).arcs@,
            final(self).polylines@ == old(self).polylines@,
    {
        self.circles.push(p);
    }

    /// Appends one arc primitive.
    pub fn push_arc(&mut self, p: ArcPrim)
        ensures
            final(self).arcs@ == old(self).arcs@.push(p),
            final(self).lines@ == old(self).lines@,
            final(self).circles@ == old(self).circles@,
            final(self).polylines@ == old(self).polylines@,
    {
        self.arcs.push(p);
    }

    /// Appends one polyline primitive.
    pub fn push_polyline(&mut self, p: PolyPrim)
        ensures
            final(self).polylines@ == old(self).polylines@.push(p),
            final(self).lines@ == old(self).lines@,
            final(self).circles@ == old(self).circles@,
            final(self).arcs@ == old(self).arcs@,
    {
        self.polylines.push(p);
    }
}

impl Default for DxfDrawData {
    /// An overlay with all four buckets empty.
    fn default() -> (d: DxfDrawData)
        ensures
            d.lines@.len() == 0,
            d.circles@.len() == 0,
            d.arcs@.len() == 0,
            d.polylines@.len() == 0,
    {
        DxfDrawData::new()
    }
}

/// Which bucket, if any, one record went to.
enum ImportedKind {
    Line,
    Circle,
    Arc,
    Polyline,
    Skipped,
}

/// Converts one record and appends it to the bucket of its kind.
fn import_one(draw: &mut DxfDrawData, r: &RawEntityRecord) -> (k: ImportedKind)
    ensures
        final(draw).lines@ == step_lines(old(draw).lines@, *r),
        final(draw).circles@ == step_circles(old(draw).circles@, *r),
        final(draw).arcs@ == step_arcs(old(draw).arcs@, *r),
        poly_view(final(draw).polylines@) == step_polylines(poly_view(old(draw).polylines@), *r),
        (k matches ImportedKind::Line) <==> (record_converts(r.data) && r.data matches
            RawEntityData::Line { .. }),
        (k matches ImportedKind::Circle) <==> (record_converts(r.data) && r.data matches
            RawEntityData::Circle { .. }),
        (k matches ImportedKind::Arc) <==> (record_converts(r.data) && r.data matches
            RawEntityData::Arc { .. }),
        (k matches ImportedKind::Polyline) <==> (record_converts(r.data) && (r.data matches
            RawEntityData::LwPolyline { .. } || r.data matches RawEntityData::Polyline { .. })),
        (k matches ImportedKind::Skipped) <==> !record_converts(r.data),
{
    match crate::entity::normalize_record(r) {
        Option::Some(e) => {
            proof {
                assert(canon_matches(*r, e));
            }
            match e.shape {
                CanonicalShape::Line(l) => {
                    draw.push_line((l.start, l.end, e.meta.color));
                    ImportedKind::Line
                },
                CanonicalShape::Circle(c) => {
                    draw.push_circle((c.center, c.radius, e.meta.color));
                    ImportedKind::Circle
                },
                CanonicalShape::Arc(a) => {
                    draw.push_arc((a.center, a.radius, a.start_angle, a.end_angle, e.meta.color));
                    ImportedKind::Arc
                },
                CanonicalShape::Polyline(p) => {
                    let closed = p.closed;
                    let ghost vs = p.vertices@;
                    let ghost pv = poly_view(draw.polylines@);
                    let color = e.meta.color;
                    draw.push_polyline((p.vertices, closed, color));
                    proof {
                        assert(poly_view(draw.polylines@) =~= pv.push((vs, closed, color)));
                    }
                    ImportedKind::Polyline
                },
            }
        },
        Option::None => ImportedKind::Skipped,
    }
}

/// Rebuilds the overlay from the raw records of one file: clears every
/// bucket, then converts the records in order, appending each convertible
/// record to the bucket of its kind.  The final contents are exactly the
/// specification sequences of the records — a pure function of the file,
/// independent of the overlay's previous state.
pub fn import_records(draw: &mut DxfDrawData, records: &Vec<RawEntityRecord>) -> (report:
    ImportReport)
    ensures
        final(draw).lines@ == spec_lines(records@),
        final(draw).circles@ == spec_circles(records@),
        final(draw).arcs@ == spec_arcs(records@),
        poly_view(final(draw).polylines@) == spec_polylines(records@),
        report.line_count == spec_lines(records@).len(),
        report.circle_count == spec_circles(records@).len(),
        report.arc_count == spec_arcs(records@).len(),
        report.polyline_count == spec_polylines(records@).len(),
        report.skipped_count == spec_skipped(records@),
{
    draw.clear();
    let mut line_count: usize = 0;
    let mut circle_count: usize = 0;
    let mut arc_count: usize = 0;
    let mut polyline_count: usize = 0;
    let mut skipped_count: usize = 0;
    let mut i: usize = 0;
    proof {
        assert(records@.take(0) =~= Seq::<RawEntityRecord>::empty());
        assert(draw.lines@ =~= Seq::<LinePrim>::empty());
        assert(draw.circles@ =~= Seq::<CirclePrim>::empty());
        assert(draw.arcs@ =~= Seq::<ArcPrim>::empty());
        assert(poly_view(draw.polylines@) =~= Seq::<(Seq<Vec3Fx>, bool, DisplayColor)>::empty());
    }
    while i < records.len()
        invariant
            0 <= i <= records@.len(),
            draw.lines@ == spec_lines(records@.take(i as int)),
            draw.circles@ == spec_circles(records@.take(i as int)),
            draw.arcs@ == spec_arcs(records@.take(i as int)),
            poly_view(draw.polylines@) == spec_polylines(records@.take(i as int)),
            line_count == spec_lines(records@.take(i as int)).len(),
            circle_count == spec_circles(records@.take(i as int)).len(),
            arc_count == spec_arcs(records@.take(i as int)).len(),
            polyline_count == spec_polylines(records@.take(i as int)).len(),
            skipped_count == spec_skipped(records@.take(i as int)),
        decreases records@.len() - i,
    {
        proof {
            assert(records@.take(i + 1).drop_last() =~= records@.take(i as int));
            assert(records@.take(i + 1).last() == records@[i as int]);
            lemma_bucket_lens(records@.take(i as int));
        }
        let r = &records[i];
        match import_one(draw, r) {
            ImportedKind::Line => {
                line_count = line_count + 1;
            },
            ImportedKind::Circle => {
                circle_count = circle_count + 1;
            },
            ImportedKind::Arc => {
                arc_count = arc_count + 1;
            },
            ImportedKind::Polyline => {
                polyline_count = polyline_count + 1;
            },
            ImportedKind::Skipped => {
                skipped_count = skipped_count + 1;
            },
        }
        i = i + 1;
    }
    proof {
        assert(records@.take(records@.len() as int) =~= records@);
    }
    ImportReport { line_count, circle_count, arc_count, polyline_count, skipped_count }
}

/// A polyline with fewer than two vertices is degenerate: it contributes
/// nothing to any bucket — dropped silently, never an error that aborts
/// the import.
pub proof fn lemma_degenerate_polyline_dropped(
    r: RawEntityRecord,
    lines: Seq<LinePrim>,
    circles: Seq<CirclePrim>,
    arcs: Seq<ArcPrim>,
    polys: Seq<(Seq<Vec3Fx>, bool, DisplayColor)>,
)
    requires
        match r.data {
            RawEntityData::LwPolyline { vertices, closed } => vertices@.len() < 2,
            RawEntityData::Polyline { vertices, closed } => vertices@.len() < 2,
            _ => false,
        },
    ensures
        !record_converts(r.data),
        step_lines(lines, r) == lines,
        step_circles(circles, r) == circles,
        step_arcs(arcs, r) == arcs,
        step_polylines(polys, r) == polys,
{
}

/// Re-importing the same records is idempotent in the strongest sense: two
/// overlays rebuilt from the same record sequence hold identical contents,
/// whatever either held before its rebuild.
pub proof fn lemma_import_deterministic(
    rs: Seq<RawEntityRecord>,
    a: DxfDrawData,
    b: DxfDrawData,
)
    requires
        a.lines@ == spec_lines(rs),
        a.circles@ == spec_circles(rs),
        a.arcs@ == spec_arcs(rs),
        poly_view(a.polylines@) == spec_polylines(rs),
        b.lines@ == spec_lines(rs),
        b.circles@ == spec_circles(rs),
        b.arcs@ == spec_arcs(rs),
        poly_view(b.polylines@) == spec_polylines(rs),
    ensures
        a.lines@ == b.lines@,
        a.circles@ == b.circles@,
        a.arcs@ == b.arcs@,
        poly_view(a.polylines@) == poly_view(b.polylines@),
{
}

} // verus!

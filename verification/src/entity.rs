//! Typed drawing entities and their normalization.
//!
//! A raw record mirrors one entity as it appears in the source file, in the
//! source coordinate frame.  Normalization maps it to the display-oriented
//! target frame: the source axes `(x, y, z)` become `(x, z, y)`, so the
//! drawing's depth axis turns into the vertical axis.  Arc angles arrive in
//! degrees and leave in radians.  Each kind gets a fixed display color, and
//! a polyline with fewer than two vertices is dropped as degenerate.
//!
//! A record is *malformed* when a coordinate, radius or angle lies outside
//! the ranges this library accepts (see [`crate::fixed`]); malformed and
//! unrecognized records are skipped silently, never aborting the rest of an
//! import.

use vstd::prelude::*;

use crate::fixed::{
    coord_ok, deg_to_rad, div_trunc, midpoint, centroid, point2_ok, point_ok, spec_deg_to_rad,
    sum_x, sum_y, sum_z, Vec2Fx, Vec3Fx, MAX_COORD, MAX_DEGREES,
};

verus! {

/// The kinds of drawing entity this viewer understands.
#[derive(Debug, Clone, Copy, PartialEq, Eq, Structural)]
pub enum CadEntityType {
    Line,
    Circle,
    Arc,
    Polyline,
}

/// Display color assigned to a primitive; fixed per entity kind, never
/// configurable per entity.
#[derive(Debug, Clone, Copy, PartialEq, Eq, Structural)]
pub enum DisplayColor {
    White,
    Cyan,
    Yellow,
    Green,
}

/// Shared bookkeeping of a canonical entity: its kind, the layer it came
/// from, its display color, and whether it can be picked.
#[derive(Debug, Clone)]
pub struct CadEntity {
    pub entity_type: CadEntityType,
    pub layer: String,
    pub color: DisplayColor,
    pub selectable: bool,
}

/// A line segment in the target frame.
#[derive(Debug, Clone, Copy, PartialEq, Eq, Structural)]
pub struct LineEntity {
    pub start: Vec3Fx,
    pub end: Vec3Fx,
}

/// A circle in the target frame.
#[derive(Debug, Clone, Copy, PartialEq, Eq, Structural)]
pub struct CircleEntity {
    pub center: Vec3Fx,
    pub radius: i64,
}

/// An arc in the target frame; angles in fixed-point radians.
#[derive(Debug, Clone, Copy, PartialEq, Eq, Structural)]
pub struct ArcEntity {
    pub center: Vec3Fx,
    pub radius: i64,
    pub start_angle: i64,
    pub end_angle: i64,
}

/// A polyline in the target frame.
#[derive(Debug, Clone)]
pub struct PolylineEntity {
    pub vertices: Vec<Vec3Fx>,
    pub closed: bool,
}

/// Geometry of one raw record, in source coordinates.
#[derive(Debug, Clone)]
pub enum RawEntityData {
    Line { p1: Vec3Fx, p2: Vec3Fx },
    Circle { center: Vec3Fx, radius: i64 },
    Arc { center: Vec3Fx, radius: i64, start_angle_deg: i64, end_angle_deg: i64 },
    /// Lightweight polyline: planar vertices, implicitly at height zero.
    LwPolyline { vertices: Vec<Vec2Fx>, closed: bool },
    Polyline { vertices: Vec<Vec3Fx>, closed: bool },
    /// An entity kind this viewer does not draw.
    Unsupported,
}

/// One entity as parsed out of the source file; lives only for the duration
/// of a single import pass.
#[derive(Debug, Clone)]
pub struct RawEntityRecord {
    pub layer: String,
    pub data: RawEntityData,
}

/// Geometry of one canonical entity, in the target frame.
#[derive(Debug, Clone)]
pub enum CanonicalShape {
    Line(LineEntity),
    Circle(CircleEntity),
    Arc(ArcEntity),
    Polyline(PolylineEntity),
}

/// One entity after normalization: shared bookkeeping, an anchor point for
/// selection (midpoint, center or centroid), and the geometry itself.
#[derive(Debug, Clone)]
pub struct CanonicalEntity {
    pub meta: CadEntity,
    pub anchor: Vec3Fx,
    pub shape: CanonicalShape,
}

/// The axis remap from the source frame to the target frame.
pub open spec fn spec_remap(p: Vec3Fx) -> Vec3Fx {
    Vec3Fx { x: p.x, y: p.z, z: p.y }
}

/// A planar vertex placed in the target frame at height zero.
pub open spec fn spec_lift(p: Vec2Fx) -> Vec3Fx {
    Vec3Fx { x: p.x, y: 0, z: p.y }
}

/// The fixed display color of each entity kind.
pub open spec fn spec_color_of(k: CadEntityType) -> DisplayColor {
    match k {
        CadEntityType::Line => DisplayColor::White,
        CadEntityType::Circle => DisplayColor::Cyan,
        CadEntityType::Arc => DisplayColor::Yellow,
        CadEntityType::Polyline => DisplayColor::Green,
    }
}

/// Vertices of a lightweight polyline after normalization.
pub open spec fn spec_lw_vertices(vs: Seq<Vec2Fx>) -> Seq<Vec3Fx> {
    vs.map_values(|p: Vec2Fx| spec_lift(p))
}

/// Vertices of a full polyline after normalization.
pub open spec fn spec_poly_vertices(vs: Seq<Vec3Fx>) -> Seq<Vec3Fx> {
    vs.map_values(|p: Vec3Fx| spec_remap(p))
}

/// Whether every value a record carries lies in the accepted ranges.
pub open spec fn record_ok(d: RawEntityData) -> bool {
    match d {
        RawEntityData::Line { p1, p2 } => point_ok(p1) && point_ok(p2),
        RawEntityData::Circle { center, radius } => point_ok(center) && 0 <= radius <= MAX_COORD,
        RawEntityData::Arc { center, radius, start_angle_deg, end_angle_deg } => point_ok(center)
            && 0 <= radius <= MAX_COORD && 0 <= start_angle_deg <= MAX_DEGREES && 0
            <= end_angle_deg <= MAX_DEGREES,
        RawEntityData::LwPolyline { vertices, closed } => forall|i: int|
            0 <= i < vertices@.len() ==> point2_ok(vertices@[i]),
        RawEntityData::Polyline { vertices, closed } => forall|i: int|
            0 <= i < vertices@.len() ==> point_ok(vertices@[i]),
        RawEntityData::Unsupported => false,
    }
}

/// Whether a record yields a canonical entity: it must be well formed, and a
/// polyline must have at least two vertices.
pub open spec fn record_converts(d: RawEntityData) -> bool {
    record_ok(d) && match d {
        RawEntityData::LwPolyline { vertices, closed } => vertices@.len() >= 2,
        RawEntityData::Polyline { vertices, closed } => vertices@.len() >= 2,
        _ => true,
    }
}

/// The kind a convertible record normalizes to.
pub open spec fn spec_kind_of(d: RawEntityData) -> CadEntityType {
    match d {
        RawEntityData::Line { .. } => CadEntityType::Line,
        RawEntityData::Circle { .. } => CadEntityType::Circle,
        RawEntityData::Arc { .. } => CadEntityType::Arc,
        _ => CadEntityType::Polyline,
    }
}

/// Coordinate-wise midpoint, truncating toward zero.
pub open spec fn spec_midpoint(a: Vec3Fx, b: Vec3Fx) -> Vec3Fx {
    Vec3Fx {
        x: div_trunc(a.x + b.x, 2) as i64,
        y: div_trunc(a.y + b.y, 2) as i64,
        z: div_trunc(a.z + b.z, 2) as i64,
    }
}

/// Unweighted vertex average, truncating toward zero; the selection anchor
/// of a polyline.
pub open spec fn spec_centroid(vs: Seq<Vec3Fx>) -> Vec3Fx
    recommends
        vs.len() >= 1,
{
    Vec3Fx {
        x: div_trunc(sum_x(vs), vs.len() as int) as i64,
        y: div_trunc(sum_y(vs), vs.len() as int) as i64,
        z: div_trunc(sum_z(vs), vs.len() as int) as i64,
    }
}

/// What the canonical entity of a convertible record looks like, field by
/// field.  This is the whole conversion rule: geometry remapped into the
/// target frame, arc angles converted from degrees to radians, the color
/// fixed by kind, everything selectable, and the anchor at the midpoint,
/// center or centroid of the geometry.
pub open spec fn canon_matches(r: RawEntityRecord, e: CanonicalEntity) -> bool {
    &&& e.meta.entity_type == spec_kind_of(r.data)
    &&& e.meta.layer@ == r.layer@
    &&& e.meta.color == spec_color_of(spec_kind_of(r.data))
    &&& e.meta.selectable == true
    &&& match r.data {
        RawEntityData::Line { p1, p2 } => {
            &&& e.shape matches CanonicalShape::Line(l)
            &&& l.start == spec_remap(p1)
            &&& l.end == spec_remap(p2)
            &&& e.anchor == spec_midpoint(spec_remap(p1), spec_remap(p2))
        },
        RawEntityData::Circle { center, radius } => {
            &&& e.shape matches CanonicalShape::Circle(c)
            &&& c.center == spec_remap(center)
            &&& c.radius == radius
            &&& e.anchor == spec_remap(center)
        },
        RawEntityData::Arc { center, radius, start_angle_deg, end_angle_deg } => {
            &&& e.shape matches CanonicalShape::Arc(a)
            &&& a.center == spec_remap(center)
            &&& a.radius == radius
            &&& a.start_angle == spec_deg_to_rad(start_angle_deg as int)
            &&& a.end_angle == spec_deg_to_rad(end_angle_deg as int)
            &&& e.anchor == spec_remap(center)
        },
        RawEntityData::LwPolyline { vertices, closed } => {
            &&& e.shape matches CanonicalShape::Polyline(p)
            &&& p.vertices@ == spec_lw_vertices(vertices@)
            &&& p.closed == closed
            &&& e.anchor == spec_centroid(spec_lw_vertices(vertices@))
        },
        RawEntityData::Polyline { vertices, closed } => {
            &&& e.shape matches CanonicalShape::Polyline(p)
            &&& p.vertices@ == spec_poly_vertices(vertices@)
            &&& p.closed == closed
            &&& e.anchor == spec_centroid(spec_poly_vertices(vertices@))
        },
        RawEntityData::Unsupported => false,
    }
}

/// Applies the axis remap to one point.
pub fn remap_point(p: Vec3Fx) -> (r: Vec3Fx)
    ensures
        r == spec_remap(p),
{
    Vec3Fx { x: p.x, y: p.z, z: p.y }
}

fn check_point(p: Vec3Fx) -> (ok: bool)
    ensures
        ok == point_ok(p),
{
    -MAX_COORD <= p.x && p.x <= MAX_COORD && -MAX_COORD <= p.y && p.y <= MAX_COORD && -MAX_COORD
        <= p.z && p.z <= MAX_COORD
}

fn check_point2(p: Vec2Fx) -> (ok: bool)
    ensures
        ok == point2_ok(p),
{
    -MAX_COORD <= p.x && p.x <= MAX_COORD && -MAX_COORD <= p.y && p.y <= MAX_COORD
}

fn all_points2_ok(vs: &Vec<Vec2Fx>) -> (ok: bool)
    ensures
        ok == (forall|i: int| 0 <= i < vs@.len() ==> point2_ok(vs@[i])),
{
    let mut i: usize = 0;
    while i < vs.len()
        invariant
            0 <= i <= vs@.len(),
            forall|j: int| 0 <= j < i ==> point2_ok(vs@[j]),
        decreases vs@.len() - i,
    {
        if !check_point2(vs[i]) {
            proof {
                assert(!point2_ok(vs@[i as int]));
            }
            return false;
        }
        i = i + 1;
    }
    true
}

fn all_points_ok(vs: &Vec<Vec3Fx>) -> (ok: bool)
    ensures
        ok == (forall|i: int| 0 <= i < vs@.len() ==> point_ok(vs@[i])),
{
    let mut i: usize = 0;
    while i < vs.len()
        invariant
            0 <= i <= vs@.len(),
            forall|j: int| 0 <= j < i ==> point_ok(vs@[j]),
        decreases vs@.len() - i,
    {
        if !check_point(vs[i]) {
            proof {
                assert(!point_ok(vs@[i as int]));
            }
            return false;
        }
        i = i + 1;
    }
    true
}

fn lift_vertices(vs: &Vec<Vec2Fx>) -> (out: Vec<Vec3Fx>)
    ensures
        out@ == spec_lw_vertices(vs@),
        forall|i: int| 0 <= i < vs@.len() && point2_ok(vs@[i]) ==> point_ok(#[trigger] out@[i]),
{
    let mut out: Vec<Vec3Fx> = Vec::new();
    let mut i: usize = 0;
    while i < vs.len()
        invariant
            0 <= i <= vs@.len(),
            out@ =~= vs@.take(i as int).map_values(|p: Vec2Fx| spec_lift(p)),
        decreases vs@.len() - i,
    {
        let v = vs[i];
        out.push(Vec3Fx { x: v.x, y: 0, z: v.y });
        proof {
            assert(vs@.take(i + 1).map_values(|p: Vec2Fx| spec_lift(p)) =~= vs@.take(
                i as int,
            ).map_values(|p: Vec2Fx| spec_lift(p)).push(spec_lift(vs@[i as int])));
        }
        i = i + 1;
    }
    proof {
        assert(vs@.take(vs@.len() as int) =~= vs@);
    }
    out
}

fn remap_vertices(vs: &Vec<Vec3Fx>) -> (out: Vec<Vec3Fx>)
    ensures
        out@ == spec_poly_vertices(vs@),
        forall|i: int| 0 <= i < vs@.len() && point_ok(vs@[i]) ==> point_ok(#[trigger] out@[i]),
{
    let mut out: Vec<Vec3Fx> = Vec::new();
    let mut i: usize = 0;
    while i < vs.len()
        invariant
            0 <= i <= vs@.len(),
            out@ =~= vs@.take(i as int).map_values(|p: Vec3Fx| spec_remap(p)),
        decreases vs@.len() - i,
    {
        let v = vs[i];
        out.push(remap_point(v));
        proof {
            assert(vs@.take(i + 1).map_values(|p: Vec3Fx| spec_remap(p)) =~= vs@.take(
                i as int,
            ).map_values(|p: Vec3Fx| spec_remap(p)).push(spec_remap(vs@[i as int])));
        }
        i = i + 1;
    }
    proof {
        assert(vs@.take(vs@.len() as int) =~= vs@);
    }
    out
}

/// Normalizes one raw record.  Returns `None` exactly for records that do
/// not convert: malformed values, unrecognized kinds, and degenerate
/// polylines with fewer than two vertices.
pub fn normalize_record(r: &RawEntityRecord) -> (c: Option<CanonicalEntity>)
    ensures
        c is Some <==> record_converts(r.data),
        c matches Some(e) ==> canon_matches(*r, e),
{
    match &r.data {
        RawEntityData::Line { p1, p2 } => {
            if !check_point(*p1) || !check_point(*p2) {
                return None;
            }
            let start = remap_point(*p1);
            let end = remap_point(*p2);
            Some(
                CanonicalEntity {
                    meta: CadEntity {
                        entity_type: CadEntityType::Line,
                        layer: r.layer.clone(),
                        color: DisplayColor::White,
                        selectable: true,
                    },
                    anchor: midpoint(start, end),
                    shape: CanonicalShape::Line(LineEntity { start, end }),
                },
            )
        },
        RawEntityData::Circle { center, radius } => {
            if !check_point(*center) || !(0 <= *radius && *radius <= MAX_COORD) {
                return None;
            }
            let c = remap_point(*center);
            Some(
                CanonicalEntity {
                    meta: CadEntity {
                        entity_type: CadEntityType::Circle,
                        layer: r.layer.clone(),
                        color: DisplayColor::Cyan,
                        selectable: true,
                    },
                    anchor: c,
                    shape: CanonicalShape::Circle(CircleEntity { center: c, radius: *radius }),
                },
            )
        },
        RawEntityData::Arc { center, radius, start_angle_deg, end_angle_deg } => {
            if !check_point(*center) || !(0 <= *radius && *radius <= MAX_COORD) || !(0
                <= *start_angle_deg && *start_angle_deg <= MAX_DEGREES) || !(0 <= *end_angle_deg
                && *end_angle_deg <= MAX_DEGREES) {
                return None;
            }
            let c = remap_point(*center);
            Some(
                CanonicalEntity {
                    meta: CadEntity {
                        entity_type: CadEntityType::Arc,
                        layer: r.layer.clone(),
                        color: DisplayColor::Yellow,
                        selectable: true,
                    },
                    anchor: c,
                    shape: CanonicalShape::Arc(
                        ArcEntity {
                            center: c,
                            radius: *radius,
                            start_angle: deg_to_rad(*start_angle_deg),
                            end_angle: deg_to_rad(*end_angle_deg),
                        },
                    ),
                },
            )
        },
        RawEntityData::LwPolyline { vertices, closed } => {
            if !all_points2_ok(vertices) {
                return None;
            }
            if vertices.len() < 2 {
                return None;
            }
            let out = lift_vertices(vertices);
            let anchor = centroid(&out);
            Some(
                CanonicalEntity {
                    meta: CadEntity {
                        entity_type: CadEntityType::Polyline,
                        layer: r.layer.clone(),
                        color: DisplayColor::Green,
                        selectable: true,
                    },
                    anchor,
                    shape: CanonicalShape::Polyline(
                        PolylineEntity { vertices: out, closed: *closed },
                    ),
                },
            )
        },
        RawEntityData::Polyline { vertices, closed } => {
            if !all_points_ok(vertices) {
                return None;
            }
            if vertices.len() < 2 {
                return None;
            }
            let out = remap_vertices(vertices);
            let anchor = centroid(&out);
            Some(
                CanonicalEntity {
                    meta: CadEntity {
                        entity_type: CadEntityType::Polyline,
                        layer: r.layer.clone(),
                        color: DisplayColor::Green,
                        selectable: true,
                    },
                    anchor,
                    shape: CanonicalShape::Polyline(
                        PolylineEntity { vertices: out, closed: *closed },
                    ),
                },
            )
        },
        RawEntityData::Unsupported => None,
    }
}

} // verus!

use open_cad::entity::{
    normalize_record, CadEntityType, CanonicalShape, DisplayColor, RawEntityData, RawEntityRecord,
};
use open_cad::fixed::{Vec2Fx, Vec3Fx, SCALE};
use open_cad::overlay::{import_records, DxfDrawData};

fn v3(x: i64, y: i64, z: i64) -> Vec3Fx {
    Vec3Fx { x, y, z }
}

fn rec(data: RawEntityData) -> RawEntityRecord {
    RawEntityRecord { layer: String::from("0"), data }
}

fn one_of_each() -> Vec<RawEntityRecord> {
    vec![
        rec(RawEntityData::Line { p1: v3(0, 0, 0), p2: v3(SCALE, 0, 0) }),
        rec(RawEntityData::Circle { center: v3(0, 0, 0), radius: SCALE / 2 }),
        rec(RawEntityData::Arc {
            center: v3(SCALE, SCALE, 0),
            radius: SCALE,
            start_angle_deg: 0,
            end_angle_deg: 90_000_000,
        }),
        rec(RawEntityData::LwPolyline {
            vertices: vec![
                Vec2Fx { x: 0, y: 0 },
                Vec2Fx { x: SCALE, y: 0 },
                Vec2Fx { x: SCALE, y: SCALE },
                Vec2Fx { x: 0, y: SCALE },
            ],
            closed: true,
        }),
    ]
}

#[test]
fn one_primitive_of_each_kind_with_its_color() {
    let mut draw = DxfDrawData::new();
    let report = import_records(&mut draw, &one_of_each());
    assert_eq!(report.line_count, 1);
    assert_eq!(report.circle_count, 1);
    assert_eq!(report.arc_count, 1);
    assert_eq!(report.polyline_count, 1);
    assert_eq!(report.skipped_count, 0);
    assert_eq!(draw.lines.len(), 1);
    assert_eq!(draw.circles.len(), 1);
    assert_eq!(draw.arcs.len(), 1);
    assert_eq!(draw.polylines.len(), 1);
    assert_eq!(draw.lines[0].2, DisplayColor::White);
    assert_eq!(draw.circles[0].2, DisplayColor::Cyan);
    assert_eq!(draw.arcs[0].4, DisplayColor::Yellow);
    assert_eq!(draw.polylines[0].2, DisplayColor::Green);
}

#[test]
fn geometry_is_remapped_into_the_target_frame() {
    let mut draw = DxfDrawData::new();
    import_records(
        &mut draw,
        &vec![rec(RawEntityData::Line { p1: v3(1, 2, 3), p2: v3(4, 5, 6) })],
    );
    // Source (x, y, z) becomes target (x, z, y).
    assert_eq!(draw.lines[0].0, v3(1, 3, 2));
    assert_eq!(draw.lines[0].1, v3(4, 6, 5));
}

#[test]
fn arc_angles_arrive_in_degrees_and_leave_in_radians() {
    let mut draw = DxfDrawData::new();
    import_records(
        &mut draw,
        &vec![rec(RawEntityData::Arc {
            center: v3(0, 0, 0),
            radius: SCALE,
            start_angle_deg: 0,
            end_angle_deg: 90_000_000,
        })],
    );
    assert_eq!(draw.arcs[0].2, 0);
    assert_eq!(draw.arcs[0].3, 1_570_796);
}

#[test]
fn lightweight_vertices_sit_at_height_zero() {
    let mut draw = DxfDrawData::new();
    import_records(
        &mut draw,
        &vec![rec(RawEntityData::LwPolyline {
            vertices: vec![Vec2Fx { x: 7, y: 9 }, Vec2Fx { x: 1, y: 2 }],
            closed: false,
        })],
    );
    assert_eq!(draw.polylines[0].0, vec![v3(7, 0, 9), v3(1, 0, 2)]);
    assert!(!draw.polylines[0].1);
}

#[test]
fn degenerate_polylines_contribute_nothing() {
    let mut draw = DxfDrawData::new();
    let report = import_records(
        &mut draw,
        &vec![
            rec(RawEntityData::LwPolyline { vertices: vec![], closed: false }),
            rec(RawEntityData::LwPolyline {
                vertices: vec![Vec2Fx { x: 1, y: 1 }],
                closed: false,
            }),
            rec(RawEntityData::Polyline { vertices: vec![v3(1, 1, 1)], closed: true }),
        ],
    );
    assert_eq!(report.polyline_count, 0);
    assert_eq!(draw.polylines.len(), 0);
    assert_eq!(report.skipped_count, 3);
}

#[test]
fn unrecognized_records_are_skipped_without_aborting() {
    let mut draw = DxfDrawData::new();
    let report = import_records(
        &mut draw,
        &vec![
            rec(RawEntityData::Unsupported),
            rec(RawEntityData::Line { p1: v3(0, 0, 0), p2: v3(1, 1, 1) }),
            rec(RawEntityData::Arc {
                center: v3(0, 0, 0),
                radius: SCALE,
                start_angle_deg: 400_000_000,
                end_angle_deg: 0,
            }),
        ],
    );
    assert_eq!(report.line_count, 1);
    assert_eq!(report.skipped_count, 2);
    assert_eq!(draw.lines.len(), 1);
    assert_eq!(draw.arcs.len(), 0);
}

#[test]
fn reimport_of_the_same_records_is_bit_identical() {
    let records = one_of_each();
    let mut first = DxfDrawData::new();
    import_records(&mut first, &records);
    // A cache that held something completely different beforehand.
    let mut second = DxfDrawData::new();
    import_records(
        &mut second,
        &vec![rec(RawEntityData::Circle { center: v3(9, 9, 9), radius: 1 })],
    );
    import_records(&mut second, &records);
    assert_eq!(first.lines, second.lines);
    assert_eq!(first.circles, second.circles);
    assert_eq!(first.arcs, second.arcs);
    assert_eq!(first.polylines, second.polylines);
}

#[test]
fn normalization_keeps_layer_and_computes_anchor() {
    let r = RawEntityRecord {
        layer: String::from("walls"),
        data: RawEntityData::Polyline {
            vertices: vec![v3(0, 0, 0), v3(4, 2, 6)],
            closed: true,
        },
    };
    let c = normalize_record(&r).unwrap();
    assert_eq!(c.meta.entity_type, CadEntityType::Polyline);
    assert_eq!(c.meta.layer, "walls");
    assert_eq!(c.meta.color, DisplayColor::Green);
    assert!(c.meta.selectable);
    // Remapped vertices (0,0,0) and (4,6,2); centroid truncates toward zero.
    assert_eq!(c.anchor, v3(2, 3, 1));
    match c.shape {
        CanonicalShape::Polyline(p) => {
            assert_eq!(p.vertices, vec![v3(0, 0, 0), v3(4, 6, 2)]);
            assert!(p.closed);
        },
        _ => panic!("wrong shape"),
    }
}

#[test]
fn line_anchor_is_the_midpoint() {
    let r = rec(RawEntityData::Line { p1: v3(0, 0, 0), p2: v3(10, 4, 2) });
    let c = normalize_record(&r).unwrap();
    // Remapped endpoints (0,0,0) and (10,2,4).
    assert_eq!(c.anchor, v3(5, 1, 2));
}

#[test]
fn malformed_records_normalize_to_nothing() {
    let r = rec(RawEntityData::Circle { center: v3(0, 0, 0), radius: -1 });
    assert!(normalize_record(&r).is_none());
    let r2 = rec(RawEntityData::Unsupported);
    assert!(normalize_record(&r2).is_none());
}

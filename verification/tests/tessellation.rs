use open_cad::fixed::{deg_to_rad, FULL_TURN};
use open_cad::tessellate::{arc_sample_angles, normalize_sweep, tessellate_arc, ARC_SEGMENTS};

#[test]
fn full_circle_sweep_is_a_whole_turn() {
    assert_eq!(normalize_sweep(0, 0), FULL_TURN);
    assert_eq!(normalize_sweep(1_000_000, 1_000_000), FULL_TURN);
}

#[test]
fn full_circle_tessellates_into_32_segments() {
    let segs = tessellate_arc(0, 0);
    assert_eq!(segs.len(), 32);
    assert_eq!(segs.len(), ARC_SEGMENTS);
    assert_eq!(segs[0].a1, 0);
    assert_eq!(segs[31].a2, FULL_TURN);
    for i in 0..31 {
        assert_eq!(segs[i].a2, segs[i + 1].a1);
    }
}

#[test]
fn wraparound_sweep_spans_from_start_through_zero() {
    let start = deg_to_rad(300_000_000);
    let end = deg_to_rad(30_000_000);
    assert_eq!(start, 5_235_987);
    assert_eq!(end, 523_598);
    let sweep = normalize_sweep(start, end);
    assert_eq!(sweep, end + FULL_TURN - start);
    assert_eq!(sweep, deg_to_rad(90_000_000));
    let segs = tessellate_arc(start, end);
    assert_eq!(segs.len(), 32);
    assert_eq!(segs[0].a1, start);
    assert_eq!(segs[31].a2, start + sweep);
}

#[test]
fn plain_arc_sweep_is_the_difference() {
    let start = deg_to_rad(30_000_000);
    let end = deg_to_rad(300_000_000);
    assert_eq!(normalize_sweep(start, end), end - start);
}

#[test]
fn sample_angles_step_evenly() {
    let angles = arc_sample_angles(0, 0);
    assert_eq!(angles.len(), 33);
    assert_eq!(angles[0], 0);
    assert_eq!(angles[1], FULL_TURN / 32);
    assert_eq!(angles[16], FULL_TURN * 16 / 32);
    assert_eq!(angles[32], FULL_TURN);
}

#[test]
fn degrees_convert_to_fixed_point_radians() {
    assert_eq!(deg_to_rad(0), 0);
    assert_eq!(deg_to_rad(360_000_000), FULL_TURN);
    assert_eq!(deg_to_rad(180_000_000), FULL_TURN / 2);
    assert_eq!(deg_to_rad(90_000_000), 1_570_796);
}

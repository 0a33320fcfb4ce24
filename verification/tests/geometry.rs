//! Geometry and store unit checks on concrete values.

use system_language::elements::UNIT;
use system_language::geom::{
    compute_tangent_length_from_points, end_and_direction_from_subsystem, flow_curve_inflow,
    flow_curve_outflow, isqrt, rot_compose, rotate_vec, scale_by_zoom, ui_transform_from_button,
    unscale_by_zoom, Point, Rot, Transform,
};
use system_language::scene::Scene;

#[test]
fn integer_square_root() {
    assert_eq!(isqrt(0), 0);
    assert_eq!(isqrt(1), 1);
    assert_eq!(isqrt(35), 5);
    assert_eq!(isqrt(36), 6);
    assert_eq!(isqrt(99_999_999), 9999);
}

#[test]
fn tangent_length_is_a_third_of_the_distance() {
    let a = Point { x: 0, y: 0 };
    let b = Point { x: 3_000_000, y: 4_000_000 };
    // The distance is five units; the handle is a third of it.
    assert_eq!(compute_tangent_length_from_points(a, b), 5_000_000 / 3);
}

#[test]
fn zoom_scaling_round_trip() {
    let p = Point { x: 1_000_000, y: -2_000_000 };
    let z = scale_by_zoom(p, 200);
    assert_eq!(z, Point { x: 2_000_000, y: -4_000_000 });
    let back = unscale_by_zoom(z, 200);
    assert_eq!(back, p);
}

#[test]
fn rotation_composition() {
    let quarter = Rot { x: 0, y: UNIT };
    let half = rot_compose(quarter, quarter);
    assert_eq!(half.x, -UNIT);
    assert_eq!(half.y, 0);
    let v = rotate_vec(quarter, Point { x: 1_000_000, y: 0 });
    assert_eq!(v, Point { x: 0, y: 1_000_000 });
}

#[test]
fn button_transform_divides_and_rescales() {
    let button = Transform {
        translation: Point { x: 2_000_000, y: 0 },
        z: 5,
        rotation: Rot { x: UNIT, y: 0 },
    };
    let (world, initial) = ui_transform_from_button(&button, 7, 1_000_000, 200);
    // The button position divided by the zoom, moved one unit right.
    assert_eq!(initial, Point { x: 2_000_000, y: 0 });
    assert_eq!(world.translation, Point { x: 4_000_000, y: 0 });
    assert_eq!(world.z, 7);
    assert_eq!(world.rotation, button.rotation);
}

#[test]
fn flow_curves_mirror() {
    let dir = Rot { x: UNIT, y: 0 };
    let pos = Point { x: 0, y: 0 };
    let inflow = flow_curve_inflow(100, pos, dir, 100);
    let outflow = flow_curve_outflow(100, pos, dir, 100);
    assert_eq!(inflow.end, pos);
    assert_eq!(outflow.start, pos);
    assert_eq!(inflow.start, outflow.end);
    assert_eq!(inflow.start_dir, Point { x: -UNIT, y: 0 });
    assert_eq!(outflow.start_dir, Point { x: UNIT, y: 0 });
}

#[test]
fn disk_attachment_point() {
    let center = Point { x: 0, y: 0 };
    let anchor = Point { x: 10_000_000, y: 0 };
    let (point, dir, len) = end_and_direction_from_subsystem(center, 2_000_000, anchor);
    assert_eq!(len, 10_000_000);
    assert_eq!(dir.x, UNIT);
    assert_eq!(dir.y, 0);
    assert_eq!(point, Point { x: 2_000_000, y: 0 });
}

#[test]
fn store_tracks_additions() {
    let mut s = Scene::new(300_000_000, String::from("root"), String::new());
    assert!(s.contains(0));
    assert!(!s.contains(1));
    assert!(s.entry(9).is_err());
    let added = s.added_since(0);
    assert_eq!(added, vec![0]);
    s.set_selected(0, true).unwrap();
    assert!(s.entry(0).unwrap().selected);
}

use nodecanvas::frac::Frac;
use nodecanvas::geom::{Point2, ScreenPoint};
use nodecanvas::viewport::{scale_of_decis, zoom_to_scale, Viewport, MAX_ZOOM_DECIS};

fn val(f: Frac) -> f64 {
    f.num as f64 / f.den as f64
}

fn world_at(vp: &Viewport, p: ScreenPoint) -> Point2 {
    vp.screen_to_world(p).expect("world position should be representable")
}

fn frac_eq(a: Frac, b: Frac) -> bool {
    a.num as i128 * b.den as i128 == b.num as i128 * a.den as i128
}

#[test]
fn zoom_to_scale_fixed_points() {
    // scale(0) = 1, scale(1) = 2, scale(-1) = 1/2
    assert_eq!(val(zoom_to_scale(0)), 1.0);
    assert_eq!(val(zoom_to_scale(1)), 2.0);
    assert_eq!(val(zoom_to_scale(-1)), 0.5);
    assert_eq!(val(zoom_to_scale(4)), 16.0);
    assert_eq!(val(zoom_to_scale(-2)), 0.25);
}

#[test]
fn zoom_to_scale_strictly_increasing() {
    let mut z: i64 = -32;
    while z < 32 {
        let a = zoom_to_scale(z);
        let b = zoom_to_scale(z + 1);
        assert!((a.num as i128) * (b.den as i128) < (b.num as i128) * (a.den as i128));
        z += 1;
    }
}

#[test]
fn decis_scale_matches_whole_zoom() {
    // every ten wheel ticks the scale has doubled or halved exactly
    for z in -25i64..=25 {
        let fine = scale_of_decis(10 * z);
        let coarse = zoom_to_scale(z);
        assert!(frac_eq(fine, coarse));
    }
}

#[test]
fn decis_scale_strictly_increasing() {
    let mut d: i64 = -MAX_ZOOM_DECIS;
    while d < MAX_ZOOM_DECIS {
        let a = scale_of_decis(d);
        let b = scale_of_decis(d + 1);
        assert!((a.num as i128) * (b.den as i128) < (b.num as i128) * (a.den as i128));
        d += 1;
    }
}

#[test]
fn decis_scale_tracks_two_to_the_zoom() {
    // at every tenth of a zoom unit the ladder value is 2^(d/10) within
    // one part in a million (in fact within 2^-32 relative)
    for d in -MAX_ZOOM_DECIS..=MAX_ZOOM_DECIS {
        let s = val(scale_of_decis(d));
        let ideal = 2f64.powf(d as f64 / 10.0);
        assert!(((s - ideal) / ideal).abs() < 1e-6);
    }
}

#[test]
fn wheel_updates_zoom_one_tick() {
    // forward wheel delta (positive) zooms out by one tenth
    let mut vp = Viewport::new(800, 340);
    vp.apply_wheel(1, ScreenPoint { x: 100, y: 100 });
    assert_eq!(vp.zoom_decis, -1);
    let mut vp2 = Viewport::new(800, 340);
    vp2.apply_wheel(-1, ScreenPoint { x: 100, y: 100 });
    assert_eq!(vp2.zoom_decis, 1);
}

#[test]
fn wheel_scenario_closed_form() {
    // wheel(delta_y = 1, screen (100, 100)) from zoom 0, origin (800, 340):
    // zoom becomes -0.1; the scale is 2^-0.1 and the origin is
    // c - (c - o) * 2^-0.1, each within the 1e-6 tolerance
    let mut vp = Viewport::new(800, 340);
    vp.apply_wheel(1, ScreenPoint { x: 100, y: 100 });
    assert_eq!(vp.zoom_decis, -1);
    let scale = val(scale_of_decis(vp.zoom_decis));
    let ideal_scale = 2f64.powf(-0.1);
    assert!((scale - ideal_scale).abs() < 1e-6);
    let ideal_x = 100.0 - (100.0 - 800.0) * ideal_scale;
    let ideal_y = 100.0 - (100.0 - 340.0) * ideal_scale;
    assert!((val(vp.origin.x) - ideal_x).abs() < 1e-6);
    assert!((val(vp.origin.y) - ideal_y).abs() < 1e-6);
}

#[test]
fn wheel_pivot_invariant_within_tolerance() {
    // the world point under the cursor before a wheel event equals the
    // world point after it, within the 1e-6 tolerance, across zoom levels
    let cursor = ScreenPoint { x: 137, y: -42 };
    for start in [-25i64, -1, 0, 3, 17] {
        for delta in [-3i64, 1] {
            let mut vp = Viewport::new(800, 340);
            vp.zoom_decis = start;
            let before = world_at(&vp, cursor);
            vp.apply_wheel(delta, cursor);
            let after = world_at(&vp, cursor);
            assert!((val(before.x) - val(after.x)).abs() < 1e-6);
            assert!((val(before.y) - val(after.y)).abs() < 1e-6);
        }
    }
}

#[test]
fn wheel_pivot_invariant_many_events() {
    // several wheel events in a row, pivot preserved at each step
    let cursor = ScreenPoint { x: 100, y: 100 };
    let mut vp = Viewport::new(800, 340);
    for delta in [1i64, 1, -1, 1, -1, -1] {
        let before = world_at(&vp, cursor);
        vp.apply_wheel(delta, cursor);
        let after = world_at(&vp, cursor);
        assert!((val(before.x) - val(after.x)).abs() < 1e-6);
        assert!((val(before.y) - val(after.y)).abs() < 1e-6);
    }
}

#[test]
fn long_zoom_runs_keep_applying() {
    // the origin lives on a fixed grid, so arbitrarily long runs of
    // wheel events keep applying - with the pivot held at every step
    let cursor = ScreenPoint { x: 137, y: -42 };
    let mut vp = Viewport::new(800, 340);
    for _ in 0..40 {
        let before = world_at(&vp, cursor);
        vp.apply_wheel(1, cursor);
        let after = world_at(&vp, cursor);
        assert!((val(before.x) - val(after.x)).abs() < 1e-6);
        assert!((val(before.y) - val(after.y)).abs() < 1e-6);
    }
    assert_eq!(vp.zoom_decis, -40);
    for _ in 0..80 {
        vp.apply_wheel(-1, cursor);
    }
    assert_eq!(vp.zoom_decis, 40);
}

#[test]
fn wheel_clamps_at_zoom_band_edge() {
    let mut vp = Viewport::new(0, 0);
    vp.zoom_decis = MAX_ZOOM_DECIS;
    let origin_before = vp.origin;
    vp.apply_wheel(-1, ScreenPoint { x: 10, y: 10 });
    assert_eq!(vp.zoom_decis, MAX_ZOOM_DECIS);
    assert_eq!(vp.origin, origin_before);
    vp.zoom_decis = -MAX_ZOOM_DECIS;
    vp.apply_wheel(1, ScreenPoint { x: 10, y: 10 });
    assert_eq!(vp.zoom_decis, -MAX_ZOOM_DECIS);
}

#[test]
fn wheel_ignores_nonsense_cursor_positions() {
    let mut vp = Viewport::new(800, 340);
    vp.apply_wheel(1, ScreenPoint { x: i64::MAX, y: 100 });
    assert_eq!(vp.zoom_decis, 0);
    assert_eq!(val(vp.origin.x), 800.0);
}

#[test]
fn pan_only_while_dragging() {
    let mut vp = Viewport::new(800, 340);
    vp.apply_pan(5, -7);
    assert_eq!(val(vp.origin.x), 800.0);
    assert_eq!(val(vp.origin.y), 340.0);
    vp.begin_drag();
    vp.apply_pan(5, -7);
    assert_eq!(val(vp.origin.x), 805.0);
    assert_eq!(val(vp.origin.y), 333.0);
}

#[test]
fn pan_is_screen_space_under_zoom() {
    // panning adds the raw screen delta, with no scale correction
    let mut vp = Viewport::new(0, 0);
    vp.zoom_decis = 30;
    vp.begin_drag();
    vp.apply_pan(10, 20);
    assert_eq!(val(vp.origin.x), 10.0);
    assert_eq!(val(vp.origin.y), 20.0);
}

#[test]
fn drag_ends_on_release() {
    let mut vp = Viewport::new(0, 0);
    vp.begin_drag();
    assert!(vp.dragging);
    vp.end_drag();
    assert!(!vp.dragging);
    vp.apply_pan(3, 3);
    assert_eq!(val(vp.origin.x), 0.0);
}

#[test]
fn screen_to_world_inverse_of_transform() {
    // world = (screen - origin) / scale, checked at unit scale and at 2x
    let mut vp = Viewport::new(800, 340);
    let w = world_at(&vp, ScreenPoint { x: 900, y: 240 });
    assert_eq!(val(w.x), 100.0);
    assert_eq!(val(w.y), -100.0);
    vp.zoom_decis = 10;  // scale 2
    let w2 = world_at(&vp, ScreenPoint { x: 900, y: 240 });
    assert_eq!(val(w2.x), 50.0);
    assert_eq!(val(w2.y), -50.0);
}

use fractal_camera::fixed::ONE;
use fractal_camera::view::{Camera, WindowView, ZOOM_MAX, ZOOM_MIN};

#[test]
fn new_camera_at_origin_with_flat_zoom() {
    let c = Camera::new();
    assert_eq!(c.position.x, 0);
    assert_eq!(c.position.y, 0);
    assert_eq!(c.zoom, 0);
}

#[test]
fn translate_adds_to_position() {
    let mut c = Camera::new();
    c.translate(3 * ONE, -2 * ONE);
    assert_eq!(c.position.x, 3 * ONE);
    assert_eq!(c.position.y, -2 * ONE);
    assert_eq!(c.zoom, 0);
}

#[test]
fn translate_composes_additively() {
    let mut one_step = Camera::new();
    one_step.translate(ONE + 2 * ONE, -5 * ONE + 7 * ONE);
    let mut two_steps = Camera::new();
    two_steps.translate(ONE, -5 * ONE);
    two_steps.translate(2 * ONE, 7 * ONE);
    assert_eq!(two_steps.position.x, one_step.position.x);
    assert_eq!(two_steps.position.y, one_step.position.y);
}

#[test]
fn translate_saturates_instead_of_wrapping() {
    let mut c = Camera::new();
    c.translate(i64::MAX, i64::MIN);
    c.translate(1, -1);
    assert_eq!(c.position.x, i64::MAX);
    assert_eq!(c.position.y, i64::MIN);
}

#[test]
fn six_zoom_steps_reach_zero_point_six() {
    let mut c = Camera::new();
    for _ in 0..6 {
        c.zoom(ONE / 10);
        assert!(c.zoom >= -ONE);
        assert!(c.zoom >= ZOOM_MIN);
    }
    assert_eq!(c.zoom, 600_000);
}

#[test]
fn zoom_clamps_at_the_floor() {
    let mut c = Camera::new();
    c.zoom(-5 * ONE);
    assert_eq!(c.zoom, ZOOM_MIN);
    assert!(c.zoom > -ONE);
}

#[test]
fn zoom_clamps_at_the_ceiling() {
    let mut c = Camera::new();
    c.zoom(ZOOM_MAX + ONE);
    assert_eq!(c.zoom, ZOOM_MAX);
}

#[test]
fn zoom_leaves_position_alone() {
    let mut c = Camera::new();
    c.translate(ONE, ONE);
    c.zoom(ONE / 10);
    assert_eq!(c.position.x, ONE);
    assert_eq!(c.position.y, ONE);
}

#[test]
fn get_position_reads_back_the_position() {
    let mut c = Camera::new();
    c.translate(-4 * ONE, 9 * ONE);
    let p = c.get_position();
    assert_eq!(p.x, -4 * ONE);
    assert_eq!(p.y, 9 * ONE);
}

#[test]
fn window_view_stores_and_updates_size() {
    let mut v = WindowView::new(1024, 767);
    assert_eq!(v.width, 1024);
    assert_eq!(v.height, 767);
    v.update(800, 600);
    assert_eq!(v.width, 800);
    assert_eq!(v.height, 600);
}

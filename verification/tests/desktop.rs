use localdesktop::desktop::backend::{Backend, Bound, OnWindow, Position, Resume, TouchMode, WaylandBackend};
use localdesktop::desktop::device::{
    android_ui_scale, density_dpi, guest_scale, long_press_timeout_ms, touch_slop_px,
    write_guest_output_state,
};

#[test]
fn font_scale_is_that_of_floats() {
    for d in -1000..=100_000 {
        let want = ((d as f32) / 160.0 * 1.1).max(1.0).round() as i32;
        assert_eq!(android_ui_scale(d), want, "at {d}");
    }
    assert_eq!(android_ui_scale(420), 3);
    assert_eq!(android_ui_scale(i32::MIN), 1);
}

#[test]
fn surface_scale_is_that_of_floats() {
    for d in -1000..=100_000 {
        let want = (d as f64 / 160.0).max(1.0).round().max(1.0) as i32;
        assert_eq!(guest_scale(d), want, "at {d}");
    }
    assert_eq!(guest_scale(i32::MAX), (i32::MAX as f64 / 160.0).round() as i32);
}

#[test]
fn measures_have_defaults() {
    assert_eq!((density_dpi(None), density_dpi(Some(420))), (160, 420));
    assert_eq!((touch_slop_px(None), touch_slop_px(Some(8))), (24, 8));
    assert_eq!(long_press_timeout_ms(None), 500);
    assert_eq!(long_press_timeout_ms(Some(-1)), 0);
    assert_eq!(long_press_timeout_ms(Some(400)), 400);
}

#[test]
fn the_guest_is_told_the_geometry() {
    assert_eq!(
        write_guest_output_state(1080, 2400, 3),
        Some("LOCALDESKTOP_OUTPUT_MODE=1080x2400\nLOCALDESKTOP_OUTPUT_SCALE=3\n".to_string())
    );
    assert_eq!(write_guest_output_state(0, 1, 1), None);
    assert_eq!(write_guest_output_state(1, -1, 1), None);
    assert_eq!(write_guest_output_state(1, 1, 0), None);
}

fn touched() -> WaylandBackend {
    let mut b = WaylandBackend::new(24, 500);
    let p = Position { x: 1.5f64.to_bits(), y: 2.5f64.to_bits() };
    b.rendering = true;
    b.key_counter = 3;
    b.touch_points.insert(7, p);
    b.scroll_centroid = Some(p);
    b.touch_mode = TouchMode::Drag;
    b.touch_down_position = Some(p);
    b.touch_down_time = Some(9);
    b.pointer_pressed = true;
    b
}

#[test]
fn a_gesture_is_forgotten() {
    let mut b = touched();
    b.reset_touch_state();
    assert!(b.touch_points.is_empty());
    assert!(b.scroll_centroid.is_none() && b.touch_down_position.is_none());
    assert_eq!(b.touch_mode, TouchMode::Undecided);
    assert_eq!(b.touch_down_time, None);
    assert!(b.pointer_pressed && b.rendering);
    assert_eq!(b.key_counter, 3);
}

#[test]
fn suspending_lets_go() {
    let mut app = Backend::Wayland(touched());
    assert!(matches!(app.resumed(), Resume::Configure));
    assert!(app.window_event(true) == OnWindow::Handle);
    assert!(app.suspended());
    assert!(matches!(app.resumed(), Resume::Bind));
    assert!(app.window_event(true) == OnWindow::Exit);
    assert!(app.window_event(false) == OnWindow::Ignore);
    match app {
        Backend::Wayland(mut b) => {
            assert!(!b.rendering && !b.pointer_pressed && b.key_counter == 0);
            assert!(b.bound(false) == Bound::Wait);
            assert!(b.bound(true) == Bound::Go);
            assert!(b.bound(false) == Bound::Go);
        }
        Backend::WebView { .. } => panic!("expected the desktop"),
    }
}

#[test]
fn pages_are_shown_during_setup() {
    let page = |unsupported, port| {
        let app = Backend::WebView { unsupported, port };
        match app.resumed() {
            Resume::ShowPage(url) => url,
            _ => panic!("expected a page"),
        }
    };
    assert_eq!(page(false, 8080), "file:///android_asset/setup-progress.html?port=8080");
    assert_eq!(page(true, 0), "file:///android_asset/unsupported.html");
    let mut app = Backend::WebView { unsupported: false, port: 1 };
    assert!(app.window_event(true) == OnWindow::Ignore);
    assert!(!app.suspended());
}

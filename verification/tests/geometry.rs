use bettershot::geometry::{MonitorShot, monitors_disjoint, normalize_monitors, ui_to_pixels};

fn shot(x: i64, y: i64, w: u64, h: u64) -> MonitorShot {
    MonitorShot {
        path: String::new(),
        origin_x: x,
        origin_y: y,
        width: w,
        height: h,
        scale_percent: 200,
    }
}

#[test]
fn two_displays_side_by_side_keep_their_origins() {
    let shots = vec![shot(0, 0, 1920, 1080), shot(1920, 0, 1920, 1080)];
    let out = normalize_monitors(&shots);
    assert_eq!(out.len(), 2);
    assert_eq!((out[0].origin_x, out[0].origin_y), (0, 0));
    assert_eq!((out[0].width, out[0].height), (1920, 1080));
    assert_eq!((out[1].origin_x, out[1].origin_y), (1920, 0));
    assert_eq!((out[1].width, out[1].height), (1920, 1080));
    assert!(monitors_disjoint(&out));
}

#[test]
fn adjacent_rectangles_do_not_overlap() {
    let shots = vec![shot(0, 0, 1920, 1080), shot(1920, 0, 1920, 1080), shot(0, 1080, 3840, 100)];
    assert!(monitors_disjoint(&shots));
}

#[test]
fn overlapping_rectangles_are_detected() {
    let shots = vec![shot(0, 0, 1920, 1080), shot(1900, 0, 1920, 1080)];
    assert!(!monitors_disjoint(&shots));
}

#[test]
fn negative_origins_are_shifted_to_a_non_negative_space() {
    // a laptop panel left of and above the external reference display
    let shots = vec![shot(-1440, -200, 1440, 900), shot(0, 0, 2560, 1440)];
    let out = normalize_monitors(&shots);
    assert_eq!((out[0].origin_x, out[0].origin_y), (0, 0));
    assert_eq!((out[1].origin_x, out[1].origin_y), (1440, 200));
    assert!(out.iter().all(|m| m.origin_x >= 0 && m.origin_y >= 0));
    // relative geometry is unchanged, so disjointness is kept
    assert!(monitors_disjoint(&out));
}

#[test]
fn normalization_keeps_sizes_scales_and_paths() {
    let mut a = shot(-10, 5, 800, 600);
    a.path = "/tmp/monitor_0.png".to_string();
    a.scale_percent = 100;
    let out = normalize_monitors(&vec![a]);
    assert_eq!(out[0].path, "/tmp/monitor_0.png");
    assert_eq!(out[0].scale_percent, 100);
    assert_eq!((out[0].width, out[0].height), (800, 600));
    // a single display moves to the reference origin only if it was
    // left of or above it
    assert_eq!((out[0].origin_x, out[0].origin_y), (0, 5));
}

#[test]
fn empty_monitor_set_normalizes_to_empty() {
    let out = normalize_monitors(&Vec::new());
    assert!(out.is_empty());
    assert!(monitors_disjoint(&out));
}

#[test]
fn ui_coordinates_scale_by_the_device_pixel_ratio() {
    assert_eq!(ui_to_pixels(100, 200), 200);
    assert_eq!(ui_to_pixels(100, 100), 100);
    assert_eq!(ui_to_pixels(33, 150), 49);
    assert_eq!(ui_to_pixels(0, 200), 0);
}

use dither_panels::commands::panels::{
    correct_bounds_for_monitors, is_flex_layout_panel, parse_sidebar_side, resolve_undock_bounds,
    MonitorRect, SavedBounds,
};
use dither_panels::dock_affinity::SidebarSide;

fn popout_monitor(x: i32, y: i32, width: u32, height: u32) -> MonitorRect {
    MonitorRect {
        x,
        y,
        width,
        height,
    }
}

#[test]
fn panels_bounds_on_screen_returned_unchanged() {
    let bounds = SavedBounds {
        x: 100,
        y: 100,
        width: 400,
        height: 600,
    };
    let monitors = vec![popout_monitor(0, 0, 1920, 1080)];
    let primary = monitors[0].clone();

    let result = correct_bounds_for_monitors(&bounds, &monitors, Some(&primary));
    assert_eq!(result.x, 100);
    assert_eq!(result.y, 100);
    assert_eq!(result.width, 400);
    assert_eq!(result.height, 600);
}

#[test]
fn panels_bounds_off_screen_right_gets_centered() {
    let bounds = SavedBounds {
        x: 5000,
        y: 100,
        width: 400,
        height: 600,
    };
    let monitors = vec![popout_monitor(0, 0, 1920, 1080)];
    let primary = monitors[0].clone();

    let result = correct_bounds_for_monitors(&bounds, &monitors, Some(&primary));
    assert_eq!(result.x, 760);
    assert_eq!(result.y, 240);
    assert_eq!(result.width, 400);
    assert_eq!(result.height, 600);
}

#[test]
fn panels_bounds_off_screen_left_gets_centered() {
    let bounds = SavedBounds {
        x: -5000,
        y: -3000,
        width: 400,
        height: 600,
    };
    let monitors = vec![popout_monitor(0, 0, 1920, 1080)];
    let primary = monitors[0].clone();

    let result = correct_bounds_for_monitors(&bounds, &monitors, Some(&primary));
    assert_eq!(result.x, 760);
    assert_eq!(result.y, 240);
    assert_eq!(result.width, 400);
    assert_eq!(result.height, 600);
}

#[test]
fn panels_bounds_partially_on_screen_returned_unchanged() {
    let bounds = SavedBounds {
        x: 1800,
        y: 900,
        width: 400,
        height: 600,
    };
    let monitors = vec![popout_monitor(0, 0, 1920, 1080)];
    let primary = monitors[0].clone();

    let result = correct_bounds_for_monitors(&bounds, &monitors, Some(&primary));
    assert_eq!(result.x, 1800);
    assert_eq!(result.y, 900);
}

#[test]
fn panels_multi_monitor_on_second_screen_unchanged() {
    let bounds = SavedBounds {
        x: 2000,
        y: 100,
        width: 400,
        height: 600,
    };
    let monitors = vec![
        popout_monitor(0, 0, 1920, 1080),
        popout_monitor(1920, 0, 2560, 1440),
    ];
    let primary = monitors[0].clone();

    let result = correct_bounds_for_monitors(&bounds, &monitors, Some(&primary));
    assert_eq!(result.x, 2000);
    assert_eq!(result.y, 100);
}

#[test]
fn panels_multi_monitor_off_all_screens_centers_on_primary() {
    let bounds = SavedBounds {
        x: 10000,
        y: 5000,
        width: 400,
        height: 600,
    };
    let monitors = vec![
        popout_monitor(0, 0, 1920, 1080),
        popout_monitor(1920, 0, 2560, 1440),
    ];
    let primary = monitors[0].clone();

    let result = correct_bounds_for_monitors(&bounds, &monitors, Some(&primary));
    assert_eq!(result.x, 760);
    assert_eq!(result.y, 240);
    assert_eq!(result.width, 400);
    assert_eq!(result.height, 600);
}

#[test]
fn panels_no_monitors_returns_bounds_unchanged() {
    let bounds = SavedBounds {
        x: 5000,
        y: 5000,
        width: 400,
        height: 600,
    };
    let monitors: Vec<MonitorRect> = vec![];

    let result = correct_bounds_for_monitors(&bounds, &monitors, None);
    assert_eq!(result.x, 5000);
    assert_eq!(result.y, 5000);
}

#[test]
fn panels_no_primary_falls_back_to_first_monitor() {
    let bounds = SavedBounds {
        x: 10000,
        y: 10000,
        width: 300,
        height: 500,
    };
    let monitors = vec![popout_monitor(0, 0, 2560, 1440)];

    let result = correct_bounds_for_monitors(&bounds, &monitors, None);
    assert_eq!(result.x, 1130);
    assert_eq!(result.y, 470);
    assert_eq!(result.width, 300);
    assert_eq!(result.height, 500);
}

#[test]
fn panels_preserves_width_and_height_when_correcting() {
    let bounds = SavedBounds {
        x: -9999,
        y: -9999,
        width: 450,
        height: 700,
    };
    let monitors = vec![popout_monitor(0, 0, 1920, 1080)];
    let primary = monitors[0].clone();

    let result = correct_bounds_for_monitors(&bounds, &monitors, Some(&primary));
    assert_eq!(result.width, 450);
    assert_eq!(result.height, 700);
}

#[test]
fn panels_window_exactly_touching_monitor_edge_is_on_screen() {
    let bounds = SavedBounds {
        x: -400,
        y: 0,
        width: 400,
        height: 600,
    };
    let monitors = vec![popout_monitor(0, 0, 1920, 1080)];
    let primary = monitors[0].clone();

    let result = correct_bounds_for_monitors(&bounds, &monitors, Some(&primary));
    assert_eq!(result.x, 760);
    assert_eq!(result.y, 240);
}

#[test]
fn panels_colorlab_huge_saved_bounds_are_capped() {
    let bounds = SavedBounds {
        x: 0,
        y: 0,
        width: 2560,
        height: 1440,
    };
    let monitors = vec![popout_monitor(0, 0, 2560, 1440)];
    let primary = monitors[0].clone();
    let result = resolve_undock_bounds("colorlab", Some(bounds), &monitors, Some(&primary));
    assert!(result.width <= 640, "width {}", result.width);
    assert!(result.height <= 760, "height {}", result.height);
}

#[test]
fn panels_window_one_pixel_overlap_stays_on_screen() {
    let bounds = SavedBounds {
        x: -399,
        y: 0,
        width: 400,
        height: 600,
    };
    let monitors = vec![popout_monitor(0, 0, 1920, 1080)];
    let primary = monitors[0].clone();

    let result = correct_bounds_for_monitors(&bounds, &monitors, Some(&primary));
    assert_eq!(result.x, -399);
    assert_eq!(result.y, 0);
}

#[test]
fn flex_layout_panels_and_sides() {
    assert!(is_flex_layout_panel("layers"));
    assert!(is_flex_layout_panel("preview"));
    assert!(!is_flex_layout_panel("preferences"));
    assert_eq!(parse_sidebar_side("left").unwrap(), SidebarSide::Left);
    assert_eq!(parse_sidebar_side("middle").unwrap_err(), "Invalid dock side: middle");
}

#[test]
fn popout_default_size_has_no_preferences_entry() {
    let monitors = vec![popout_monitor(0, 0, 1920, 1080)];
    let b = resolve_undock_bounds("preferences", None, &monitors, None);
    assert_eq!((b.width, b.height), (332, 400));
}

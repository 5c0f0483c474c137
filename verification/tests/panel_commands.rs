use dither_panels::dock_affinity::SidebarSide;
use dither_panels::panel_commands::{
    correct_bounds_for_monitors, panel_display_name, parse_dock_side, parse_sidebar_side,
    resolve_undock_bounds, sidebar_side_to_dock, MonitorRect,
};
use dither_panels::panel_manager::{DockSide, SavedBounds};

fn monitor_at(x: i32, y: i32, width: u32, height: u32) -> MonitorRect {
    MonitorRect { x, y, width, height }
}

#[test]
fn panel_commands_bounds_on_screen_returned_unchanged() {
    let bounds = SavedBounds { x: 100, y: 100, width: 400, height: 600 };
    let monitors = vec![monitor_at(0, 0, 1920, 1080)];
    let primary = monitors[0].clone();

    let result = correct_bounds_for_monitors(&bounds, &monitors, Some(&primary));
    assert_eq!(result.x, 100);
    assert_eq!(result.y, 100);
    assert_eq!(result.width, 400);
    assert_eq!(result.height, 600);
}

#[test]
fn panel_commands_bounds_off_screen_right_gets_centered() {
    // Window is far to the right, beyond any monitor
    let bounds = SavedBounds { x: 5000, y: 100, width: 400, height: 600 };
    let monitors = vec![monitor_at(0, 0, 1920, 1080)];
    let primary = monitors[0].clone();

    let result = correct_bounds_for_monitors(&bounds, &monitors, Some(&primary));
    // Centered: x = 0 + (1920 - 400) / 2 = 760
    //           y = 0 + (1080 - 600) / 2 = 240
    assert_eq!(result.x, 760);
    assert_eq!(result.y, 240);
    assert_eq!(result.width, 400);
    assert_eq!(result.height, 600);
}

#[test]
fn panel_commands_bounds_off_screen_left_gets_centered() {
    // Window is far to the left
    let bounds = SavedBounds { x: -5000, y: -3000, width: 400, height: 600 };
    let monitors = vec![monitor_at(0, 0, 1920, 1080)];
    let primary = monitors[0].clone();

    let result = correct_bounds_for_monitors(&bounds, &monitors, Some(&primary));
    assert_eq!(result.x, 760);
    assert_eq!(result.y, 240);
    assert_eq!(result.width, 400);
    assert_eq!(result.height, 600);
}

#[test]
fn panel_commands_bounds_partially_on_screen_returned_unchanged() {
    // Window is partially off-screen but still overlaps with the monitor
    let bounds = SavedBounds { x: 1800, y: 900, width: 400, height: 600 };
    let monitors = vec![monitor_at(0, 0, 1920, 1080)];
    let primary = monitors[0].clone();

    let result = correct_bounds_for_monitors(&bounds, &monitors, Some(&primary));
    // Still intersects the monitor (1800 < 1920 and 1800+400 > 0)
    assert_eq!(result.x, 1800);
    assert_eq!(result.y, 900);
}

#[test]
fn panel_commands_multi_monitor_on_second_screen_unchanged() {
    // Window on second monitor (positioned to the right)
    let bounds = SavedBounds { x: 2000, y: 100, width: 400, height: 600 };
    let monitors = vec![
        monitor_at(0, 0, 1920, 1080),
        monitor_at(1920, 0, 2560, 1440),
    ];
    let primary = monitors[0].clone();

    let result = correct_bounds_for_monitors(&bounds, &monitors, Some(&primary));
    // Intersects the second monitor — unchanged
    assert_eq!(result.x, 2000);
    assert_eq!(result.y, 100);
}

#[test]
fn panel_commands_multi_monitor_off_all_screens_centers_on_primary() {
    // Window is off both monitors
    let bounds = SavedBounds { x: 10000, y: 5000, width: 400, height: 600 };
    let monitors = vec![
        monitor_at(0, 0, 1920, 1080),
        monitor_at(1920, 0, 2560, 1440),
    ];
    let primary = monitors[0].clone();

    let result = correct_bounds_for_monitors(&bounds, &monitors, Some(&primary));
    // Centers on primary (monitor[0]): x = (1920-400)/2 = 760, y = (1080-600)/2 = 240
    assert_eq!(result.x, 760);
    assert_eq!(result.y, 240);
    assert_eq!(result.width, 400);
    assert_eq!(result.height, 600);
}

#[test]
fn panel_commands_no_monitors_returns_bounds_unchanged() {
    let bounds = SavedBounds { x: 5000, y: 5000, width: 400, height: 600 };
    let monitors: Vec<MonitorRect> = vec![];

    let result = correct_bounds_for_monitors(&bounds, &monitors, None);
    assert_eq!(result.x, 5000);
    assert_eq!(result.y, 5000);
}

#[test]
fn panel_commands_no_primary_falls_back_to_first_monitor() {
    let bounds = SavedBounds { x: 10000, y: 10000, width: 300, height: 500 };
    let monitors = vec![monitor_at(0, 0, 2560, 1440)];

    let result = correct_bounds_for_monitors(&bounds, &monitors, None);
    // Centers on first monitor: x = (2560-300)/2 = 1130, y = (1440-500)/2 = 470
    assert_eq!(result.x, 1130);
    assert_eq!(result.y, 470);
    assert_eq!(result.width, 300);
    assert_eq!(result.height, 500);
}

#[test]
fn panel_commands_preserves_width_and_height_when_correcting() {
    let bounds = SavedBounds { x: -9999, y: -9999, width: 450, height: 700 };
    let monitors = vec![monitor_at(0, 0, 1920, 1080)];
    let primary = monitors[0].clone();

    let result = correct_bounds_for_monitors(&bounds, &monitors, Some(&primary));
    assert_eq!(result.width, 450);
    assert_eq!(result.height, 700);
}

#[test]
fn panel_commands_window_exactly_touching_monitor_edge_is_on_screen() {
    // Window right edge touches monitor left edge: they share a boundary
    // According to our intersection test: x < mx + mw && x + w > mx
    // bounds.x = -400, bounds.x + bounds.width = 0, monitor.x = 0
    // So: -400 < 1920 (true) && 0 > 0 (false) → NOT intersecting
    let bounds = SavedBounds { x: -400, y: 0, width: 400, height: 600 };
    let monitors = vec![monitor_at(0, 0, 1920, 1080)];
    let primary = monitors[0].clone();

    let result = correct_bounds_for_monitors(&bounds, &monitors, Some(&primary));
    // Not intersecting (just touching edge), so it gets corrected
    assert_eq!(result.x, 760);
    assert_eq!(result.y, 240);
}

#[test]
fn panel_commands_colorlab_huge_saved_bounds_are_capped() {
    let bounds = SavedBounds {
        x: 0,
        y: 0,
        width: 2560,
        height: 1440,
    };
    let monitors = vec![monitor_at(0, 0, 2560, 1440)];
    let primary = monitors[0].clone();
    let result = resolve_undock_bounds("colorlab", Some(bounds), &monitors, Some(&primary));
    assert!(result.width <= 640, "width {}", result.width);
    assert!(result.height <= 760, "height {}", result.height);
}

#[test]
fn panel_commands_window_one_pixel_overlap_stays_on_screen() {
    // Window overlaps by 1 pixel
    let bounds = SavedBounds { x: -399, y: 0, width: 400, height: 600 };
    let monitors = vec![monitor_at(0, 0, 1920, 1080)];
    let primary = monitors[0].clone();

    let result = correct_bounds_for_monitors(&bounds, &monitors, Some(&primary));
    // -399 < 1920 (true) && (-399 + 400 = 1) > 0 (true) → intersecting
    assert_eq!(result.x, -399);
    assert_eq!(result.y, 0);
}

#[test]
fn correction_is_idempotent() {
    let bounds = SavedBounds { x: 9000, y: -9000, width: 500, height: 300 };
    let monitors = vec![monitor_at(0, 0, 1920, 1080), monitor_at(1920, 0, 1280, 1024)];
    let once = correct_bounds_for_monitors(&bounds, &monitors, Some(&monitors[1]));
    assert_eq!(once, SavedBounds { x: 2310, y: 362, width: 500, height: 300 });
    let twice = correct_bounds_for_monitors(&once, &monitors, Some(&monitors[1]));
    assert_eq!(twice, once);
}

#[test]
fn undock_bounds_default_size_is_centered_and_capped() {
    let monitors = vec![monitor_at(0, 0, 1920, 1080)];
    let b = resolve_undock_bounds("effect", None, &monitors, None);
    assert_eq!(b, SavedBounds { x: 760, y: 240, width: 400, height: 600 });
    let huge = SavedBounds { x: 0, y: 0, width: 5000, height: 5000 };
    let capped = resolve_undock_bounds("layers", Some(huge), &monitors, None);
    assert_eq!(capped.width, 480);
    assert_eq!(capped.height, 800);
    let none = resolve_undock_bounds("preview", None, &[], None);
    assert_eq!(none, SavedBounds { x: 80, y: 80, width: 800, height: 600 });
}

#[test]
fn display_names_and_side_parsing() {
    assert_eq!(panel_display_name("effect"), "Effect Settings");
    assert_eq!(panel_display_name("colorlab"), "Color Lab");
    assert_eq!(panel_display_name("preferences"), "Preferences");
    assert_eq!(panel_display_name("mystery"), "Panel");
    assert_eq!(parse_dock_side("left").unwrap(), DockSide::Left);
    assert_eq!(parse_dock_side("right").unwrap(), DockSide::Right);
    assert_eq!(parse_dock_side("up").unwrap_err(), "Invalid dock side: up");
    assert_eq!(parse_sidebar_side("right").unwrap(), SidebarSide::Right);
    assert_eq!(parse_sidebar_side("").unwrap_err(), "Invalid dock side: ");
    assert_eq!(sidebar_side_to_dock(SidebarSide::Left), DockSide::Left);
}

//! The command layer: positioning with suppressed animations, the
//! hide point, screen ordering, pointer warps and focus plans.

use penrosx::conn::{OsxConn, eui_after_scope, screen_details, suppression_guard};
use penrosx::error::{OsOp, WmError};
use penrosx::geometry::{Point, Rect};
use penrosx::win::{OsxWindow, RunningApp};

fn app(pid: i32, name: &str) -> RunningApp {
    RunningApp { pid, name: String::from(name), policy: 0, ax_observers_ok: true }
}

fn win(id: u32, pid: i32, bounds: Rect, ax: u64) -> OsxWindow {
    OsxWindow {
        win_id: id,
        owner_pid: pid,
        window_layer: 0,
        bounds,
        owner: String::from("owner"),
        window_name: None,
        axwin: ax,
    }
}

fn r(x: i32, y: i32, w: u32, h: u32) -> Rect {
    Rect { x, y, w, h }
}

fn setup_conn(c: &mut OsxConn) -> (Vec<RunningApp>, Vec<OsxWindow>) {
    let running = vec![app(10, "a")];
    let on_screen = vec![win(1, 10, r(0, 0, 50, 60), 101)];
    c.update_known_apps_and_windows(&running, &on_screen);
    (running, on_screen)
}

#[test]
fn position_then_geometry_returns_the_commanded_rect() {
    let mut c = OsxConn::new();
    let (running, on_screen) = setup_conn(&mut c);
    let target = c.with_suppressed_animations_target(1, &running, &on_screen).unwrap();
    assert_eq!(target.win_id, 1);
    assert_eq!(target.axwin, 101);
    assert_eq!(target.pid, 10);
    let wanted = r(10, 20, 300, 400);
    assert_eq!(c.commit_position(1, wanted, true, true), Ok(()));
    assert_eq!(c.client_geometry(1, &running, &on_screen), Ok(wanted));
}

#[test]
fn repositioning_with_the_same_rect_changes_nothing() {
    let mut c = OsxConn::new();
    let (running, on_screen) = setup_conn(&mut c);
    let wanted = r(10, 20, 300, 400);
    assert_eq!(c.commit_position(1, wanted, true, true), Ok(()));
    let cached = c.client_geometry(1, &running, &on_screen);
    assert_eq!(c.commit_position(1, wanted, true, true), Ok(()));
    assert_eq!(c.client_geometry(1, &running, &on_screen), cached);
}

#[test]
fn a_failed_attribute_write_leaves_the_cache_untouched() {
    let mut c = OsxConn::new();
    let (running, on_screen) = setup_conn(&mut c);
    let wanted = r(10, 20, 300, 400);
    assert_eq!(
        c.commit_position(1, wanted, false, true),
        Err(WmError::OsCall(OsOp::SetPosition))
    );
    assert_eq!(
        c.commit_position(1, wanted, true, false),
        Err(WmError::OsCall(OsOp::SetSize))
    );
    assert_eq!(c.client_geometry(1, &running, &on_screen), Ok(r(0, 0, 50, 60)));
    assert_eq!(
        c.commit_position(9, wanted, true, true),
        Err(WmError::UnknownClient(9))
    );
}

#[test]
fn hiding_moves_the_cached_corner_to_the_hide_point() {
    let mut c = OsxConn::new();
    let (running, on_screen) = setup_conn(&mut c);
    let screens = vec![r(0, 0, 1920, 1080), r(1920, 0, 2560, 1440)];
    assert_eq!(c.set_hide_pt(&screens), Ok(()));
    assert_eq!(c.commit_hide(1, true), Ok(()));
    assert_eq!(c.client_geometry(1, &running, &on_screen), Ok(r(4479, 1439, 50, 60)));
    assert_eq!(c.commit_hide(9, true), Err(WmError::UnknownClient(9)));
    assert_eq!(c.commit_hide(1, false), Err(WmError::OsCall(OsOp::SetPosition)));
}

#[test]
fn the_hide_point_is_one_pixel_inside_the_last_display() {
    let mut c = OsxConn::new();
    let displays = vec![r(0, 0, 1920, 1080), r(1920, 0, 2560, 1440)];
    let sorted = screen_details(&displays);
    assert_eq!(c.set_hide_pt(&sorted), Ok(()));
    assert_eq!(c.hide_pt, Point { x: 4479, y: 1439 });
}

#[test]
fn an_empty_display_list_is_no_screens() {
    let mut c = OsxConn::new();
    let displays: Vec<Rect> = Vec::new();
    assert_eq!(c.set_hide_pt(&displays), Err(WmError::NoScreens));
    assert_eq!(c.hide_pt, Point { x: 0, y: 0 });
}

#[test]
fn screen_details_orders_displays_left_to_right() {
    let displays = vec![r(1920, 0, 2560, 1440), r(-1280, 100, 1280, 800), r(0, 0, 1920, 1080)];
    let sorted = screen_details(&displays);
    let xs: Vec<i32> = sorted.iter().map(|s| s.x).collect();
    assert_eq!(xs, vec![-1280, 0, 1920]);
    assert_eq!(sorted.len(), 3);
}

#[test]
fn the_suppression_guard_restores_only_after_a_successful_disable() {
    assert!(suppression_guard(true, true).should_restore());
    assert!(!suppression_guard(true, false).should_restore());
    assert!(!suppression_guard(false, true).should_restore());
    assert!(!suppression_guard(false, false).should_restore());
}

#[test]
fn a_suppressed_scope_leaves_the_auto_layout_attribute_as_it_found_it() {
    // disable then re-enable on an enabled attribute is a round trip
    assert!(eui_after_scope(true, true, true));
    // a disabled attribute is never written at all
    assert!(!eui_after_scope(false, true, true));
    assert!(!eui_after_scope(false, false, false));
    // after a failed disable no restore is attempted and the
    // attribute stays as it was
    assert!(eui_after_scope(true, false, false));
    // only a failed restore can leave the attribute off
    assert!(!eui_after_scope(true, true, false));
}

#[test]
fn warping_to_the_root_is_absolute() {
    let mut c = OsxConn::new();
    let running: Vec<RunningApp> = Vec::new();
    let on_screen: Vec<OsxWindow> = Vec::new();
    assert_eq!(c.root(), 0);
    assert_eq!(c.warp_pointer_target(0, 15, -3, &running, &on_screen), Ok((15, -3)));
}

#[test]
fn warping_to_a_window_is_relative_to_its_corner() {
    let mut c = OsxConn::new();
    let (running, on_screen) = setup_conn(&mut c);
    c.commit_position(1, r(100, 200, 300, 400), true, true).unwrap();
    assert_eq!(c.warp_pointer_target(1, 30, 40, &running, &on_screen), Ok((130, 240)));
    assert_eq!(
        c.warp_pointer_target(9, 0, 0, &running, &on_screen),
        Err(WmError::UnknownClient(9))
    );
}

#[test]
fn killing_targets_the_window_element() {
    let mut c = OsxConn::new();
    let (running, on_screen) = setup_conn(&mut c);
    assert_eq!(c.kill_client(1, &running, &on_screen), Ok(101));
    assert_eq!(c.kill_client(9, &running, &on_screen), Err(WmError::UnknownClient(9)));
}

#[test]
fn the_unsupported_operations_are_honest_no_ops() {
    let mut c = OsxConn::new();
    let (running, on_screen) = setup_conn(&mut c);
    assert_eq!(c.show_client(1), Ok(()));
    assert_eq!(c.withdraw_client(1), Ok(()));
    assert_eq!(c.client_transient_parent(1), None);
    assert_eq!(c.restack(&vec![1]), Ok(()));
    assert_eq!(c.set_client_border_color(1, 0x3c3836ff), Ok(()));
    // none of them touched the cached geometry
    assert_eq!(c.client_geometry(1, &running, &on_screen), Ok(r(0, 0, 50, 60)));
}

#[test]
fn the_focus_plan_names_the_element_and_the_owning_pid() {
    let mut c = OsxConn::new();
    let (running, on_screen) = setup_conn(&mut c);
    let plan = c.focus_client(1, &running, &on_screen).unwrap();
    assert_eq!(plan.axwin, 101);
    assert_eq!(plan.pid, 10);
    assert_eq!(
        c.focus_client(9, &running, &on_screen),
        Err(WmError::UnknownClient(9))
    );
}

//! Connection-state behaviour: reconciliation, retry lookups, and the
//! event handlers that narrow or extend the maps.

use penrosx::conn::{
    OsxConn, client_is_fullscreen, displays_valid_check, running_distinct_check,
    wins_distinct_check,
};
use penrosx::error::WmError;
use penrosx::geometry::Rect;
use penrosx::win::{OsxWindow, RunningApp};

fn app(pid: i32, name: &str) -> RunningApp {
    RunningApp { pid, name: String::from(name), policy: 0, ax_observers_ok: true }
}

fn win(id: u32, pid: i32, layer: i32, bounds: Rect, ax: u64) -> OsxWindow {
    OsxWindow {
        win_id: id,
        owner_pid: pid,
        window_layer: layer,
        bounds,
        owner: String::from("owner"),
        window_name: None,
        axwin: ax,
    }
}

fn r(x: i32, y: i32, w: u32, h: u32) -> Rect {
    Rect { x, y, w, h }
}

fn app_pids(c: &OsxConn) -> Vec<i32> {
    c.apps.iter().map(|a| a.pid).collect()
}

fn window_ids(c: &OsxConn) -> Vec<u32> {
    c.windows.iter().map(|w| w.win_id).collect()
}

#[test]
fn refresh_tracks_regular_apps_and_their_windows() {
    let mut c = OsxConn::new();
    let running = vec![app(10, "a"), app(20, "b")];
    let on_screen = vec![win(1, 10, 0, r(0, 0, 100, 100), 101), win(2, 20, 0, r(5, 5, 50, 50), 102)];
    c.update_known_apps_and_windows(&running, &on_screen);
    assert_eq!(app_pids(&c), vec![10, 20]);
    assert_eq!(window_ids(&c), vec![1, 2]);
}

#[test]
fn refresh_filters_agent_processes_and_their_windows() {
    let mut c = OsxConn::new();
    let mut agent = app(30, "agent");
    agent.policy = 1;
    let running = vec![app(10, "a"), agent];
    let on_screen = vec![win(1, 10, 0, r(0, 0, 10, 10), 101), win(3, 30, 0, r(0, 0, 10, 10), 103)];
    c.update_known_apps_and_windows(&running, &on_screen);
    assert_eq!(app_pids(&c), vec![10]);
    // the agent's window has no tracked owner, so it is not recorded
    assert_eq!(window_ids(&c), vec![1]);
}

#[test]
fn refresh_skips_apps_whose_observers_failed() {
    let mut c = OsxConn::new();
    let mut broken = app(40, "broken");
    broken.ax_observers_ok = false;
    let running = vec![app(10, "a"), broken];
    let on_screen = vec![win(4, 40, 0, r(0, 0, 10, 10), 104)];
    c.update_known_apps_and_windows(&running, &on_screen);
    assert_eq!(app_pids(&c), vec![10]);
    assert_eq!(window_ids(&c), Vec::<u32>::new());
}

#[test]
fn refresh_excludes_windows_of_other_layers() {
    let mut c = OsxConn::new();
    let running = vec![app(10, "a")];
    let on_screen = vec![
        win(1, 10, 0, r(0, 0, 10, 10), 101),
        win(2, 10, 25, r(0, 0, 10, 10), 102),
        win(3, 10, -1, r(0, 0, 10, 10), 103),
    ];
    c.update_known_apps_and_windows(&running, &on_screen);
    assert_eq!(window_ids(&c), vec![1]);
}

#[test]
fn refresh_drops_vanished_pids_and_keeps_existing_entries() {
    let mut c = OsxConn::new();
    let running = vec![app(10, "a"), app(20, "b")];
    let on_screen = vec![win(1, 10, 0, r(0, 0, 10, 10), 101)];
    c.update_known_apps_and_windows(&running, &on_screen);
    // pid 20 exits; pid 30 launches
    let running2 = vec![app(10, "a"), app(30, "c")];
    c.update_known_apps_and_windows(&running2, &on_screen);
    assert_eq!(app_pids(&c), vec![10, 30]);
}

#[test]
fn refresh_is_idempotent_when_quiescent() {
    let mut c = OsxConn::new();
    let running = vec![app(10, "a"), app(20, "b")];
    let on_screen = vec![win(1, 10, 0, r(0, 0, 100, 100), 101), win(2, 20, 0, r(5, 5, 50, 50), 102)];
    c.update_known_apps_and_windows(&running, &on_screen);
    let pids_once = app_pids(&c);
    let names_once: Vec<String> = c.apps.iter().map(|a| a.name.clone()).collect();
    let ids_once = window_ids(&c);
    let bounds_once: Vec<Rect> = c.windows.iter().map(|w| w.bounds).collect();
    c.update_known_apps_and_windows(&running, &on_screen);
    assert_eq!(app_pids(&c), pids_once);
    assert_eq!(c.apps.iter().map(|a| a.name.clone()).collect::<Vec<_>>(), names_once);
    assert_eq!(window_ids(&c), ids_once);
    assert_eq!(c.windows.iter().map(|w| w.bounds).collect::<Vec<_>>(), bounds_once);
}

#[test]
fn terminated_cleanup_narrows_both_maps() {
    let mut c = OsxConn::new();
    let running = vec![app(77, "a"), app(88, "b")];
    let on_screen = vec![
        win(42, 77, 0, r(0, 0, 10, 10), 142),
        win(43, 77, 0, r(0, 0, 10, 10), 143),
        win(44, 88, 0, r(0, 0, 10, 10), 144),
    ];
    c.update_known_apps_and_windows(&running, &on_screen);
    let unmanaged = c.clear_terminated_app_state(77);
    assert_eq!(app_pids(&c), vec![88]);
    assert_eq!(window_ids(&c), vec![44]);
    assert_eq!(unmanaged, vec![42, 43]);
}

#[test]
fn closed_window_cleanup_drops_only_that_window() {
    let mut c = OsxConn::new();
    let running = vec![app(10, "a")];
    let on_screen = vec![win(1, 10, 0, r(0, 0, 10, 10), 101), win(2, 10, 0, r(0, 0, 10, 10), 102)];
    c.update_known_apps_and_windows(&running, &on_screen);
    c.clear_closed_window_state(1);
    assert_eq!(window_ids(&c), vec![2]);
    assert_eq!(app_pids(&c), vec![10]);
}

#[test]
fn new_window_diff_manages_the_new_windows_and_focuses_the_last() {
    let mut c = OsxConn::new();
    let running = vec![app(77, "a")];
    let before = vec![win(10, 77, 0, r(0, 0, 10, 10), 110), win(11, 77, 0, r(0, 0, 10, 10), 111)];
    c.update_known_apps_and_windows(&running, &before);
    let after = vec![
        win(10, 77, 0, r(0, 0, 10, 10), 110),
        win(11, 77, 0, r(0, 0, 10, 10), 111),
        win(42, 77, 0, r(0, 0, 10, 10), 142),
        win(43, 77, 0, r(0, 0, 10, 10), 143),
    ];
    let new_ids = c.handle_new_window_for_pid(77, &running, &after);
    assert_eq!(new_ids, vec![42, 43]);
    // the driver manages each in order and focuses the last
    assert_eq!(*new_ids.last().unwrap(), 43);
}

#[test]
fn new_window_diff_reports_nothing_when_no_window_is_new() {
    let mut c = OsxConn::new();
    let running = vec![app(77, "a")];
    let before = vec![win(10, 77, 0, r(0, 0, 10, 10), 110)];
    c.update_known_apps_and_windows(&running, &before);
    let new_ids = c.handle_new_window_for_pid(77, &running, &before);
    assert!(new_ids.is_empty());
}

#[test]
fn lookup_retries_once_after_refresh_and_finds_the_window() {
    let mut c = OsxConn::new();
    let running = vec![app(10, "a")];
    let before: Vec<OsxWindow> = Vec::new();
    c.update_known_apps_and_windows(&running, &before);
    assert_eq!(window_ids(&c), Vec::<u32>::new());
    // the window exists by the time the refresh happens
    let now = vec![win(7, 10, 0, r(3, 4, 20, 30), 107)];
    let g = c.client_geometry(7, &running, &now);
    assert_eq!(g, Ok(r(3, 4, 20, 30)));
    assert_eq!(window_ids(&c), vec![7]);
}

#[test]
fn lookup_yields_unknown_client_when_refresh_does_not_help() {
    let mut c = OsxConn::new();
    let running = vec![app(10, "a")];
    let on_screen = vec![win(7, 10, 0, r(3, 4, 20, 30), 107)];
    c.update_known_apps_and_windows(&running, &on_screen);
    let g = c.client_geometry(9, &running, &on_screen);
    assert_eq!(g, Err(WmError::UnknownClient(9)));
}

#[test]
fn lookup_hit_does_not_refresh() {
    let mut c = OsxConn::new();
    let running = vec![app(10, "a")];
    let on_screen = vec![win(7, 10, 0, r(3, 4, 20, 30), 107)];
    c.update_known_apps_and_windows(&running, &on_screen);
    // hand a snapshot that would drop the window: a hit must ignore it
    let empty_running: Vec<RunningApp> = Vec::new();
    let empty_screen: Vec<OsxWindow> = Vec::new();
    let g = c.client_geometry(7, &empty_running, &empty_screen);
    assert_eq!(g, Ok(r(3, 4, 20, 30)));
    assert_eq!(window_ids(&c), vec![7]);
}

#[test]
fn focus_follows_app_manages_then_focuses_the_match() {
    let mut c = OsxConn::new();
    let running = vec![app(10, "a")];
    let on_screen = vec![win(1, 10, 0, r(0, 0, 10, 10), 101), win(2, 10, 0, r(0, 0, 10, 10), 102)];
    c.update_known_apps_and_windows(&running, &on_screen);
    let managed = vec![1u32];
    let d = c.focus_active_app_window(Some(102), Some(1), &managed);
    assert_eq!(d.focus, Some(2));
    assert_eq!(d.manage, vec![2]);
}

#[test]
fn focus_short_circuits_when_the_match_is_current() {
    let mut c = OsxConn::new();
    let running = vec![app(10, "a")];
    let on_screen = vec![win(1, 10, 0, r(0, 0, 10, 10), 101), win(2, 10, 0, r(0, 0, 10, 10), 102)];
    c.update_known_apps_and_windows(&running, &on_screen);
    let managed: Vec<u32> = Vec::new();
    let d = c.focus_active_app_window(Some(101), Some(1), &managed);
    assert_eq!(d.focus, None);
    assert!(d.manage.is_empty());
}

#[test]
fn focus_skips_an_unreadable_or_unknown_focused_window() {
    let mut c = OsxConn::new();
    let running = vec![app(10, "a")];
    let on_screen = vec![win(1, 10, 0, r(0, 0, 10, 10), 101)];
    c.update_known_apps_and_windows(&running, &on_screen);
    let managed: Vec<u32> = Vec::new();
    let none = c.focus_active_app_window(None, Some(1), &managed);
    assert_eq!(none.focus, None);
    assert!(none.manage.is_empty());
    let unknown = c.focus_active_app_window(Some(999), Some(1), &managed);
    assert_eq!(unknown.focus, None);
    assert!(unknown.manage.is_empty());
}

#[test]
fn existing_clients_reports_exactly_the_manageable_windows() {
    let mut c = OsxConn::new();
    let running = vec![app(10, "a")];
    let mut agent = app(30, "agent");
    agent.policy = 1;
    let running_all = vec![running[0].clone(), agent];
    let on_screen = vec![
        win(1, 10, 0, r(0, 0, 10, 10), 101),
        win(2, 10, 7, r(0, 0, 10, 10), 102),
        win(3, 30, 0, r(0, 0, 10, 10), 103),
    ];
    let screens = vec![r(0, 0, 1920, 1080)];
    let managed: Vec<u32> = Vec::new();
    let placements = c.manage_existing_clients(&running_all, &on_screen, &managed, &screens);
    let ids = c.existing_clients(&running_all, &on_screen);
    // exactly the accessible, standard-layer windows of tracked owners
    assert_eq!(ids, vec![1]);
    assert_eq!(placements.len(), 1);
    assert_eq!(placements[0].id, 1);
    assert_eq!(placements[0].screen, Some(0));
}

#[test]
fn manage_existing_places_windows_on_the_screen_holding_their_midpoint() {
    let mut c = OsxConn::new();
    let running = vec![app(10, "a")];
    let on_screen = vec![
        win(1, 10, 0, r(0, 0, 100, 100), 101),
        win(2, 10, 0, r(2000, 10, 100, 100), 102),
        win(3, 10, 0, r(9000, 9000, 10, 10), 103),
    ];
    let screens = vec![r(0, 0, 1920, 1080), r(1920, 0, 2560, 1440)];
    let managed = vec![1u32];
    let placements = c.manage_existing_clients(&running, &on_screen, &managed, &screens);
    assert_eq!(placements.len(), 2);
    assert_eq!(placements[0].id, 2);
    assert_eq!(placements[0].screen, Some(1));
    assert_eq!(placements[1].id, 3);
    assert_eq!(placements[1].screen, None);
}

#[test]
fn client_projections_read_the_record() {
    let mut c = OsxConn::new();
    let running = vec![app(10, "a")];
    let mut named = win(1, 10, 0, r(0, 0, 10, 10), 101);
    named.window_name = Some(String::from("editor"));
    named.owner = String::from("Emacs");
    let mut unnamed = win(2, 10, 0, r(0, 0, 10, 10), 102);
    unnamed.owner = String::from("dmenu");
    let on_screen = vec![named, unnamed];
    c.update_known_apps_and_windows(&running, &on_screen);
    assert_eq!(c.client_title(1, &running, &on_screen), Ok(String::from("editor")));
    assert_eq!(c.client_title(2, &running, &on_screen), Ok(String::from("dmenu")));
    assert_eq!(c.client_pid(1, &running, &on_screen), Some(10));
    assert_eq!(c.client_pid(9, &running, &on_screen), None);
    let floating = vec![String::from("dmenu"), String::from("dunst")];
    assert!(c.client_should_float(2, &floating, &running, &on_screen));
    assert!(!c.client_should_float(1, &floating, &running, &on_screen));
    assert!(c.client_should_be_managed(1, &running, &on_screen));
    assert!(!c.client_should_be_managed(9, &running, &on_screen));
    assert_eq!(c.window_handle(1, &running, &on_screen), Ok(101));
    assert_eq!(c.window_handle(9, &running, &on_screen), Err(WmError::UnknownClient(9)));
}

#[test]
fn app_lookup_retries_once_and_yields_unknown_app_on_a_true_miss() {
    let mut c = OsxConn::new();
    let running = vec![app(10, "Finder")];
    let on_screen: Vec<OsxWindow> = Vec::new();
    // a miss triggers one refresh; pid 10 appears there
    let a = c.app_record(10, &running, &on_screen).unwrap();
    assert_eq!(a.pid, 10);
    assert_eq!(a.name, String::from("Finder"));
    // a hit leaves the state alone even under an empty snapshot
    let empty: Vec<RunningApp> = Vec::new();
    let again = c.app_record(10, &empty, &on_screen).unwrap();
    assert_eq!(again.pid, 10);
    assert_eq!(app_pids(&c), vec![10]);
    // a pid the refresh cannot find is unknown
    assert_eq!(
        c.app_record(99, &running, &on_screen),
        Err(WmError::UnknownApp(99))
    );
}

#[test]
fn fullscreen_defaults_to_false_on_a_lookup_miss() {
    assert!(client_is_fullscreen(true, true));
    assert!(!client_is_fullscreen(true, false));
    assert!(!client_is_fullscreen(false, true));
    assert!(!client_is_fullscreen(false, false));
}

#[test]
fn the_precondition_checkers_accept_what_the_os_guarantees() {
    let good_apps = vec![app(10, "a"), app(20, "b")];
    assert!(running_distinct_check(&good_apps));
    let dup_apps = vec![app(10, "a"), app(10, "b")];
    assert!(!running_distinct_check(&dup_apps));

    let good_wins = vec![win(1, 10, 0, r(0, 0, 5, 5), 101), win(2, 10, 0, r(0, 0, 5, 5), 102)];
    assert!(wins_distinct_check(&good_wins));
    let dup_number = vec![win(1, 10, 0, r(0, 0, 5, 5), 101), win(1, 10, 0, r(0, 0, 5, 5), 102)];
    assert!(!wins_distinct_check(&dup_number));
    let dup_element = vec![win(1, 10, 0, r(0, 0, 5, 5), 101), win(2, 10, 0, r(0, 0, 5, 5), 101)];
    assert!(!wins_distinct_check(&dup_element));

    let good_displays = vec![r(0, 0, 1920, 1080), r(1920, 0, 2560, 1440)];
    assert!(displays_valid_check(&good_displays));
    let flat = vec![r(0, 0, 1920, 0)];
    assert!(!displays_valid_check(&flat));
    let overflowing = vec![r(i32::MAX, 0, 2, 2)];
    assert!(!displays_valid_check(&overflowing));
}

#[test]
fn win_id_for_axwin_scans_the_map() {
    let mut c = OsxConn::new();
    let running = vec![app(10, "a")];
    let on_screen = vec![win(1, 10, 0, r(0, 0, 10, 10), 101), win(2, 10, 0, r(0, 0, 10, 10), 102)];
    c.update_known_apps_and_windows(&running, &on_screen);
    assert_eq!(c.win_id_for_axwin(102), Some(2));
    assert_eq!(c.win_id_for_axwin(999), None);
}

//! Record construction from window descriptions, enumeration's skip
//! policy, element resolution, and geometry.

use penrosx::error::{DictKey, WmError};
use penrosx::geometry::{Point, Rect};
use penrosx::win::{
    AxProbe, OsxApp, OsxWindow, RunningApp, WindowDict, WindowSource, find_ax_window,
};

fn full_dict() -> WindowDict {
    WindowDict {
        number: Some(21247),
        owner_pid: Some(83052),
        layer: Some(0),
        bounds: Some(Rect { x: -1200, y: 25, w: 1200, h: 1107 }),
        owner_name: Some(String::from("Slack")),
        name: Some(String::from("general")),
    }
}

#[test]
fn a_complete_description_builds_a_record() {
    let w = OsxWindow::try_from_dict(&full_dict(), Some(555), true).unwrap();
    assert_eq!(w.win_id, 21247);
    assert_eq!(w.owner_pid, 83052);
    assert_eq!(w.window_layer, 0);
    assert_eq!(w.bounds, Rect { x: -1200, y: 25, w: 1200, h: 1107 });
    assert_eq!(w.owner, String::from("Slack"));
    assert_eq!(w.window_name, Some(String::from("general")));
    assert_eq!(w.axwin, 555);
}

#[test]
fn the_window_name_is_genuinely_optional() {
    let mut d = full_dict();
    d.name = None;
    let w = OsxWindow::try_from_dict(&d, Some(555), true).unwrap();
    assert_eq!(w.window_name, None);
}

#[test]
fn each_missing_required_key_names_itself() {
    let mut d = full_dict();
    d.number = None;
    assert_eq!(
        OsxWindow::try_from_dict(&d, Some(1), true),
        Err(WmError::MissingKey(DictKey::Number))
    );
    let mut d = full_dict();
    d.owner_pid = None;
    assert_eq!(
        OsxWindow::try_from_dict(&d, Some(1), true),
        Err(WmError::MissingKey(DictKey::OwnerPid))
    );
    let mut d = full_dict();
    d.layer = None;
    assert_eq!(
        OsxWindow::try_from_dict(&d, Some(1), true),
        Err(WmError::MissingKey(DictKey::Layer))
    );
    let mut d = full_dict();
    d.bounds = None;
    assert_eq!(
        OsxWindow::try_from_dict(&d, Some(1), true),
        Err(WmError::MissingKey(DictKey::Bounds))
    );
    let mut d = full_dict();
    d.owner_name = None;
    assert_eq!(
        OsxWindow::try_from_dict(&d, Some(1), true),
        Err(WmError::MissingKey(DictKey::OwnerName))
    );
}

#[test]
fn an_unresolved_element_is_a_window_not_found_race() {
    assert_eq!(
        OsxWindow::try_from_dict(&full_dict(), None, true),
        Err(WmError::WindowNotFound)
    );
}

#[test]
fn failed_observer_registration_fails_the_construction() {
    assert_eq!(
        OsxWindow::try_from_dict(&full_dict(), Some(1), false),
        Err(WmError::ObserverRegistration)
    );
}

#[test]
fn the_identifier_pair_is_read_first() {
    assert_eq!(OsxWindow::window_ids_from_dict(&full_dict()), Ok((21247, 83052)));
}

#[test]
fn enumeration_skips_only_the_window_not_found_race() {
    let mut unresolved = full_dict();
    unresolved.number = Some(2);
    let mut ok_tail = full_dict();
    ok_tail.number = Some(4);
    let sources = vec![
        WindowSource { dict: full_dict(), axwin: Some(11), observers_ok: true },
        WindowSource { dict: unresolved, axwin: None, observers_ok: true },
        WindowSource { dict: ok_tail, axwin: Some(14), observers_ok: true },
    ];
    let records = OsxWindow::current_windows(&sources).unwrap();
    let ids: Vec<u32> = records.iter().map(|w| w.win_id).collect();
    assert_eq!(ids, vec![21247, 4]);
}

#[test]
fn enumeration_propagates_other_construction_failures() {
    let mut incomplete = full_dict();
    incomplete.number = Some(3);
    incomplete.owner_name = None;
    let sources = vec![
        WindowSource { dict: full_dict(), axwin: Some(11), observers_ok: true },
        WindowSource { dict: incomplete, axwin: Some(13), observers_ok: true },
    ];
    assert_eq!(
        OsxWindow::current_windows(&sources),
        Err(WmError::MissingKey(DictKey::OwnerName))
    );
    let sources = vec![
        WindowSource { dict: full_dict(), axwin: Some(11), observers_ok: false },
    ];
    assert_eq!(
        OsxWindow::current_windows(&sources),
        Err(WmError::ObserverRegistration)
    );
}

#[test]
fn enumeration_surfaces_the_first_failure_in_list_order() {
    let mut missing_layer = full_dict();
    missing_layer.number = Some(3);
    missing_layer.layer = None;
    let mut observers_failed = full_dict();
    observers_failed.number = Some(5);
    let sources = vec![
        WindowSource { dict: missing_layer, axwin: Some(13), observers_ok: true },
        WindowSource { dict: observers_failed, axwin: Some(15), observers_ok: false },
    ];
    assert_eq!(
        OsxWindow::current_windows(&sources),
        Err(WmError::MissingKey(DictKey::Layer))
    );
}

#[test]
fn element_resolution_takes_the_first_matching_probe() {
    let probes = vec![
        AxProbe { axwin: 7, win_id: None },
        AxProbe { axwin: 8, win_id: Some(42) },
        AxProbe { axwin: 9, win_id: Some(41) },
        AxProbe { axwin: 10, win_id: Some(41) },
    ];
    assert_eq!(find_ax_window(&probes, 41), Some(9));
    assert_eq!(find_ax_window(&probes, 42), Some(8));
    assert_eq!(find_ax_window(&probes, 40), None);
}

#[test]
fn app_construction_fails_only_on_observer_failure() {
    let good = RunningApp {
        pid: 7,
        name: String::from("Finder"),
        policy: 0,
        ax_observers_ok: true,
    };
    let a = OsxApp::try_new(&good).unwrap();
    assert_eq!(a.pid, 7);
    assert_eq!(a.name, String::from("Finder"));
    let bad = RunningApp { ax_observers_ok: false, ..good };
    assert_eq!(OsxApp::try_new(&bad), Err(WmError::ObserverRegistration));
}

#[test]
fn midpoints_and_containment_follow_the_display_grid() {
    let r = Rect { x: 10, y: 20, w: 7, h: 9 };
    assert_eq!(r.midpoint(), Point { x: 13, y: 24 });
    let screen = Rect { x: 0, y: 0, w: 1920, h: 1080 };
    assert!(screen.contains_point(Point { x: 0, y: 0 }));
    assert!(screen.contains_point(Point { x: 1919, y: 1079 }));
    assert!(!screen.contains_point(Point { x: 1920, y: 0 }));
    assert!(!screen.contains_point(Point { x: -1, y: 5 }));
}

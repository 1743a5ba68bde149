//! Event decoding, the dispatch table, and the startup trust gate.

use penrosx::error::WmError;
use penrosx::event::{
    Disposition, Event, KeyCode, decode_ax_notification, decode_workspace_notification,
};
use penrosx::sys::startup_check;

#[test]
fn accessibility_notifications_decode_by_name_and_refcon() {
    let cases: Vec<(&str, Event)> = vec![
        ("AXWindowCreated", Event::WindowCreated { pid: 77 }),
        ("AXFocusedWindowChanged", Event::FocusedWindowChanged { pid: 77 }),
        ("AXUIElementDestroyed", Event::UiElementDestroyed { id: 77 }),
        ("AXWindowDeminiaturized", Event::WindowDeminiturized { id: 77 }),
        ("AXWindowMiniaturized", Event::WindowMiniturized { id: 77 }),
        ("AXMoved", Event::WindowMoved { id: 77 }),
        ("AXResized", Event::WindowResized { id: 77 }),
    ];
    for (name, expected) in cases {
        assert_eq!(decode_ax_notification(&String::from(name), 77), Some(expected));
    }
}

#[test]
fn unknown_accessibility_notifications_are_dropped() {
    assert_eq!(decode_ax_notification(&String::from("AXTitleChanged"), 5), None);
    assert_eq!(decode_ax_notification(&String::from(""), 5), None);
}

#[test]
fn the_refcon_carries_a_pid_or_a_window_number() {
    // a pid rides the pointer's bit pattern untouched
    assert_eq!(
        decode_ax_notification(&String::from("AXWindowCreated"), 4242),
        Some(Event::WindowCreated { pid: 4242 })
    );
    // a window number is read back as the unsigned 32-bit value
    assert_eq!(
        decode_ax_notification(&String::from("AXUIElementDestroyed"), 0xFFFF_FFFF),
        Some(Event::UiElementDestroyed { id: 0xFFFF_FFFF })
    );
}

#[test]
fn workspace_notifications_decode_by_name() {
    let cases: Vec<(&str, Event)> = vec![
        ("NSWorkspaceDidLaunchApplicationNotification", Event::AppLaunched { pid: 9 }),
        ("NSWorkspaceDidActivateApplicationNotification", Event::AppActivated { pid: 9 }),
        ("NSWorkspaceDidDeactivateApplicationNotification", Event::AppDeactivated { pid: 9 }),
        ("NSWorkspaceDidHideApplicationNotification", Event::AppHidden { pid: 9 }),
        ("NSWorkspaceDidUnhideApplicationNotification", Event::AppUnhidden { pid: 9 }),
        ("NSWorkspaceDidTerminateApplicationNotification", Event::AppTerminated { pid: 9 }),
    ];
    for (name, expected) in cases {
        assert_eq!(decode_workspace_notification(&String::from(name), 9), Some(expected));
    }
    assert_eq!(
        decode_workspace_notification(&String::from("NSWorkspaceWillPowerOffNotification"), 9),
        None
    );
}

#[test]
fn the_dispatch_table_routes_every_event() {
    let k = KeyCode { mask: 0, code: 3 };
    assert_eq!(Event::AppActivated { pid: 1 }.disposition(), Disposition::FocusApp(1));
    assert_eq!(Event::AppLaunched { pid: 2 }.disposition(), Disposition::FocusApp(2));
    assert_eq!(
        Event::FocusedWindowChanged { pid: 3 }.disposition(),
        Disposition::FocusApp(3)
    );
    assert_eq!(
        Event::AppTerminated { pid: 4 }.disposition(),
        Disposition::ClearTerminated(4)
    );
    assert_eq!(
        Event::WindowCreated { pid: 5 }.disposition(),
        Disposition::NewWindowDiff(5)
    );
    assert_eq!(
        Event::UiElementDestroyed { id: 6 }.disposition(),
        Disposition::ClearClosed(6)
    );
    assert_eq!(Event::KeyPress { k }.disposition(), Disposition::RunKeyBinding(k));
    assert_eq!(Event::AppDeactivated { pid: 7 }.disposition(), Disposition::Ignore);
    assert_eq!(Event::AppHidden { pid: 8 }.disposition(), Disposition::Ignore);
    assert_eq!(Event::AppUnhidden { pid: 9 }.disposition(), Disposition::Ignore);
    assert_eq!(Event::WindowMiniturized { id: 10 }.disposition(), Disposition::Ignore);
    assert_eq!(Event::WindowDeminiturized { id: 11 }.disposition(), Disposition::Ignore);
    assert_eq!(Event::WindowMoved { id: 12 }.disposition(), Disposition::Ignore);
    assert_eq!(Event::WindowResized { id: 13 }.disposition(), Disposition::Ignore);
}

#[test]
fn every_event_requires_a_pointer_warp() {
    assert!(Event::AppActivated { pid: 1 }.requires_pointer_warp());
    assert!(Event::WindowMoved { id: 2 }.requires_pointer_warp());
    assert!(Event::KeyPress { k: KeyCode { mask: 0, code: 0 } }.requires_pointer_warp());
}

#[test]
fn events_name_their_variant() {
    assert_eq!(Event::AppTerminated { pid: 1 }.name(), String::from("AppTerminated"));
    assert_eq!(Event::WindowCreated { pid: 1 }.name(), String::from("WindowCreated"));
    assert_eq!(
        Event::KeyPress { k: KeyCode { mask: 0, code: 1 } }.name(),
        String::from("KeyPress")
    );
}

#[test]
fn the_trust_gate_blocks_an_untrusted_process() {
    assert_eq!(startup_check(false), Err(WmError::NotTrusted));
    assert_eq!(startup_check(true), Ok(()));
}

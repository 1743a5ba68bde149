//! The single ordered event stream that the window manager consumes.
//!
//! Two OS notification streams feed it: the workspace centre's
//! application-lifecycle notifications and the per-element
//! accessibility notifications. Both are decoded here from the
//! notification name plus the small integer that was encoded into the
//! observer's user-data pointer (a pid for application notifications,
//! a window number for window notifications); hotkey presses are
//! multiplexed onto the same channel as `KeyPress` events.

use vstd::prelude::*;

verus! {

/// Process identifier of an application.
pub type Pid = i32;

/// OS-assigned window number, stable for the window's lifetime.
pub type WinId = u32;

/// A synthetic key code for a registered global hotkey.
#[derive(Debug, Clone, Copy, PartialEq, Eq, Hash, Structural)]
pub struct KeyCode {
    /// The modifier mask (unused by the hotkey table; kept for the
    /// engine's key-binding map).
    pub mask: u16,
    /// The index of the binding in the registration order.
    pub code: u8,
}

/// An event on the connection's channel.
#[derive(Debug, Clone, Copy, PartialEq, Eq, Hash, Structural)]
pub enum Event {
    AppActivated { pid: Pid },
    AppDeactivated { pid: Pid },
    AppLaunched { pid: Pid },
    AppTerminated { pid: Pid },
    AppHidden { pid: Pid },
    AppUnhidden { pid: Pid },
    WindowCreated { pid: Pid },
    FocusedWindowChanged { pid: Pid },
    UiElementDestroyed { id: WinId },
    WindowMiniturized { id: WinId },
    WindowDeminiturized { id: WinId },
    WindowMoved { id: WinId },
    WindowResized { id: WinId },
    KeyPress { k: KeyCode },
}

impl Event {
    /// Every event asks the engine to warp the pointer afterwards.
    pub fn requires_pointer_warp(&self) -> (b: bool)
        ensures
            b,
    {
        true
    }
}

/// The bare name of an event's variant, for log lines.
pub open spec fn spec_event_name(e: Event) -> Seq<char> {
    match e {
        Event::AppActivated { .. } => "AppActivated"@,
        Event::AppDeactivated { .. } => "AppDeactivated"@,
        Event::AppLaunched { .. } => "AppLaunched"@,
        Event::AppTerminated { .. } => "AppTerminated"@,
        Event::AppHidden { .. } => "AppHidden"@,
        Event::AppUnhidden { .. } => "AppUnhidden"@,
        Event::WindowCreated { .. } => "WindowCreated"@,
        Event::FocusedWindowChanged { .. } => "FocusedWindowChanged"@,
        Event::UiElementDestroyed { .. } => "UiElementDestroyed"@,
        Event::WindowMiniturized { .. } => "WindowMiniturized"@,
        Event::WindowDeminiturized { .. } => "WindowDeminiturized"@,
        Event::WindowMoved { .. } => "WindowMoved"@,
        Event::WindowResized { .. } => "WindowResized"@,
        Event::KeyPress { .. } => "KeyPress"@,
    }
}

impl Event {
    /// The bare name of the event's variant, for log lines.
    pub fn name(&self) -> (s: String)
        ensures
            s@ == spec_event_name(*self),
    {
        match *self {
            Event::AppActivated { .. } => "AppActivated".to_owned(),
            Event::AppDeactivated { .. } => "AppDeactivated".to_owned(),
            Event::AppLaunched { .. } => "AppLaunched".to_owned(),
            Event::AppTerminated { .. } => "AppTerminated".to_owned(),
            Event::AppHidden { .. } => "AppHidden".to_owned(),
            Event::AppUnhidden { .. } => "AppUnhidden".to_owned(),
            Event::WindowCreated { .. } => "WindowCreated".to_owned(),
            Event::FocusedWindowChanged { .. } => "FocusedWindowChanged".to_owned(),
            Event::UiElementDestroyed { .. } => "UiElementDestroyed".to_owned(),
            Event::WindowMiniturized { .. } => "WindowMiniturized".to_owned(),
            Event::WindowDeminiturized { .. } => "WindowDeminiturized".to_owned(),
            Event::WindowMoved { .. } => "WindowMoved".to_owned(),
            Event::WindowResized { .. } => "WindowResized".to_owned(),
            Event::KeyPress { .. } => "KeyPress".to_owned(),
        }
    }
}

/// What the connection does with an event, as one closed table: the
/// three focus-follows-app notifications share a handler, termination
/// and destruction narrow the maps, `WindowCreated` triggers the
/// new-window diff, key presses go to the binding table, and the rest
/// are acknowledged without any action.
#[derive(Debug, Clone, Copy, PartialEq, Eq, Structural)]
pub enum Disposition {
    /// Resolve the app's focused window and follow it.
    FocusApp(Pid),
    /// Drop the app and its windows; unmanage them in the engine.
    ClearTerminated(Pid),
    /// Refresh and manage the windows the pid just created.
    NewWindowDiff(Pid),
    /// Drop the destroyed window; unmanage it in the engine.
    ClearClosed(WinId),
    /// Run the user key binding for this code.
    RunKeyBinding(KeyCode),
    /// Nothing to do.
    Ignore,
}

/// The dispatch table of `handle_event`, as a function of the event.
pub open spec fn spec_disposition(e: Event) -> Disposition {
    match e {
        Event::AppActivated { pid } => Disposition::FocusApp(pid),
        Event::AppLaunched { pid } => Disposition::FocusApp(pid),
        Event::FocusedWindowChanged { pid } => Disposition::FocusApp(pid),
        Event::AppTerminated { pid } => Disposition::ClearTerminated(pid),
        Event::WindowCreated { pid } => Disposition::NewWindowDiff(pid),
        Event::UiElementDestroyed { id } => Disposition::ClearClosed(id),
        Event::KeyPress { k } => Disposition::RunKeyBinding(k),
        Event::AppDeactivated { .. } => Disposition::Ignore,
        Event::AppHidden { .. } => Disposition::Ignore,
        Event::AppUnhidden { .. } => Disposition::Ignore,
        Event::WindowMiniturized { .. } => Disposition::Ignore,
        Event::WindowDeminiturized { .. } => Disposition::Ignore,
        Event::WindowMoved { .. } => Disposition::Ignore,
        Event::WindowResized { .. } => Disposition::Ignore,
    }
}

impl Event {
    /// How the connection dispatches this event.
    pub fn disposition(&self) -> (d: Disposition)
        ensures
            d == spec_disposition(*self),
    {
        match *self {
            Event::AppActivated { pid } => Disposition::FocusApp(pid),
            Event::AppLaunched { pid } => Disposition::FocusApp(pid),
            Event::FocusedWindowChanged { pid } => Disposition::FocusApp(pid),
            Event::AppTerminated { pid } => Disposition::ClearTerminated(pid),
            Event::WindowCreated { pid } => Disposition::NewWindowDiff(pid),
            Event::UiElementDestroyed { id } => Disposition::ClearClosed(id),
            Event::KeyPress { k } => Disposition::RunKeyBinding(k),
            Event::AppDeactivated { .. } => Disposition::Ignore,
            Event::AppHidden { .. } => Disposition::Ignore,
            Event::AppUnhidden { .. } => Disposition::Ignore,
            Event::WindowMiniturized { .. } => Disposition::Ignore,
            Event::WindowDeminiturized { .. } => Disposition::Ignore,
            Event::WindowMoved { .. } => Disposition::Ignore,
            Event::WindowResized { .. } => Disposition::Ignore,
        }
    }
}

/// What the single accessibility observer callback emits for a
/// notification name and the integer that was encoded into its refcon
/// pointer: the two application notifications read it as a pid, the
/// five window notifications as a window number, and any other name is
/// dropped. The chain is ordered like the executable match.
pub open spec fn spec_decode_ax_notification(name: Seq<char>, refcon: u64) -> Option<Event> {
    if name == "AXWindowCreated"@ {
        Some(Event::WindowCreated { pid: refcon as i32 })
    } else if name == "AXFocusedWindowChanged"@ {
        Some(Event::FocusedWindowChanged { pid: refcon as i32 })
    } else if name == "AXUIElementDestroyed"@ {
        Some(Event::UiElementDestroyed { id: refcon as u32 })
    } else if name == "AXWindowDeminiaturized"@ {
        Some(Event::WindowDeminiturized { id: refcon as u32 })
    } else if name == "AXWindowMiniaturized"@ {
        Some(Event::WindowMiniturized { id: refcon as u32 })
    } else if name == "AXMoved"@ {
        Some(Event::WindowMoved { id: refcon as u32 })
    } else if name == "AXResized"@ {
        Some(Event::WindowResized { id: refcon as u32 })
    } else {
        None
    }
}

/// Decode an accessibility notification into an event.
///
/// `refcon` is the bit pattern of the user-data pointer the observer
/// registration carried: window observers encode the window number,
/// application observers the pid. An unknown name yields `None` (the
/// callback logs and drops it).
pub fn decode_ax_notification(name: &String, refcon: u64) -> (r: Option<Event>)
    ensures
        r == spec_decode_ax_notification(name@, refcon),
{
    if *name == "AXWindowCreated".to_owned() {
        Some(Event::WindowCreated { pid: refcon as i32 })
    } else if *name == "AXFocusedWindowChanged".to_owned() {
        Some(Event::FocusedWindowChanged { pid: refcon as i32 })
    } else if *name == "AXUIElementDestroyed".to_owned() {
        Some(Event::UiElementDestroyed { id: refcon as u32 })
    } else if *name == "AXWindowDeminiaturized".to_owned() {
        Some(Event::WindowDeminiturized { id: refcon as u32 })
    } else if *name == "AXWindowMiniaturized".to_owned() {
        Some(Event::WindowMiniturized { id: refcon as u32 })
    } else if *name == "AXMoved".to_owned() {
        Some(Event::WindowMoved { id: refcon as u32 })
    } else if *name == "AXResized".to_owned() {
        Some(Event::WindowResized { id: refcon as u32 })
    } else {
        None
    }
}

/// What the workspace observer emits for an application-lifecycle
/// notification name, with the pid read from the notification's
/// user-info dictionary. The chain is ordered like the executable
/// match.
pub open spec fn spec_decode_workspace_notification(name: Seq<char>, pid: Pid) -> Option<Event> {
    if name == "NSWorkspaceDidLaunchApplicationNotification"@ {
        Some(Event::AppLaunched { pid })
    } else if name == "NSWorkspaceDidActivateApplicationNotification"@ {
        Some(Event::AppActivated { pid })
    } else if name == "NSWorkspaceDidDeactivateApplicationNotification"@ {
        Some(Event::AppDeactivated { pid })
    } else if name == "NSWorkspaceDidHideApplicationNotification"@ {
        Some(Event::AppHidden { pid })
    } else if name == "NSWorkspaceDidUnhideApplicationNotification"@ {
        Some(Event::AppUnhidden { pid })
    } else if name == "NSWorkspaceDidTerminateApplicationNotification"@ {
        Some(Event::AppTerminated { pid })
    } else {
        None
    }
}

/// Decode a workspace notification into an event.
pub fn decode_workspace_notification(name: &String, pid: Pid) -> (r: Option<Event>)
    ensures
        r == spec_decode_workspace_notification(name@, pid),
{
    if *name == "NSWorkspaceDidLaunchApplicationNotification".to_owned() {
        Some(Event::AppLaunched { pid })
    } else if *name == "NSWorkspaceDidActivateApplicationNotification".to_owned() {
        Some(Event::AppActivated { pid })
    } else if *name == "NSWorkspaceDidDeactivateApplicationNotification".to_owned() {
        Some(Event::AppDeactivated { pid })
    } else if *name == "NSWorkspaceDidHideApplicationNotification".to_owned() {
        Some(Event::AppHidden { pid })
    } else if *name == "NSWorkspaceDidUnhideApplicationNotification".to_owned() {
        Some(Event::AppUnhidden { pid })
    } else if *name == "NSWorkspaceDidTerminateApplicationNotification".to_owned() {
        Some(Event::AppTerminated { pid })
    } else {
        None
    }
}

} // verus!

//! The error taxonomy of the connection core.
//!
//! `NotTrusted` can only arise at startup; `UnknownClient` is a lookup
//! miss that survived a refresh; `NoScreens` means display enumeration
//! came back empty; the remaining variants carry, as structured data,
//! the operation context and cause that a log line would name (the
//! driver renders them, together with the native status code it got,
//! for the user).

use vstd::prelude::*;

verus! {

/// A key of the display server's per-window description dictionary.
#[derive(Debug, Clone, Copy, PartialEq, Eq, Structural)]
pub enum DictKey {
    /// The OS-assigned window number.
    Number,
    /// The pid of the owning process.
    OwnerPid,
    /// The stacking-order layer.
    Layer,
    /// The window bounds.
    Bounds,
    /// The owning application's name.
    OwnerName,
}

/// An accessibility call that the driver performs on the library's
/// behalf and that can fail with a native status code.
#[derive(Debug, Clone, Copy, PartialEq, Eq, Structural)]
pub enum OsOp {
    /// Writing the position attribute of a window.
    SetPosition,
    /// Writing the size attribute of a window.
    SetSize,
    /// Reading the close-button child of a window.
    GetCloseButton,
    /// Setting the main attribute of a window.
    SetMain,
    /// Raising a window.
    Raise,
    /// Reading the focused window of an application.
    FocusedWindow,
    /// Writing the enhanced-user-interface attribute of an application.
    SetEnhancedUserInterface,
}

/// Everything that can go wrong inside the connection core.
#[derive(Debug, Clone, PartialEq, Eq, Structural)]
pub enum WmError {
    /// The process lacks accessibility permission.
    NotTrusted,
    /// No window with this id exists, even after a refresh.
    UnknownClient(u32),
    /// No application with this pid exists, even after a refresh.
    UnknownApp(i32),
    /// Display enumeration returned no screens.
    NoScreens,
    /// A window in the on-screen list could not be matched to an
    /// accessibility element (a transient race; callers skip it).
    WindowNotFound,
    /// A required key was absent from a window description.
    MissingKey(DictKey),
    /// Registering an accessibility observer failed.
    ObserverRegistration,
    /// A native accessibility call returned a non-success status.
    OsCall(OsOp),
}

} // verus!

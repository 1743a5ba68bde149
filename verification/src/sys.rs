//! Process-level startup requirements of the platform layer.
//!
//! Before any observer is registered the process must hold
//! accessibility trust, install the one-second messaging timeout on
//! the system-wide accessibility element, configure itself as a
//! regular-activation application and activate itself; the driver
//! performs those native calls. What stands here is the decision the
//! startup sequence turns on, and the opaque token type for the main
//! dispatch queue the notification blocks are scheduled on.

use vstd::prelude::*;

use crate::error::WmError;

verus! {

/// Opaque stand-in for a dispatch queue object of the OS; the driver
/// holds the main queue behind a pointer to one of these. Nothing is
/// ever read out of a value of this type.
#[allow(non_camel_case_types)]
pub struct dispatch_object_s {
    _private: [u8; 0],
}

/// The trust gate of startup: with accessibility trust the manager
/// proceeds, without it the process must report `NotTrusted` and
/// exit. `trusted` is what the trust predicate of the OS answered
/// (prompting the user as a side effect).
pub fn startup_check(trusted: bool) -> (r: Result<(), WmError>)
    ensures
        trusted ==> r == Ok::<(), WmError>(()),
        !trusted ==> r == Err::<(), WmError>(WmError::NotTrusted),
{
    if trusted {
        Ok(())
    } else {
        Err(WmError::NotTrusted)
    }
}

} // verus!

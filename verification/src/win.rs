//! Per-window and per-application records.
//!
//! A record holds, as plain values, everything the manager reads of a
//! window or an application: identifiers, geometry, names, and the
//! token of the native accessibility element the driver resolved for
//! it. The native handles and the observer registrations that keep a
//! record live belong to the driver; the library only ever sees the
//! token, which is unique per element.

use vstd::prelude::*;

use crate::error::{DictKey, WmError};
use crate::event::{Pid, WinId};
use crate::geometry::Rect;

verus! {

/// Opaque token standing for one native accessibility element. Two
/// distinct elements never share a token.
pub type AxId = u64;

/// One entry of the OS's running-application enumeration, together
/// with the outcome of attaching the application-level accessibility
/// observers to it.
#[derive(Debug, Clone, PartialEq, Eq)]
pub struct RunningApp {
    pub pid: Pid,
    /// The localized application name.
    pub name: String,
    /// The activation policy; only policy `0` (regular) applications
    /// appear to the user and are tracked.
    pub policy: i32,
    /// Whether every application-level observer registration attached.
    /// When one fails, construction of the record fails as a whole.
    pub ax_observers_ok: bool,
}

/// A tracked application: a regular-activation process whose
/// accessibility observers are registered.
#[derive(Debug, Clone, PartialEq, Eq)]
pub struct OsxApp {
    pub pid: Pid,
    pub name: String,
}

impl OsxApp {
    /// Build the record for a newly seen running application.
    ///
    /// Construction fails exactly when one of the observer
    /// registrations failed to attach (the partially created
    /// observers are released by the driver).
    pub fn try_new(running: &RunningApp) -> (r: Result<OsxApp, WmError>)
        ensures
            running.ax_observers_ok ==> r == Ok::<OsxApp, WmError>(
                OsxApp { pid: running.pid, name: running.name },
            ),
            !running.ax_observers_ok ==> r == Err::<OsxApp, WmError>(
                WmError::ObserverRegistration,
            ),
    {
        if running.ax_observers_ok {
            Ok(OsxApp { pid: running.pid, name: running.name.clone() })
        } else {
            Err(WmError::ObserverRegistration)
        }
    }
}

impl OsxApp {
    /// A field-for-field copy (`clone` carries no specification for
    /// types that own a `String`).
    pub fn duplicate(&self) -> (a: OsxApp)
        ensures
            a == *self,
    {
        OsxApp { pid: self.pid, name: self.name.clone() }
    }
}

/// A tracked window.
#[derive(Debug, Clone, PartialEq, Eq)]
pub struct OsxWindow {
    pub win_id: WinId,
    pub owner_pid: Pid,
    /// The stacking-order layer; only layer `0` is a normal window.
    pub window_layer: i32,
    /// The last bounds the manager commanded, or the bounds observed
    /// at discovery; not a live mirror of the OS.
    pub bounds: Rect,
    /// The owning application's name as the display server reports it.
    pub owner: String,
    /// The window title, when the display server reports one.
    pub window_name: Option<String>,
    /// Token of the accessibility element resolved for this window.
    pub axwin: AxId,
}

impl OsxWindow {
    /// A field-for-field copy (`clone` carries no specification for
    /// types that own a `String`).
    pub fn duplicate(&self) -> (w: OsxWindow)
        ensures
            w == *self,
    {
        OsxWindow {
            win_id: self.win_id,
            owner_pid: self.owner_pid,
            window_layer: self.window_layer,
            bounds: self.bounds,
            owner: self.owner.clone(),
            window_name: match &self.window_name {
                Some(s) => Some(s.clone()),
                None => None,
            },
            axwin: self.axwin,
        }
    }
}

/// The plain contents of one entry of the display server's on-screen
/// window list. Each field is present exactly when the corresponding
/// key was present in the description dictionary.
#[derive(Debug, Clone, PartialEq, Eq)]
pub struct WindowDict {
    /// The `kCGWindowNumber` key.
    pub number: Option<i32>,
    /// The `kCGWindowOwnerPID` key.
    pub owner_pid: Option<i32>,
    /// The `kCGWindowLayer` key.
    pub layer: Option<i32>,
    /// The `kCGWindowBounds` key.
    pub bounds: Option<Rect>,
    /// The `kCGWindowOwnerName` key.
    pub owner_name: Option<String>,
    /// The `kCGWindowName` key; genuinely optional.
    pub name: Option<String>,
}

/// One window description together with the outcomes of the two native
/// steps the driver performed for it: resolving the accessibility
/// element (`None` when no element of the owning application matched
/// the window number) and attaching the window-level observers.
#[derive(Debug, Clone, PartialEq, Eq)]
pub struct WindowSource {
    pub dict: WindowDict,
    pub axwin: Option<AxId>,
    pub observers_ok: bool,
}

/// The identifiers a window description must carry before the driver
/// can resolve its accessibility element: the window number and the
/// owning pid, read in that order.
pub open spec fn spec_window_ids_from_dict(d: WindowDict) -> Result<(WinId, Pid), WmError> {
    match d.number {
        None => Err(WmError::MissingKey(DictKey::Number)),
        Some(n) => match d.owner_pid {
            None => Err(WmError::MissingKey(DictKey::OwnerPid)),
            Some(pid) => Ok((n as u32, pid)),
        },
    }
}

/// What building a window record from a description yields, for every
/// combination of description, resolution outcome and observer
/// outcome. The checks run in the order of the executable code: the
/// two identifiers, the element resolution, the remaining required
/// keys, then the observer registrations.
pub open spec fn spec_window_from_dict(
    d: WindowDict,
    axwin: Option<AxId>,
    observers_ok: bool,
) -> Result<OsxWindow, WmError> {
    match spec_window_ids_from_dict(d) {
        Err(e) => Err(e),
        Ok((win_id, owner_pid)) => match axwin {
            None => Err(WmError::WindowNotFound),
            Some(ax) => match d.layer {
                None => Err(WmError::MissingKey(DictKey::Layer)),
                Some(layer) => match d.bounds {
                    None => Err(WmError::MissingKey(DictKey::Bounds)),
                    Some(bounds) => match d.owner_name {
                        None => Err(WmError::MissingKey(DictKey::OwnerName)),
                        Some(owner) => if observers_ok {
                            Ok(
                                OsxWindow {
                                    win_id,
                                    owner_pid,
                                    window_layer: layer,
                                    bounds,
                                    owner,
                                    window_name: d.name,
                                    axwin: ax,
                                },
                            )
                        } else {
                            Err(WmError::ObserverRegistration)
                        },
                    },
                },
            },
        },
    }
}

impl OsxWindow {
    /// Read the window number and owning pid out of a description, the
    /// two keys the driver needs before it can resolve the window's
    /// accessibility element.
    pub fn window_ids_from_dict(d: &WindowDict) -> (r: Result<(WinId, Pid), WmError>)
        ensures
            r == spec_window_ids_from_dict(*d),
    {
        match d.number {
            None => Err(WmError::MissingKey(DictKey::Number)),
            Some(n) => match d.owner_pid {
                None => Err(WmError::MissingKey(DictKey::OwnerPid)),
                Some(pid) => Ok((n as u32, pid)),
            },
        }
    }

    /// Build the record for one on-screen window from its description
    /// and the outcomes of the driver's native steps.
    ///
    /// A missing required key names itself; a failed element
    /// resolution yields `WindowNotFound`, which enumeration skips
    /// silently as a transient race; a failed observer registration
    /// fails the whole construction.
    pub fn try_from_dict(d: &WindowDict, axwin: Option<AxId>, observers_ok: bool) -> (r: Result<
        OsxWindow,
        WmError,
    >)
        ensures
            r == spec_window_from_dict(*d, axwin, observers_ok),
    {
        let (win_id, owner_pid) = match Self::window_ids_from_dict(d) {
            Ok(ids) => ids,
            Err(e) => {
                return Err(e);
            },
        };
        let ax = match axwin {
            Some(ax) => ax,
            None => {
                return Err(WmError::WindowNotFound);
            },
        };
        let window_layer = match d.layer {
            Some(l) => l,
            None => {
                return Err(WmError::MissingKey(DictKey::Layer));
            },
        };
        let bounds = match d.bounds {
            Some(b) => b,
            None => {
                return Err(WmError::MissingKey(DictKey::Bounds));
            },
        };
        let owner = match &d.owner_name {
            Some(s) => s.clone(),
            None => {
                return Err(WmError::MissingKey(DictKey::OwnerName));
            },
        };
        let window_name = match &d.name {
            Some(s) => Some(s.clone()),
            None => None,
        };
        if observers_ok {
            Ok(OsxWindow { win_id, owner_pid, window_layer, bounds, owner, window_name, axwin: ax })
        } else {
            Err(WmError::ObserverRegistration)
        }
    }
}

/// What enumerating a list of window sources yields: one record per
/// source whose construction succeeds, in list order. A source whose
/// element did not resolve is a transient race (`WindowNotFound`) and
/// is silently skipped; any other construction failure — an
/// incomplete description, a failed observer registration — is
/// surfaced, the first one in list order.
pub open spec fn spec_windows_from_sources(ss: Seq<WindowSource>) -> Result<
    Seq<OsxWindow>,
    WmError,
>
    decreases ss.len(),
{
    if ss.len() == 0 {
        Ok(Seq::empty())
    } else {
        match spec_windows_from_sources(ss.drop_last()) {
            Err(e) => Err(e),
            Ok(prefix) => match spec_window_from_dict(
                ss.last().dict,
                ss.last().axwin,
                ss.last().observers_ok,
            ) {
                Ok(w) => Ok(prefix.push(w)),
                Err(WmError::WindowNotFound) => Ok(prefix),
                Err(e) => Err(e),
            },
        }
    }
}

impl OsxWindow {
    /// Build the records for the current on-screen window list.
    ///
    /// A source whose element resolution failed is skipped silently
    /// (the window raced away between the enumeration and the
    /// resolution); every other construction failure is propagated,
    /// the first one in list order.
    pub fn current_windows(ss: &Vec<WindowSource>) -> (r: Result<Vec<OsxWindow>, WmError>)
        ensures
            match r {
                Ok(ws) => spec_windows_from_sources(ss@) == Ok::<Seq<OsxWindow>, WmError>(ws@),
                Err(e) => spec_windows_from_sources(ss@) == Err::<Seq<OsxWindow>, WmError>(e),
            },
    {
        let mut out: Vec<OsxWindow> = Vec::new();
        let mut failure: Option<WmError> = None;
        let mut i: usize = 0;
        while i < ss.len()
            invariant
                i <= ss@.len(),
                match failure {
                    None => spec_windows_from_sources(ss@.take(i as int)) == Ok::<
                        Seq<OsxWindow>,
                        WmError,
                    >(out@),
                    Some(e) => spec_windows_from_sources(ss@.take(i as int)) == Err::<
                        Seq<OsxWindow>,
                        WmError,
                    >(e),
                },
            decreases ss@.len() - i,
        {
            let s = &ss[i];
            proof {
                assert(ss@.take(i + 1 as int).drop_last() =~= ss@.take(i as int));
                assert(ss@.take(i + 1 as int).last() == ss@[i as int]);
            }
            if failure.is_none() {
                match OsxWindow::try_from_dict(&s.dict, s.axwin, s.observers_ok) {
                    Ok(w) => {
                        out.push(w);
                    },
                    Err(WmError::WindowNotFound) => {},
                    Err(e) => {
                        failure = Some(e);
                    },
                }
            }
            i = i + 1;
        }
        proof {
            assert(ss@.take(ss@.len() as int) =~= ss@);
        }
        match failure {
            None => Ok(out),
            Some(e) => Err(e),
        }
    }
}

/// What the display server guarantees of its on-screen list: each
/// window number and each resolved accessibility element appears in
/// at most one entry (numbers are compared as the unsigned values the
/// records carry).
pub open spec fn sources_distinct(ss: Seq<WindowSource>) -> bool {
    forall|i: int, j: int|
        #![trigger ss[i], ss[j]]
        0 <= i < j < ss.len() ==> (match (ss[i].dict.number, ss[j].dict.number) {
            (Some(a), Some(b)) => a as u32 != b as u32,
            _ => true,
        } && match (ss[i].axwin, ss[j].axwin) {
            (Some(a), Some(b)) => a != b,
            _ => true,
        })
}

/// Whether a record's two keys come from this source: its window
/// number is the source's number read as the unsigned value, and its
/// element token is the source's resolved element.
pub open spec fn source_carries(s: WindowSource, w: OsxWindow) -> bool {
    (match s.dict.number {
        Some(n) => n as u32 == w.win_id,
        None => false,
    }) && s.axwin == Some(w.axwin)
}

/// Enumeration keeps keys unique: when the source list carries
/// pairwise-distinct window numbers and elements — which the display
/// server guarantees — the records that come out are pairwise
/// distinct in both, so a driver can hand them straight to the
/// connection's refresh.
pub proof fn lemma_current_windows_distinct(ss: Seq<WindowSource>)
    requires
        sources_distinct(ss),
    ensures
        spec_windows_from_sources(ss) matches Ok(ws) ==> (forall|i: int, j: int|
            0 <= i < j < ws.len() ==> ws[i].win_id != ws[j].win_id && ws[i].axwin != ws[j].axwin),
        spec_windows_from_sources(ss) matches Ok(ws) ==> (forall|i: int|
            0 <= i < ws.len() ==> exists|k: int|
                0 <= k < ss.len() && source_carries(ss[k], #[trigger] ws[i])),
    decreases ss.len(),
{
    if ss.len() == 0 {
    } else {
        let dl = ss.drop_last();
        let s = ss.last();
        assert(sources_distinct(dl)) by {
            assert(forall|i: int, j: int|
                0 <= i < j < dl.len() ==> dl[i] == ss[i] && dl[j] == ss[j]);
        }
        lemma_current_windows_distinct(dl);
        assert(ss[ss.len() - 1] == s);
        match spec_windows_from_sources(dl) {
            Ok(prefix) => {
                match spec_window_from_dict(s.dict, s.axwin, s.observers_ok) {
                    Ok(w) => {
                        let cur = prefix.push(w);
                        // the pushed record's keys come from the last source
                        assert(source_carries(s, w));
                        assert forall|i: int| 0 <= i < cur.len() implies exists|k: int|
                            0 <= k < ss.len() && source_carries(ss[k], #[trigger] cur[i]) by {
                            if i < prefix.len() {
                                let k = choose|k: int|
                                    0 <= k < dl.len() && source_carries(dl[k], prefix[i]);
                                assert(ss[k] == dl[k]);
                                assert(source_carries(ss[k], cur[i]));
                            } else {
                                assert(cur[i] == w);
                                assert(source_carries(ss[ss.len() - 1], cur[i]));
                            }
                        }
                        assert forall|i: int, j: int| 0 <= i < j < cur.len() implies cur[i].win_id
                            != cur[j].win_id && cur[i].axwin != cur[j].axwin by {
                            if j >= prefix.len() {
                                // the earlier record's keys come from an
                                // earlier source, distinct from the last's
                                let k = choose|k: int|
                                    0 <= k < dl.len() && source_carries(dl[k], prefix[i]);
                                assert(ss[k] == dl[k]);
                                assert(cur[j] == w);
                            }
                        }
                    },
                    Err(_) => {},
                }
            },
            Err(_) => {},
        }
    }
}

/// One accessibility element of an application's window list, with the
/// window number the private element-to-window primitive read from it
/// (`None` when the primitive failed for that element).
#[derive(Debug, Clone, Copy)]
pub struct AxProbe {
    pub axwin: AxId,
    pub win_id: Option<WinId>,
}

/// The first element of the probe list whose window number matched.
pub open spec fn spec_find_ax_window(ps: Seq<AxProbe>, winid: WinId) -> Option<AxId>
    decreases ps.len(),
{
    if ps.len() == 0 {
        None
    } else if ps[0].win_id == Some(winid) {
        Some(ps[0].axwin)
    } else {
        spec_find_ax_window(ps.drop_first(), winid)
    }
}

/// Resolve a window number against an application's accessibility
/// window list: the first element whose number matches wins, elements
/// the primitive failed on are passed over, and no match means the
/// window cannot be tracked (a transient race).
pub fn find_ax_window(probes: &Vec<AxProbe>, winid: WinId) -> (r: Option<AxId>)
    ensures
        r == spec_find_ax_window(probes@, winid),
{
    let mut i: usize = 0;
    proof {
        assert(probes@.skip(0) =~= probes@);
    }
    while i < probes.len()
        invariant
            i <= probes@.len(),
            spec_find_ax_window(probes@, winid) == spec_find_ax_window(
                probes@.skip(i as int),
                winid,
            ),
        decreases probes@.len() - i,
    {
        let matched = match probes[i].win_id {
            Some(found) => found == winid,
            None => false,
        };
        proof {
            assert(probes@.skip(i as int)[0] == probes@[i as int]);
            assert(probes@.skip(i as int).drop_first() =~= probes@.skip(i + 1 as int));
        }
        if matched {
            return Some(probes[i].axwin);
        }
        i = i + 1;
    }
    None
}

} // verus!

//! The connection state and its refresh policy.
//!
//! Two maps — applications keyed by pid and windows keyed by window
//! number — are the authoritative model of what is running. A single
//! refresh routine is the only writer: it reconciles the application
//! map against the OS's running-application enumeration (dropping
//! vanished pids, constructing entries for new regular-activation
//! processes, leaving existing entries in place) and rebuilds the
//! window map from the on-screen window list, keeping exactly the
//! standard-layer windows whose owning application is tracked.
//!
//! The well-formedness invariant `OsxConn::wf` captures the window
//! manager's structural guarantees: pids and window numbers are unique
//! keys, no two windows share an accessibility element, every window's
//! owner is a tracked application, and only standard-layer windows are
//! recorded. Every operation of the connection preserves it.

use vstd::prelude::*;

use crate::error::{OsOp, WmError};
use crate::event::{Disposition, Event, Pid, WinId, spec_disposition};
use crate::geometry::{Point, Rect};
use crate::win::{OsxApp, OsxWindow, RunningApp};

verus! {

/// Whether some tracked application has this pid.
pub open spec fn apps_have(apps: Seq<OsxApp>, pid: Pid) -> bool {
    exists|i: int| 0 <= i < apps.len() && apps[i].pid == pid
}

/// Whether the enumeration reports this pid as a running
/// regular-activation (policy `0`) process.
pub open spec fn running_has(rs: Seq<RunningApp>, pid: Pid) -> bool {
    exists|i: int| 0 <= i < rs.len() && rs[i].policy == 0 && rs[i].pid == pid
}

/// Whether some tracked window has this window number.
pub open spec fn wins_have(ws: Seq<OsxWindow>, id: WinId) -> bool {
    exists|i: int| 0 <= i < ws.len() && ws[i].win_id == id
}

/// The index of the window with this number (meaningful only when
/// `wins_have` holds; unique under `wins_distinct`).
pub open spec fn win_index(ws: Seq<OsxWindow>, id: WinId) -> int {
    choose|i: int| 0 <= i < ws.len() && ws[i].win_id == id
}

/// The window with this number.
pub open spec fn win_at(ws: Seq<OsxWindow>, id: WinId) -> OsxWindow {
    ws[win_index(ws, id)]
}

/// Pids are unique keys.
pub open spec fn apps_distinct(apps: Seq<OsxApp>) -> bool {
    forall|i: int, j: int| 0 <= i < j < apps.len() ==> apps[i].pid != apps[j].pid
}

/// The enumeration reports each pid at most once.
pub open spec fn running_distinct(rs: Seq<RunningApp>) -> bool {
    forall|i: int, j: int| 0 <= i < j < rs.len() ==> rs[i].pid != rs[j].pid
}

/// Window numbers are unique keys and no two windows share an
/// accessibility element.
pub open spec fn wins_distinct(ws: Seq<OsxWindow>) -> bool {
    forall|i: int, j: int|
        0 <= i < j < ws.len() ==> ws[i].win_id != ws[j].win_id && ws[i].axwin != ws[j].axwin
}

/// The application entries a refresh keeps: those whose pid the OS
/// still reports as a running regular process, in their existing
/// order, untouched.
pub open spec fn kept_apps(apps: Seq<OsxApp>, rs: Seq<RunningApp>) -> Seq<OsxApp>
    decreases apps.len(),
{
    if apps.len() == 0 {
        Seq::empty()
    } else {
        let prefix = kept_apps(apps.drop_last(), rs);
        if running_has(rs, apps.last().pid) {
            prefix.push(apps.last())
        } else {
            prefix
        }
    }
}

/// The entries a refresh adds: one per enumerated regular process that
/// is not yet tracked and whose observers attached, in enumeration
/// order.
pub open spec fn added_apps(apps: Seq<OsxApp>, rs: Seq<RunningApp>) -> Seq<OsxApp>
    decreases rs.len(),
{
    if rs.len() == 0 {
        Seq::empty()
    } else {
        let prefix = added_apps(apps, rs.drop_last());
        let r = rs.last();
        if r.policy == 0 && r.ax_observers_ok && !apps_have(apps, r.pid) {
            prefix.push(OsxApp { pid: r.pid, name: r.name })
        } else {
            prefix
        }
    }
}

/// The application map after a refresh against this enumeration.
pub open spec fn refreshed_apps(apps: Seq<OsxApp>, rs: Seq<RunningApp>) -> Seq<OsxApp> {
    kept_apps(apps, rs) + added_apps(apps, rs)
}

/// The window map after a refresh: rebuilt from the on-screen list,
/// keeping exactly the standard-layer windows owned by a tracked
/// application, in list order.
pub open spec fn refreshed_windows(src: Seq<OsxWindow>, apps: Seq<OsxApp>) -> Seq<OsxWindow>
    decreases src.len(),
{
    if src.len() == 0 {
        Seq::empty()
    } else {
        let prefix = refreshed_windows(src.drop_last(), apps);
        let w = src.last();
        if w.window_layer == 0 && apps_have(apps, w.owner_pid) {
            prefix.push(w)
        } else {
            prefix
        }
    }
}

/// The authoritative model of the running system: the two maps and the
/// cached hide point (a far off-screen coordinate reused by
/// `hide_client`).
#[derive(Debug)]
pub struct OsxConn {
    /// Tracked applications; pids are unique.
    pub apps: Vec<OsxApp>,
    /// Tracked windows; window numbers and element tokens are unique,
    /// and every owner pid is in `apps`.
    pub windows: Vec<OsxWindow>,
    /// One pixel inside the bottom-right corner of the last display.
    pub hide_pt: Point,
}

impl OsxConn {
    /// The structural invariant of the connection: unique keys, unique
    /// accessibility elements, every window owned by a tracked
    /// application, and only standard-layer windows recorded.
    pub open spec fn wf(self) -> bool {
        &&& apps_distinct(self.apps@)
        &&& wins_distinct(self.windows@)
        &&& forall|i: int|
            0 <= i < self.windows@.len() ==> apps_have(
                self.apps@,
                #[trigger] self.windows@[i].owner_pid,
            )
        &&& forall|i: int| 0 <= i < self.windows@.len() ==> #[trigger] self.windows@[i].window_layer == 0
    }

    /// A fresh connection: both maps empty, the hide point at the
    /// origin until the first display enumeration sets it.
    pub fn new() -> (c: OsxConn)
        ensures
            c.apps@ =~= Seq::<OsxApp>::empty(),
            c.windows@ =~= Seq::<OsxWindow>::empty(),
            c.hide_pt == (Point { x: 0, y: 0 }),
            c.wf(),
    {
        OsxConn { apps: Vec::new(), windows: Vec::new(), hide_pt: Point { x: 0, y: 0 } }
    }

    /// Whether an application with this pid is tracked.
    pub fn contains_app(&self, pid: Pid) -> (b: bool)
        ensures
            b == apps_have(self.apps@, pid),
    {
        let mut i: usize = 0;
        while i < self.apps.len()
            invariant
                i <= self.apps@.len(),
                forall|k: int| 0 <= k < i ==> self.apps@[k].pid != pid,
            decreases self.apps@.len() - i,
        {
            if self.apps[i].pid == pid {
                return true;
            }
            i = i + 1;
        }
        false
    }

    /// Whether a window with this number is tracked.
    pub fn contains_window(&self, id: WinId) -> (b: bool)
        ensures
            b == wins_have(self.windows@, id),
    {
        let mut i: usize = 0;
        while i < self.windows.len()
            invariant
                i <= self.windows@.len(),
                forall|k: int| 0 <= k < i ==> self.windows@[k].win_id != id,
            decreases self.windows@.len() - i,
        {
            if self.windows[i].win_id == id {
                return true;
            }
            i = i + 1;
        }
        false
    }
}

/// Whether the enumeration reports this pid as a regular process.
pub fn running_contains(rs: &Vec<RunningApp>, pid: Pid) -> (b: bool)
    ensures
        b == running_has(rs@, pid),
{
    let mut i: usize = 0;
    while i < rs.len()
        invariant
            i <= rs@.len(),
            forall|k: int| 0 <= k < i ==> !(rs@[k].policy == 0 && rs@[k].pid == pid),
        decreases rs@.len() - i,
    {
        if rs[i].policy == 0 && rs[i].pid == pid {
            return true;
        }
        i = i + 1;
    }
    false
}

/// Membership in a pushed sequence, at the pid level.
pub proof fn lemma_apps_have_push(s: Seq<OsxApp>, a: OsxApp)
    ensures
        forall|pid: Pid| #[trigger]
            apps_have(s.push(a), pid) <==> (apps_have(s, pid) || a.pid == pid),
{
    assert forall|pid: Pid| #[trigger]
        apps_have(s.push(a), pid) <==> (apps_have(s, pid) || a.pid == pid) by {
        if apps_have(s.push(a), pid) {
            let i = choose|i: int| 0 <= i < s.push(a).len() && s.push(a)[i].pid == pid;
            if i < s.len() {
                assert(s[i].pid == pid);
            }
        }
        if apps_have(s, pid) {
            let i = choose|i: int| 0 <= i < s.len() && s[i].pid == pid;
            assert(s.push(a)[i].pid == pid);
        }
        if a.pid == pid {
            assert(s.push(a)[s.len() as int].pid == pid);
        }
    }
}

/// Membership in a concatenation, at the pid level.
pub proof fn lemma_apps_have_concat(s: Seq<OsxApp>, t: Seq<OsxApp>)
    ensures
        forall|pid: Pid| #[trigger]
            apps_have(s + t, pid) <==> (apps_have(s, pid) || apps_have(t, pid)),
{
    assert forall|pid: Pid| #[trigger]
        apps_have(s + t, pid) <==> (apps_have(s, pid) || apps_have(t, pid)) by {
        if apps_have(s + t, pid) {
            let i = choose|i: int| 0 <= i < (s + t).len() && (s + t)[i].pid == pid;
            if i < s.len() {
                assert(s[i].pid == pid);
            } else {
                assert(t[i - s.len()].pid == pid);
            }
        }
        if apps_have(s, pid) {
            let i = choose|i: int| 0 <= i < s.len() && s[i].pid == pid;
            assert((s + t)[i].pid == pid);
        }
        if apps_have(t, pid) {
            let i = choose|i: int| 0 <= i < t.len() && t[i].pid == pid;
            assert((s + t)[s.len() + i].pid == pid);
        }
    }
}

/// What the kept part of a refresh contains: exactly the already
/// tracked pids the OS still reports, each entry taken unchanged from
/// the old map; key uniqueness carries over.
pub proof fn lemma_kept_apps_props(apps: Seq<OsxApp>, rs: Seq<RunningApp>)
    ensures
        forall|pid: Pid| #[trigger]
            apps_have(kept_apps(apps, rs), pid) <==> (apps_have(apps, pid) && running_has(
                rs,
                pid,
            )),
        forall|i: int|
            0 <= i < kept_apps(apps, rs).len() ==> exists|j: int|
                0 <= j < apps.len() && #[trigger] kept_apps(apps, rs)[i] == apps[j],
        apps_distinct(apps) ==> apps_distinct(kept_apps(apps, rs)),
    decreases apps.len(),
{
    if apps.len() == 0 {
    } else {
        let dl = apps.drop_last();
        let last = apps.last();
        lemma_kept_apps_props(dl, rs);
        assert(apps =~= dl.push(last));
        lemma_apps_have_push(dl, last);
        let prefix = kept_apps(dl, rs);
        if running_has(rs, last.pid) {
            lemma_apps_have_push(prefix, last);
            assert(kept_apps(apps, rs) == prefix.push(last));
            // membership of each element in the old map
            assert forall|i: int| 0 <= i < kept_apps(apps, rs).len() implies exists|j: int|
                0 <= j < apps.len() && #[trigger] kept_apps(apps, rs)[i] == apps[j] by {
                if i < prefix.len() {
                    let j = choose|j: int| 0 <= j < dl.len() && prefix[i] == dl[j];
                    assert(kept_apps(apps, rs)[i] == apps[j]);
                } else {
                    assert(kept_apps(apps, rs)[i] == apps[apps.len() - 1]);
                }
            }
            // distinctness
            if apps_distinct(apps) {
                assert(apps_distinct(dl));
                assert forall|i: int, j: int|
                    0 <= i < j < kept_apps(apps, rs).len() implies kept_apps(apps, rs)[i].pid
                    != kept_apps(apps, rs)[j].pid by {
                    if j < prefix.len() {
                    } else {
                        // j is the pushed element; i is in the prefix,
                        // whose pids all come from dl
                        let k = choose|k: int| 0 <= k < dl.len() && prefix[i] == dl[k];
                        assert(apps[k].pid == prefix[i].pid);
                        assert(apps[apps.len() - 1].pid == last.pid);
                    }
                }
            }
        } else {
            assert forall|i: int| 0 <= i < kept_apps(apps, rs).len() implies exists|j: int|
                0 <= j < apps.len() && #[trigger] kept_apps(apps, rs)[i] == apps[j] by {
                let j = choose|j: int| 0 <= j < dl.len() && prefix[i] == dl[j];
                assert(kept_apps(apps, rs)[i] == apps[j]);
            }
        }
    }
}

/// What the added part of a refresh contains: exactly one fresh entry
/// per enumerated regular process that is untracked and whose
/// observers attached; uniqueness follows from the enumeration's.
pub proof fn lemma_added_apps_props(apps: Seq<OsxApp>, rs: Seq<RunningApp>)
    ensures
        forall|pid: Pid| #[trigger]
            apps_have(added_apps(apps, rs), pid) <==> (!apps_have(apps, pid) && exists|i: int|
                0 <= i < rs.len() && rs[i].pid == pid && rs[i].policy == 0
                    && rs[i].ax_observers_ok),
        forall|i: int|
            0 <= i < added_apps(apps, rs).len() ==> running_has(
                rs,
                #[trigger] added_apps(apps, rs)[i].pid,
            ) && !apps_have(apps, added_apps(apps, rs)[i].pid),
        running_distinct(rs) ==> apps_distinct(added_apps(apps, rs)),
    decreases rs.len(),
{
    if rs.len() == 0 {
    } else {
        let dl = rs.drop_last();
        let r = rs.last();
        lemma_added_apps_props(apps, dl);
        let prefix = added_apps(apps, dl);
        assert(rs =~= dl.push(r));
        let cur = added_apps(apps, rs);
        let fresh = r.policy == 0 && r.ax_observers_ok && !apps_have(apps, r.pid);
        let a = OsxApp { pid: r.pid, name: r.name };
        if fresh {
            lemma_apps_have_push(prefix, a);
            assert(cur == prefix.push(a));
        } else {
            assert(cur == prefix);
        }
        assert(rs[rs.len() - 1] == r);
        // the pid-level characterization
        assert forall|pid: Pid| #[trigger]
            apps_have(cur, pid) <==> (!apps_have(apps, pid) && exists|i: int|
                0 <= i < rs.len() && rs[i].pid == pid && rs[i].policy == 0
                    && rs[i].ax_observers_ok) by {
            if apps_have(cur, pid) {
                if apps_have(prefix, pid) {
                    let i = choose|i: int|
                        0 <= i < dl.len() && dl[i].pid == pid && dl[i].policy == 0
                            && dl[i].ax_observers_ok;
                    assert(rs[i].pid == pid && rs[i].policy == 0 && rs[i].ax_observers_ok);
                } else {
                    assert(fresh && a.pid == pid);
                    assert(rs[rs.len() - 1].pid == pid);
                }
            }
            if !apps_have(apps, pid) && exists|i: int|
                0 <= i < rs.len() && rs[i].pid == pid && rs[i].policy == 0
                    && rs[i].ax_observers_ok {
                let i = choose|i: int|
                    0 <= i < rs.len() && rs[i].pid == pid && rs[i].policy == 0
                        && rs[i].ax_observers_ok;
                if i < dl.len() {
                    assert(dl[i].pid == pid && dl[i].policy == 0 && dl[i].ax_observers_ok);
                    assert(apps_have(prefix, pid));
                    if fresh {
                    }
                } else {
                    assert(rs[i] == r);
                    assert(fresh);
                }
            }
        }
        // each added entry names an untracked regular process
        assert forall|i: int| 0 <= i < cur.len() implies running_has(rs, #[trigger] cur[i].pid)
            && !apps_have(apps, cur[i].pid) by {
            if i < prefix.len() {
                assert(running_has(dl, prefix[i].pid) && !apps_have(apps, prefix[i].pid));
                let k = choose|k: int|
                    0 <= k < dl.len() && dl[k].policy == 0 && dl[k].pid == prefix[i].pid;
                assert(rs[k].policy == 0 && rs[k].pid == cur[i].pid);
            } else {
                assert(fresh && cur[i] == a);
                assert(rs[rs.len() - 1].policy == 0 && rs[rs.len() - 1].pid == a.pid);
            }
        }
        // uniqueness
        if running_distinct(rs) {
            assert(running_distinct(dl));
            assert forall|i: int, j: int| 0 <= i < j < cur.len() implies cur[i].pid
                != cur[j].pid by {
                if j < prefix.len() {
                } else {
                    assert(fresh && cur[j] == a);
                    assert(running_has(dl, prefix[i].pid));
                    let k = choose|k: int|
                        0 <= k < dl.len() && dl[k].policy == 0 && dl[k].pid == prefix[i].pid;
                    assert(rs[k].pid == cur[i].pid);
                    assert(rs[rs.len() - 1].pid == a.pid);
                }
            }
        }
    }
}

/// Each window of a rebuilt map is standard-layer and owned by a
/// tracked application: the filter of the rebuild, elementwise.
pub proof fn lemma_refreshed_windows_owned(src: Seq<OsxWindow>, apps: Seq<OsxApp>)
    ensures
        forall|i: int|
            0 <= i < refreshed_windows(src, apps).len() ==> apps_have(
                apps,
                #[trigger] refreshed_windows(src, apps)[i].owner_pid,
            ) && refreshed_windows(src, apps)[i].window_layer == 0,
    decreases src.len(),
{
    if src.len() == 0 {
    } else {
        let dl = src.drop_last();
        let w = src.last();
        lemma_refreshed_windows_owned(dl, apps);
        let prefix = refreshed_windows(dl, apps);
        let cur = refreshed_windows(src, apps);
        if w.window_layer == 0 && apps_have(apps, w.owner_pid) {
            assert(cur == prefix.push(w));
            assert forall|i: int| 0 <= i < cur.len() implies apps_have(
                apps,
                #[trigger] cur[i].owner_pid,
            ) && cur[i].window_layer == 0 by {
                if i < prefix.len() {
                    assert(cur[i] == prefix[i]);
                    assert(apps_have(apps, prefix[i].owner_pid) && prefix[i].window_layer == 0);
                } else {
                    assert(cur[i] == w);
                }
            }
        } else {
            assert(cur == prefix);
        }
    }
}

/// What a rebuilt window map contains: a subsequence of the on-screen
/// list, with uniqueness of numbers and elements carried over, and
/// a window number tracked exactly when the list holds a manageable
/// window with it.
pub proof fn lemma_refreshed_windows_props(src: Seq<OsxWindow>, apps: Seq<OsxApp>)
    ensures
        forall|i: int|
            0 <= i < refreshed_windows(src, apps).len() ==> (exists|j: int|
                0 <= j < src.len() && #[trigger] refreshed_windows(src, apps)[i] == src[j]),
        wins_distinct(src) ==> wins_distinct(refreshed_windows(src, apps)),
        forall|id: WinId| #[trigger]
            wins_have(refreshed_windows(src, apps), id) <==> (exists|j: int|
                0 <= j < src.len() && src[j].win_id == id && src[j].window_layer == 0
                    && apps_have(apps, src[j].owner_pid)),
    decreases src.len(),
{
    if src.len() == 0 {
    } else {
        let dl = src.drop_last();
        let w = src.last();
        lemma_refreshed_windows_props(dl, apps);
        let prefix = refreshed_windows(dl, apps);
        let cur = refreshed_windows(src, apps);
        assert(src =~= dl.push(w));
        assert(src[src.len() - 1] == w);
        if w.window_layer == 0 && apps_have(apps, w.owner_pid) {
            assert(cur == prefix.push(w));
            assert forall|i: int| 0 <= i < cur.len() implies (exists|j: int|
                0 <= j < src.len() && #[trigger] cur[i] == src[j]) by {
                if i < prefix.len() {
                    let j = choose|j: int| 0 <= j < dl.len() && prefix[i] == dl[j];
                    assert(cur[i] == src[j]);
                } else {
                    assert(cur[i] == src[src.len() - 1]);
                }
            }
            if wins_distinct(src) {
                assert(wins_distinct(dl));
                assert forall|i: int, j: int| 0 <= i < j < cur.len() implies cur[i].win_id
                    != cur[j].win_id && cur[i].axwin != cur[j].axwin by {
                    if j < prefix.len() {
                    } else {
                        let k = choose|k: int| 0 <= k < dl.len() && prefix[i] == dl[k];
                        assert(src[k] == prefix[i]);
                    }
                }
            }
            assert forall|id: WinId| #[trigger]
                wins_have(cur, id) <==> (exists|j: int|
                    0 <= j < src.len() && src[j].win_id == id && src[j].window_layer == 0
                        && apps_have(apps, src[j].owner_pid)) by {
                if wins_have(cur, id) {
                    let i = choose|i: int| 0 <= i < cur.len() && cur[i].win_id == id;
                    if i < prefix.len() {
                        assert(wins_have(prefix, id));
                        let j = choose|j: int|
                            0 <= j < dl.len() && dl[j].win_id == id && dl[j].window_layer == 0
                                && apps_have(apps, dl[j].owner_pid);
                        assert(src[j].win_id == id && src[j].window_layer == 0 && apps_have(
                            apps,
                            src[j].owner_pid,
                        ));
                    } else {
                        assert(src[src.len() - 1].win_id == id);
                    }
                }
                if exists|j: int|
                    0 <= j < src.len() && src[j].win_id == id && src[j].window_layer == 0
                        && apps_have(apps, src[j].owner_pid) {
                    let j = choose|j: int|
                        0 <= j < src.len() && src[j].win_id == id && src[j].window_layer == 0
                            && apps_have(apps, src[j].owner_pid);
                    if j < dl.len() {
                        assert(dl[j].win_id == id && dl[j].window_layer == 0 && apps_have(
                            apps,
                            dl[j].owner_pid,
                        ));
                        assert(wins_have(prefix, id));
                        let i = choose|i: int| 0 <= i < prefix.len() && prefix[i].win_id == id;
                        assert(cur[i].win_id == id);
                    } else {
                        assert(cur[cur.len() - 1].win_id == id);
                    }
                }
            }
        } else {
            assert(cur == prefix);
            assert forall|i: int| 0 <= i < cur.len() implies (exists|j: int|
                0 <= j < src.len() && #[trigger] cur[i] == src[j]) by {
                let j = choose|j: int| 0 <= j < dl.len() && prefix[i] == dl[j];
                assert(cur[i] == src[j]);
            }
            assert forall|id: WinId| #[trigger]
                wins_have(cur, id) <==> (exists|j: int|
                    0 <= j < src.len() && src[j].win_id == id && src[j].window_layer == 0
                        && apps_have(apps, src[j].owner_pid)) by {
                if wins_have(cur, id) {
                    let j = choose|j: int|
                        0 <= j < dl.len() && dl[j].win_id == id && dl[j].window_layer == 0
                            && apps_have(apps, dl[j].owner_pid);
                    assert(src[j].win_id == id && src[j].window_layer == 0 && apps_have(
                        apps,
                        src[j].owner_pid,
                    ));
                }
                if exists|j: int|
                    0 <= j < src.len() && src[j].win_id == id && src[j].window_layer == 0
                        && apps_have(apps, src[j].owner_pid) {
                    let j = choose|j: int|
                        0 <= j < src.len() && src[j].win_id == id && src[j].window_layer == 0
                            && apps_have(apps, src[j].owner_pid);
                    if j < dl.len() {
                        assert(dl[j].win_id == id && dl[j].window_layer == 0 && apps_have(
                            apps,
                            dl[j].owner_pid,
                        ));
                    } else {
                        assert(src[j] == w);
                    }
                }
            }
        }
    }
}

/// The reconciled application map is a valid map again: unique pids,
/// and a pid is tracked afterwards exactly when the OS reports it as a
/// regular process and it either was tracked already or was freshly
/// constructible.
pub proof fn lemma_refreshed_apps_props(apps: Seq<OsxApp>, rs: Seq<RunningApp>)
    requires
        apps_distinct(apps),
        running_distinct(rs),
    ensures
        apps_distinct(refreshed_apps(apps, rs)),
        forall|pid: Pid| #[trigger]
            apps_have(refreshed_apps(apps, rs), pid) <==> ((apps_have(apps, pid) && running_has(
                rs,
                pid,
            )) || (!apps_have(apps, pid) && exists|i: int|
                0 <= i < rs.len() && rs[i].pid == pid && rs[i].policy == 0
                    && rs[i].ax_observers_ok)),
{
    lemma_kept_apps_props(apps, rs);
    lemma_added_apps_props(apps, rs);
    lemma_apps_have_concat(kept_apps(apps, rs), added_apps(apps, rs));
    let kept = kept_apps(apps, rs);
    let added = added_apps(apps, rs);
    let all = refreshed_apps(apps, rs);
    assert forall|i: int, j: int| 0 <= i < j < all.len() implies all[i].pid != all[j].pid by {
        if i < kept.len() && j >= kept.len() {
            assert(all[i] == kept[i]);
            assert(all[j] == added[j - kept.len()]);
            // a kept pid was tracked; an added pid was not
            assert(apps_have(kept, all[i].pid)) by {
                assert(kept[i].pid == all[i].pid);
            }
        } else if i >= kept.len() {
            assert(all[i] == added[i - kept.len()]);
            assert(all[j] == added[j - kept.len()]);
        } else {
            assert(all[i] == kept[i]);
            assert(all[j] == kept[j]);
        }
    }
}

impl OsxConn {
    /// Reconcile the maps against a fresh OS observation: `running` is
    /// the OS's running-application enumeration (with the observer
    /// outcomes the driver recorded while constructing candidates) and
    /// `on_screen` the records built from the current on-screen window
    /// list.
    ///
    /// Tracked applications whose pid is no longer reported as a
    /// regular process are dropped; entries for newly reported regular
    /// processes are constructed (skipping those whose observers
    /// failed to attach); existing entries stay in place. The window
    /// map is rebuilt from the on-screen list, keeping exactly the
    /// standard-layer windows whose owner is tracked afterwards.
    pub fn update_known_apps_and_windows(
        &mut self,
        running: &Vec<RunningApp>,
        on_screen: &Vec<OsxWindow>,
    )
        requires
            old(self).wf(),
            running_distinct(running@),
            wins_distinct(on_screen@),
        ensures
            final(self).apps@ == refreshed_apps(old(self).apps@, running@),
            final(self).windows@ == refreshed_windows(on_screen@, final(self).apps@),
            final(self).hide_pt == old(self).hide_pt,
            final(self).wf(),
    {
        // keep the still-running applications, in place and in order
        let mut new_apps: Vec<OsxApp> = Vec::new();
        let mut i: usize = 0;
        proof {
            assert(self.apps@.take(0) =~= Seq::<OsxApp>::empty());
        }
        while i < self.apps.len()
            invariant
                i <= self.apps@.len(),
                new_apps@ == kept_apps(self.apps@.take(i as int), running@),
            decreases self.apps@.len() - i,
        {
            proof {
                assert(self.apps@.take(i + 1 as int).drop_last() =~= self.apps@.take(i as int));
                assert(self.apps@.take(i + 1 as int).last() == self.apps@[i as int]);
            }
            if running_contains(running, self.apps[i].pid) {
                let a = self.apps[i].duplicate();
                new_apps.push(a);
            }
            i = i + 1;
        }
        proof {
            assert(self.apps@.take(self.apps@.len() as int) =~= self.apps@);
            assert(new_apps@ + added_apps(self.apps@, running@.take(0)) =~= new_apps@);
            assert(running@.take(0) =~= Seq::<RunningApp>::empty());
        }
        // construct entries for the newly reported regular processes
        let mut j: usize = 0;
        while j < running.len()
            invariant
                j <= running@.len(),
                new_apps@ == kept_apps(self.apps@, running@) + added_apps(
                    self.apps@,
                    running@.take(j as int),
                ),
            decreases running@.len() - j,
        {
            proof {
                assert(running@.take(j + 1 as int).drop_last() =~= running@.take(j as int));
                assert(running@.take(j + 1 as int).last() == running@[j as int]);
            }
            let r = &running[j];
            if r.policy == 0 && !self.contains_app(r.pid) {
                match OsxApp::try_new(r) {
                    Ok(a) => {
                        proof {
                            assert((kept_apps(self.apps@, running@) + added_apps(
                                self.apps@,
                                running@.take(j as int),
                            )).push(a) =~= kept_apps(self.apps@, running@) + added_apps(
                                self.apps@,
                                running@.take(j as int),
                            ).push(a));
                        }
                        new_apps.push(a);
                    },
                    Err(_) => {},
                }
            }
            j = j + 1;
        }
        proof {
            assert(running@.take(running@.len() as int) =~= running@);
        }
        self.apps = new_apps;
        // rebuild the window map from the on-screen list
        let mut new_wins: Vec<OsxWindow> = Vec::new();
        let mut k: usize = 0;
        proof {
            assert(on_screen@.take(0) =~= Seq::<OsxWindow>::empty());
        }
        while k < on_screen.len()
            invariant
                k <= on_screen@.len(),
                new_wins@ == refreshed_windows(on_screen@.take(k as int), self.apps@),
            decreases on_screen@.len() - k,
        {
            proof {
                assert(on_screen@.take(k + 1 as int).drop_last() =~= on_screen@.take(k as int));
                assert(on_screen@.take(k + 1 as int).last() == on_screen@[k as int]);
            }
            let w = &on_screen[k];
            if w.window_layer == 0 && self.contains_app(w.owner_pid) {
                let dup = w.duplicate();
                new_wins.push(dup);
            }
            k = k + 1;
        }
        proof {
            assert(on_screen@.take(on_screen@.len() as int) =~= on_screen@);
        }
        self.windows = new_wins;
        proof {
            lemma_refreshed_apps_props(old(self).apps@, running@);
            lemma_refreshed_windows_props(on_screen@, self.apps@);
            lemma_refreshed_windows_owned(on_screen@, self.apps@);
            assert(self.apps@ == refreshed_apps(old(self).apps@, running@));
            assert(self.windows@ == refreshed_windows(on_screen@, self.apps@));
            assert(apps_distinct(self.apps@));
            assert(wins_distinct(self.windows@));
            assert(forall|i: int|
                0 <= i < self.windows@.len() ==> apps_have(
                    self.apps@,
                    #[trigger] self.windows@[i].owner_pid,
                ));
            assert forall|i: int|
                0 <= i < self.windows@.len() implies #[trigger] self.windows@[i].window_layer
                == 0 by {
                assert(apps_have(
                    self.apps@,
                    refreshed_windows(on_screen@, self.apps@)[i].owner_pid,
                ));
            }
        }
    }
}

/// Keeping is the identity when every tracked pid is still reported.
proof fn lemma_kept_apps_all(apps: Seq<OsxApp>, rs: Seq<RunningApp>)
    requires
        forall|i: int| 0 <= i < apps.len() ==> running_has(rs, #[trigger] apps[i].pid),
    ensures
        kept_apps(apps, rs) == apps,
    decreases apps.len(),
{
    if apps.len() == 0 {
        assert(kept_apps(apps, rs) =~= apps);
    } else {
        let dl = apps.drop_last();
        assert(forall|i: int| 0 <= i < dl.len() ==> running_has(rs, #[trigger] dl[i].pid));
        lemma_kept_apps_all(dl, rs);
        assert(running_has(rs, apps[apps.len() - 1].pid));
        assert(kept_apps(apps, rs) =~= apps);
    }
}

/// Nothing is added when every constructible regular process is
/// already tracked.
proof fn lemma_added_apps_none(apps: Seq<OsxApp>, rs: Seq<RunningApp>)
    requires
        forall|i: int|
            0 <= i < rs.len() ==> ((rs[i].policy == 0 && rs[i].ax_observers_ok) ==> apps_have(
                apps,
                #[trigger] rs[i].pid,
            )),
    ensures
        added_apps(apps, rs) == Seq::<OsxApp>::empty(),
    decreases rs.len(),
{
    if rs.len() == 0 {
        assert(added_apps(apps, rs) =~= Seq::<OsxApp>::empty());
    } else {
        let dl = rs.drop_last();
        assert(forall|i: int|
            0 <= i < dl.len() ==> ((dl[i].policy == 0 && dl[i].ax_observers_ok) ==> apps_have(
                apps,
                #[trigger] dl[i].pid,
            )));
        lemma_added_apps_none(apps, dl);
        assert(rs[rs.len() - 1] == rs.last());
    }
}

/// A refresh is idempotent while the OS is quiescent: reconciling a
/// second time against the same observation changes neither map.
pub proof fn lemma_refresh_idempotent(apps: Seq<OsxApp>, rs: Seq<RunningApp>, src: Seq<OsxWindow>)
    requires
        apps_distinct(apps),
        running_distinct(rs),
    ensures
        refreshed_apps(refreshed_apps(apps, rs), rs) == refreshed_apps(apps, rs),
        refreshed_windows(src, refreshed_apps(refreshed_apps(apps, rs), rs)) == refreshed_windows(
            src,
            refreshed_apps(apps, rs),
        ),
{
    let kept = kept_apps(apps, rs);
    let added = added_apps(apps, rs);
    let a1 = refreshed_apps(apps, rs);
    lemma_kept_apps_props(apps, rs);
    lemma_added_apps_props(apps, rs);
    lemma_apps_have_concat(kept, added);
    // every reconciled entry is still reported running
    assert forall|i: int| 0 <= i < a1.len() implies running_has(rs, #[trigger] a1[i].pid) by {
        if i < kept.len() {
            assert(a1[i] == kept[i]);
            assert(apps_have(kept, kept[i].pid));
        } else {
            assert(a1[i] == added[i - kept.len()]);
        }
    }
    lemma_kept_apps_all(a1, rs);
    // every constructible regular process is already reconciled
    assert forall|i: int|
        0 <= i < rs.len() implies ((rs[i].policy == 0 && rs[i].ax_observers_ok) ==> apps_have(
        a1,
        #[trigger] rs[i].pid,
    )) by {
        if rs[i].policy == 0 && rs[i].ax_observers_ok {
            let pid = rs[i].pid;
            if apps_have(apps, pid) {
                assert(running_has(rs, pid));
                assert(apps_have(kept, pid));
            } else {
                assert(apps_have(added, pid));
            }
        }
    }
    lemma_added_apps_none(a1, rs);
    assert(refreshed_apps(a1, rs) =~= a1);
}

/// The application map without one pid, order kept.
pub open spec fn apps_sans_pid(apps: Seq<OsxApp>, pid: Pid) -> Seq<OsxApp>
    decreases apps.len(),
{
    if apps.len() == 0 {
        Seq::empty()
    } else {
        let prefix = apps_sans_pid(apps.drop_last(), pid);
        if apps.last().pid != pid {
            prefix.push(apps.last())
        } else {
            prefix
        }
    }
}

/// The window map without the windows one pid owns, order kept.
pub open spec fn wins_sans_pid(ws: Seq<OsxWindow>, pid: Pid) -> Seq<OsxWindow>
    decreases ws.len(),
{
    if ws.len() == 0 {
        Seq::empty()
    } else {
        let prefix = wins_sans_pid(ws.drop_last(), pid);
        if ws.last().owner_pid != pid {
            prefix.push(ws.last())
        } else {
            prefix
        }
    }
}

/// The numbers of the windows one pid owns, in map order; these are
/// what the engine must unmanage when the pid terminates.
pub open spec fn ids_of_pid(ws: Seq<OsxWindow>, pid: Pid) -> Seq<WinId>
    decreases ws.len(),
{
    if ws.len() == 0 {
        Seq::empty()
    } else {
        let prefix = ids_of_pid(ws.drop_last(), pid);
        if ws.last().owner_pid == pid {
            prefix.push(ws.last().win_id)
        } else {
            prefix
        }
    }
}

/// The window map without one window number, order kept.
pub open spec fn wins_sans_id(ws: Seq<OsxWindow>, id: WinId) -> Seq<OsxWindow>
    decreases ws.len(),
{
    if ws.len() == 0 {
        Seq::empty()
    } else {
        let prefix = wins_sans_id(ws.drop_last(), id);
        if ws.last().win_id != id {
            prefix.push(ws.last())
        } else {
            prefix
        }
    }
}

/// Removing a pid removes exactly that key and nothing else.
pub proof fn lemma_apps_sans_pid_props(apps: Seq<OsxApp>, pid: Pid)
    ensures
        forall|p: Pid| #[trigger]
            apps_have(apps_sans_pid(apps, pid), p) <==> (apps_have(apps, p) && p != pid),
        forall|i: int|
            0 <= i < apps_sans_pid(apps, pid).len() ==> exists|j: int|
                0 <= j < apps.len() && #[trigger] apps_sans_pid(apps, pid)[i] == apps[j],
        apps_distinct(apps) ==> apps_distinct(apps_sans_pid(apps, pid)),
    decreases apps.len(),
{
    if apps.len() == 0 {
    } else {
        let dl = apps.drop_last();
        let last = apps.last();
        lemma_apps_sans_pid_props(dl, pid);
        assert(apps =~= dl.push(last));
        lemma_apps_have_push(dl, last);
        let prefix = apps_sans_pid(dl, pid);
        let cur = apps_sans_pid(apps, pid);
        if last.pid != pid {
            lemma_apps_have_push(prefix, last);
            assert(cur == prefix.push(last));
            assert forall|i: int| 0 <= i < cur.len() implies exists|j: int|
                0 <= j < apps.len() && #[trigger] cur[i] == apps[j] by {
                if i < prefix.len() {
                    let j = choose|j: int| 0 <= j < dl.len() && prefix[i] == dl[j];
                    assert(cur[i] == apps[j]);
                } else {
                    assert(cur[i] == apps[apps.len() - 1]);
                }
            }
            if apps_distinct(apps) {
                assert(apps_distinct(dl));
                assert forall|i: int, j: int| 0 <= i < j < cur.len() implies cur[i].pid
                    != cur[j].pid by {
                    if j >= prefix.len() {
                        let k = choose|k: int| 0 <= k < dl.len() && prefix[i] == dl[k];
                        assert(apps[k].pid == cur[i].pid);
                        assert(apps[apps.len() - 1].pid == last.pid);
                    }
                }
            }
        } else {
            assert(cur == prefix);
            assert forall|i: int| 0 <= i < cur.len() implies exists|j: int|
                0 <= j < apps.len() && #[trigger] cur[i] == apps[j] by {
                let j = choose|j: int| 0 <= j < dl.len() && prefix[i] == dl[j];
                assert(cur[i] == apps[j]);
            }
        }
    }
}

/// Removing a pid's windows removes exactly the windows it owned; the
/// survivors keep their order, keys stay unique, and the removed
/// numbers are exactly `ids_of_pid`.
pub proof fn lemma_wins_sans_pid_props(ws: Seq<OsxWindow>, pid: Pid)
    ensures
        forall|i: int|
            0 <= i < wins_sans_pid(ws, pid).len() ==> (exists|j: int|
                0 <= j < ws.len() && #[trigger] wins_sans_pid(ws, pid)[i] == ws[j])
                && wins_sans_pid(ws, pid)[i].owner_pid != pid,
        forall|id: WinId| #[trigger]
            wins_have(wins_sans_pid(ws, pid), id) <==> (exists|j: int|
                0 <= j < ws.len() && ws[j].win_id == id && ws[j].owner_pid != pid),
        wins_distinct(ws) ==> wins_distinct(wins_sans_pid(ws, pid)),
    decreases ws.len(),
{
    if ws.len() == 0 {
    } else {
        let dl = ws.drop_last();
        let last = ws.last();
        lemma_wins_sans_pid_props(dl, pid);
        assert(ws =~= dl.push(last));
        let prefix = wins_sans_pid(dl, pid);
        let cur = wins_sans_pid(ws, pid);
        assert(ws[ws.len() - 1] == last);
        if last.owner_pid != pid {
            assert(cur == prefix.push(last));
            assert forall|i: int| 0 <= i < cur.len() implies (exists|j: int|
                0 <= j < ws.len() && #[trigger] cur[i] == ws[j]) && cur[i].owner_pid != pid by {
                if i < prefix.len() {
                    let j = choose|j: int| 0 <= j < dl.len() && prefix[i] == dl[j];
                    assert(cur[i] == ws[j]);
                } else {
                    assert(cur[i] == ws[ws.len() - 1]);
                }
            }
            if wins_distinct(ws) {
                assert(wins_distinct(dl));
                assert forall|i: int, j: int| 0 <= i < j < cur.len() implies cur[i].win_id
                    != cur[j].win_id && cur[i].axwin != cur[j].axwin by {
                    if j >= prefix.len() {
                        let k = choose|k: int| 0 <= k < dl.len() && prefix[i] == dl[k];
                        assert(ws[k] == cur[i]);
                    }
                }
            }
            assert forall|id: WinId| #[trigger]
                wins_have(cur, id) <==> (exists|j: int|
                    0 <= j < ws.len() && ws[j].win_id == id && ws[j].owner_pid != pid) by {
                if wins_have(cur, id) {
                    let i = choose|i: int| 0 <= i < cur.len() && cur[i].win_id == id;
                    if i < prefix.len() {
                        assert(wins_have(prefix, id));
                        let j = choose|j: int|
                            0 <= j < dl.len() && dl[j].win_id == id && dl[j].owner_pid != pid;
                        assert(ws[j].win_id == id && ws[j].owner_pid != pid);
                    } else {
                        assert(ws[ws.len() - 1].win_id == id);
                    }
                }
                if exists|j: int| 0 <= j < ws.len() && ws[j].win_id == id && ws[j].owner_pid
                    != pid {
                    let j = choose|j: int|
                        0 <= j < ws.len() && ws[j].win_id == id && ws[j].owner_pid != pid;
                    if j < dl.len() {
                        assert(dl[j].win_id == id && dl[j].owner_pid != pid);
                        assert(wins_have(prefix, id));
                        let i = choose|i: int| 0 <= i < prefix.len() && prefix[i].win_id == id;
                        assert(cur[i].win_id == id);
                    } else {
                        assert(cur[cur.len() - 1].win_id == id);
                    }
                }
            }
        } else {
            assert(cur == prefix);
            assert forall|i: int| 0 <= i < cur.len() implies (exists|j: int|
                0 <= j < ws.len() && #[trigger] cur[i] == ws[j]) && cur[i].owner_pid != pid by {
                let j = choose|j: int| 0 <= j < dl.len() && prefix[i] == dl[j];
                assert(cur[i] == ws[j]);
            }
            assert forall|id: WinId| #[trigger]
                wins_have(cur, id) <==> (exists|j: int|
                    0 <= j < ws.len() && ws[j].win_id == id && ws[j].owner_pid != pid) by {
                if wins_have(cur, id) {
                    let j = choose|j: int|
                        0 <= j < dl.len() && dl[j].win_id == id && dl[j].owner_pid != pid;
                    assert(ws[j].win_id == id && ws[j].owner_pid != pid);
                }
                if exists|j: int| 0 <= j < ws.len() && ws[j].win_id == id && ws[j].owner_pid
                    != pid {
                    let j = choose|j: int|
                        0 <= j < ws.len() && ws[j].win_id == id && ws[j].owner_pid != pid;
                    assert(j < dl.len());
                    assert(dl[j].win_id == id && dl[j].owner_pid != pid);
                }
            }
        }
    }
}

/// Removing one window number removes exactly that window.
pub proof fn lemma_wins_sans_id_props(ws: Seq<OsxWindow>, id: WinId)
    ensures
        forall|i: int|
            0 <= i < wins_sans_id(ws, id).len() ==> (exists|j: int|
                0 <= j < ws.len() && #[trigger] wins_sans_id(ws, id)[i] == ws[j])
                && wins_sans_id(ws, id)[i].win_id != id,
        forall|w: WinId| #[trigger]
            wins_have(wins_sans_id(ws, id), w) <==> (exists|j: int|
                0 <= j < ws.len() && ws[j].win_id == w && w != id),
        wins_distinct(ws) ==> wins_distinct(wins_sans_id(ws, id)),
    decreases ws.len(),
{
    if ws.len() == 0 {
    } else {
        let dl = ws.drop_last();
        let last = ws.last();
        lemma_wins_sans_id_props(dl, id);
        assert(ws =~= dl.push(last));
        let prefix = wins_sans_id(dl, id);
        let cur = wins_sans_id(ws, id);
        assert(ws[ws.len() - 1] == last);
        if last.win_id != id {
            assert(cur == prefix.push(last));
            assert forall|i: int| 0 <= i < cur.len() implies (exists|j: int|
                0 <= j < ws.len() && #[trigger] cur[i] == ws[j]) && cur[i].win_id != id by {
                if i < prefix.len() {
                    let j = choose|j: int| 0 <= j < dl.len() && prefix[i] == dl[j];
                    assert(cur[i] == ws[j]);
                } else {
                    assert(cur[i] == ws[ws.len() - 1]);
                }
            }
            if wins_distinct(ws) {
                assert(wins_distinct(dl));
                assert forall|i: int, j: int| 0 <= i < j < cur.len() implies cur[i].win_id
                    != cur[j].win_id && cur[i].axwin != cur[j].axwin by {
                    if j >= prefix.len() {
                        let k = choose|k: int| 0 <= k < dl.len() && prefix[i] == dl[k];
                        assert(ws[k] == cur[i]);
                    }
                }
            }
            assert forall|w: WinId| #[trigger]
                wins_have(cur, w) <==> (exists|j: int|
                    0 <= j < ws.len() && ws[j].win_id == w && w != id) by {
                if wins_have(cur, w) {
                    let i = choose|i: int| 0 <= i < cur.len() && cur[i].win_id == w;
                    if i < prefix.len() {
                        assert(wins_have(prefix, w));
                        let j = choose|j: int| 0 <= j < dl.len() && dl[j].win_id == w && w != id;
                        assert(ws[j].win_id == w);
                    } else {
                        assert(ws[ws.len() - 1].win_id == w);
                    }
                }
                if exists|j: int| 0 <= j < ws.len() && ws[j].win_id == w && w != id {
                    let j = choose|j: int| 0 <= j < ws.len() && ws[j].win_id == w && w != id;
                    if j < dl.len() {
                        assert(dl[j].win_id == w && w != id);
                        assert(wins_have(prefix, w));
                        let i = choose|i: int| 0 <= i < prefix.len() && prefix[i].win_id == w;
                        assert(cur[i].win_id == w);
                    } else {
                        assert(cur[cur.len() - 1].win_id == w);
                    }
                }
            }
        } else {
            assert(cur == prefix);
            assert forall|i: int| 0 <= i < cur.len() implies (exists|j: int|
                0 <= j < ws.len() && #[trigger] cur[i] == ws[j]) && cur[i].win_id != id by {
                let j = choose|j: int| 0 <= j < dl.len() && prefix[i] == dl[j];
                assert(cur[i] == ws[j]);
            }
            assert forall|w: WinId| #[trigger]
                wins_have(cur, w) <==> (exists|j: int|
                    0 <= j < ws.len() && ws[j].win_id == w && w != id) by {
                if wins_have(cur, w) {
                    let j = choose|j: int| 0 <= j < dl.len() && dl[j].win_id == w && w != id;
                    assert(ws[j].win_id == w);
                }
                if exists|j: int| 0 <= j < ws.len() && ws[j].win_id == w && w != id {
                    let j = choose|j: int| 0 <= j < ws.len() && ws[j].win_id == w && w != id;
                    assert(j < dl.len());
                    assert(dl[j].win_id == w && w != id);
                }
            }
        }
    }
}

/// Under unique keys, the window found at an index is the window the
/// map associates with its number.
pub proof fn lemma_win_at_unique(ws: Seq<OsxWindow>, i: int)
    requires
        wins_distinct(ws),
        0 <= i < ws.len(),
    ensures
        wins_have(ws, ws[i].win_id),
        win_at(ws, ws[i].win_id) == ws[i],
{
    assert(wins_have(ws, ws[i].win_id));
    let j = win_index(ws, ws[i].win_id);
    if i != j {
        if i < j {
            assert(ws[i].win_id != ws[j].win_id);
        } else {
            assert(ws[j].win_id != ws[i].win_id);
        }
    }
}

impl OsxConn {
    /// Handle the termination of a pid: drop its application entry and
    /// every window it owned. The returned numbers, in map order, are
    /// the clients the engine must unmanage.
    pub fn clear_terminated_app_state(&mut self, pid: Pid) -> (unmanage: Vec<WinId>)
        requires
            old(self).wf(),
        ensures
            final(self).apps@ == apps_sans_pid(old(self).apps@, pid),
            final(self).windows@ == wins_sans_pid(old(self).windows@, pid),
            unmanage@ == ids_of_pid(old(self).windows@, pid),
            final(self).hide_pt == old(self).hide_pt,
            final(self).wf(),
    {
        let mut new_apps: Vec<OsxApp> = Vec::new();
        let mut i: usize = 0;
        proof {
            assert(self.apps@.take(0) =~= Seq::<OsxApp>::empty());
        }
        while i < self.apps.len()
            invariant
                i <= self.apps@.len(),
                new_apps@ == apps_sans_pid(self.apps@.take(i as int), pid),
            decreases self.apps@.len() - i,
        {
            proof {
                assert(self.apps@.take(i + 1 as int).drop_last() =~= self.apps@.take(i as int));
                assert(self.apps@.take(i + 1 as int).last() == self.apps@[i as int]);
            }
            if self.apps[i].pid != pid {
                let a = self.apps[i].duplicate();
                new_apps.push(a);
            }
            i = i + 1;
        }
        let mut new_wins: Vec<OsxWindow> = Vec::new();
        let mut unmanage: Vec<WinId> = Vec::new();
        let mut k: usize = 0;
        proof {
            assert(self.apps@.take(self.apps@.len() as int) =~= self.apps@);
            assert(self.windows@.take(0) =~= Seq::<OsxWindow>::empty());
        }
        while k < self.windows.len()
            invariant
                k <= self.windows@.len(),
                new_wins@ == wins_sans_pid(self.windows@.take(k as int), pid),
                unmanage@ == ids_of_pid(self.windows@.take(k as int), pid),
            decreases self.windows@.len() - k,
        {
            proof {
                assert(self.windows@.take(k + 1 as int).drop_last() =~= self.windows@.take(
                    k as int,
                ));
                assert(self.windows@.take(k + 1 as int).last() == self.windows@[k as int]);
            }
            if self.windows[k].owner_pid != pid {
                let w = self.windows[k].duplicate();
                new_wins.push(w);
            } else {
                let id = self.windows[k].win_id;
                unmanage.push(id);
            }
            k = k + 1;
        }
        proof {
            assert(self.windows@.take(self.windows@.len() as int) =~= self.windows@);
        }
        self.apps = new_apps;
        self.windows = new_wins;
        proof {
            lemma_apps_sans_pid_props(old(self).apps@, pid);
            lemma_wins_sans_pid_props(old(self).windows@, pid);
            assert forall|i2: int| 0 <= i2 < self.windows@.len() implies apps_have(
                self.apps@,
                #[trigger] self.windows@[i2].owner_pid,
            ) by {
                let j = choose|j: int|
                    0 <= j < old(self).windows@.len() && self.windows@[i2] == old(
                        self,
                    ).windows@[j];
                assert(apps_have(old(self).apps@, old(self).windows@[j].owner_pid));
            }
            assert forall|i2: int|
                0 <= i2 < self.windows@.len() implies #[trigger] self.windows@[i2].window_layer
                == 0 by {
                let j = choose|j: int|
                    0 <= j < old(self).windows@.len() && self.windows@[i2] == old(
                        self,
                    ).windows@[j];
            }
        }
        unmanage
    }

    /// Handle the destruction of a window's accessibility element:
    /// drop its record. The engine must then unmanage the number.
    pub fn clear_closed_window_state(&mut self, id: WinId)
        requires
            old(self).wf(),
        ensures
            final(self).apps@ == old(self).apps@,
            final(self).windows@ == wins_sans_id(old(self).windows@, id),
            final(self).hide_pt == old(self).hide_pt,
            final(self).wf(),
    {
        let mut new_wins: Vec<OsxWindow> = Vec::new();
        let mut k: usize = 0;
        proof {
            assert(self.windows@.take(0) =~= Seq::<OsxWindow>::empty());
        }
        while k < self.windows.len()
            invariant
                k <= self.windows@.len(),
                new_wins@ == wins_sans_id(self.windows@.take(k as int), id),
            decreases self.windows@.len() - k,
        {
            proof {
                assert(self.windows@.take(k + 1 as int).drop_last() =~= self.windows@.take(
                    k as int,
                ));
                assert(self.windows@.take(k + 1 as int).last() == self.windows@[k as int]);
            }
            if self.windows[k].win_id != id {
                let w = self.windows[k].duplicate();
                new_wins.push(w);
            }
            k = k + 1;
        }
        proof {
            assert(self.windows@.take(self.windows@.len() as int) =~= self.windows@);
        }
        self.windows = new_wins;
        proof {
            lemma_wins_sans_id_props(old(self).windows@, id);
            assert forall|i2: int| 0 <= i2 < self.windows@.len() implies apps_have(
                self.apps@,
                #[trigger] self.windows@[i2].owner_pid,
            ) by {
                let j = choose|j: int|
                    0 <= j < old(self).windows@.len() && self.windows@[i2] == old(
                        self,
                    ).windows@[j];
                assert(apps_have(old(self).apps@, old(self).windows@[j].owner_pid));
            }
            assert forall|i2: int|
                0 <= i2 < self.windows@.len() implies #[trigger] self.windows@[i2].window_layer
                == 0 by {
                let j = choose|j: int|
                    0 <= j < old(self).windows@.len() && self.windows@[i2] == old(
                        self,
                    ).windows@[j];
            }
        }
    }

    /// The number of the tracked window whose accessibility element
    /// this is, if any (a linear scan; the map is small).
    pub fn win_id_for_axwin(&self, axwin: u64) -> (r: Option<WinId>)
        ensures
            match r {
                Some(id) => exists|i: int|
                    0 <= i < self.windows@.len() && self.windows@[i].axwin == axwin
                        && self.windows@[i].win_id == id,
                None => forall|i: int|
                    0 <= i < self.windows@.len() ==> #[trigger] self.windows@[i].axwin != axwin,
            },
    {
        let mut i: usize = 0;
        while i < self.windows.len()
            invariant
                i <= self.windows@.len(),
                forall|k: int| 0 <= k < i ==> #[trigger] self.windows@[k].axwin != axwin,
            decreases self.windows@.len() - i,
        {
            if self.windows[i].axwin == axwin {
                return Some(self.windows[i].win_id);
            }
            i = i + 1;
        }
        None
    }
}

/// The window numbers of a map, in map order.
pub open spec fn ids_of(ws: Seq<OsxWindow>) -> Seq<WinId> {
    ws.map_values(|w: OsxWindow| w.win_id)
}

/// Whether a list of window numbers contains one.
pub open spec fn ids_have(ids: Seq<WinId>, id: WinId) -> bool {
    exists|i: int| 0 <= i < ids.len() && ids[i] == id
}

/// The tracked window numbers that are not yet in the engine's client
/// set, in map order.
pub open spec fn ids_not_managed(ws: Seq<OsxWindow>, managed: Seq<WinId>) -> Seq<WinId>
    decreases ws.len(),
{
    if ws.len() == 0 {
        Seq::empty()
    } else {
        let prefix = ids_not_managed(ws.drop_last(), managed);
        if !ids_have(managed, ws.last().win_id) {
            prefix.push(ws.last().win_id)
        } else {
            prefix
        }
    }
}

/// The numbers of the windows a pid owns that were not tracked before
/// the refresh, in map order: the windows a `WindowCreated`
/// notification introduced.
pub open spec fn spec_new_windows_for_pid(
    ws: Seq<OsxWindow>,
    prev: Seq<OsxWindow>,
    pid: Pid,
) -> Seq<WinId>
    decreases ws.len(),
{
    if ws.len() == 0 {
        Seq::empty()
    } else {
        let prefix = spec_new_windows_for_pid(ws.drop_last(), prev, pid);
        let w = ws.last();
        if w.owner_pid == pid && !wins_have(prev, w.win_id) {
            prefix.push(w.win_id)
        } else {
            prefix
        }
    }
}

/// Whether a list of window numbers contains one.
pub fn ids_contain(ids: &Vec<WinId>, id: WinId) -> (b: bool)
    ensures
        b == ids_have(ids@, id),
{
    let mut i: usize = 0;
    while i < ids.len()
        invariant
            i <= ids@.len(),
            forall|k: int| 0 <= k < i ==> ids@[k] != id,
        decreases ids@.len() - i,
    {
        if ids[i] == id {
            return true;
        }
        i = i + 1;
    }
    false
}

impl OsxConn {
    /// The index of the window with this number, if it is tracked.
    fn index_of_window(&self, id: WinId) -> (r: Option<usize>)
        ensures
            match r {
                Some(i) => i < self.windows@.len() && self.windows@[i as int].win_id == id,
                None => !wins_have(self.windows@, id),
            },
    {
        let mut i: usize = 0;
        while i < self.windows.len()
            invariant
                i <= self.windows@.len(),
                forall|k: int| 0 <= k < i ==> self.windows@[k].win_id != id,
            decreases self.windows@.len() - i,
        {
            if self.windows[i].win_id == id {
                return Some(i);
            }
            i = i + 1;
        }
        None
    }

    /// The lookup-retry policy shared by every command: a miss
    /// triggers one refresh against the given observation before the
    /// command gives up. A hit leaves the connection untouched.
    pub fn win_prop_lookup(
        &mut self,
        id: WinId,
        running: &Vec<RunningApp>,
        on_screen: &Vec<OsxWindow>,
    ) -> (found: bool)
        requires
            old(self).wf(),
            running_distinct(running@),
            wins_distinct(on_screen@),
        ensures
            final(self).wf(),
            final(self).hide_pt == old(self).hide_pt,
            wins_have(old(self).windows@, id) ==> *final(self) == *old(self),
            !wins_have(old(self).windows@, id) ==> final(self).apps@ == refreshed_apps(
                old(self).apps@,
                running@,
            ) && final(self).windows@ == refreshed_windows(on_screen@, final(self).apps@),
            found == wins_have(final(self).windows@, id),
    {
        if !self.contains_window(id) {
            self.update_known_apps_and_windows(running, on_screen);
        }
        self.contains_window(id)
    }

    /// The window's cached bounds: the last commanded geometry, or the
    /// geometry observed at discovery (retries once after a refresh
    /// before yielding `UnknownClient`).
    pub fn client_geometry(
        &mut self,
        id: WinId,
        running: &Vec<RunningApp>,
        on_screen: &Vec<OsxWindow>,
    ) -> (r: Result<Rect, WmError>)
        requires
            old(self).wf(),
            running_distinct(running@),
            wins_distinct(on_screen@),
        ensures
            final(self).wf(),
            final(self).hide_pt == old(self).hide_pt,
            wins_have(old(self).windows@, id) ==> *final(self) == *old(self),
            !wins_have(old(self).windows@, id) ==> final(self).apps@ == refreshed_apps(
                old(self).apps@,
                running@,
            ) && final(self).windows@ == refreshed_windows(on_screen@, final(self).apps@),
            wins_have(final(self).windows@, id) ==> r == Ok::<Rect, WmError>(
                win_at(final(self).windows@, id).bounds,
            ),
            !wins_have(final(self).windows@, id) ==> r == Err::<Rect, WmError>(
                WmError::UnknownClient(id),
            ),
    {
        self.win_prop_lookup(id, running, on_screen);
        match self.index_of_window(id) {
            Some(i) => {
                proof {
                    lemma_win_at_unique(self.windows@, i as int);
                }
                Ok(self.windows[i].bounds)
            },
            None => Err(WmError::UnknownClient(id)),
        }
    }

    /// The window's title: its name when the display server reports
    /// one, the owning application's name otherwise (retries once
    /// after a refresh).
    pub fn client_title(
        &mut self,
        id: WinId,
        running: &Vec<RunningApp>,
        on_screen: &Vec<OsxWindow>,
    ) -> (r: Result<String, WmError>)
        requires
            old(self).wf(),
            running_distinct(running@),
            wins_distinct(on_screen@),
        ensures
            final(self).wf(),
            final(self).hide_pt == old(self).hide_pt,
            wins_have(old(self).windows@, id) ==> *final(self) == *old(self),
            !wins_have(old(self).windows@, id) ==> final(self).apps@ == refreshed_apps(
                old(self).apps@,
                running@,
            ) && final(self).windows@ == refreshed_windows(on_screen@, final(self).apps@),
            wins_have(final(self).windows@, id) ==> (r matches Ok(t) && t == (match win_at(
                final(self).windows@,
                id,
            ).window_name {
                Some(n) => n,
                None => win_at(final(self).windows@, id).owner,
            })),
            !wins_have(final(self).windows@, id) ==> r == Err::<String, WmError>(
                WmError::UnknownClient(id),
            ),
    {
        self.win_prop_lookup(id, running, on_screen);
        match self.index_of_window(id) {
            Some(i) => {
                proof {
                    lemma_win_at_unique(self.windows@, i as int);
                }
                match &self.windows[i].window_name {
                    Some(n) => Ok(n.clone()),
                    None => Ok(self.windows[i].owner.clone()),
                }
            },
            None => Err(WmError::UnknownClient(id)),
        }
    }

    /// The pid owning the window, as the engine's unsigned pid type
    /// (retries once after a refresh; a miss is `None`).
    pub fn client_pid(
        &mut self,
        id: WinId,
        running: &Vec<RunningApp>,
        on_screen: &Vec<OsxWindow>,
    ) -> (r: Option<u32>)
        requires
            old(self).wf(),
            running_distinct(running@),
            wins_distinct(on_screen@),
        ensures
            final(self).wf(),
            final(self).hide_pt == old(self).hide_pt,
            wins_have(old(self).windows@, id) ==> *final(self) == *old(self),
            !wins_have(old(self).windows@, id) ==> final(self).apps@ == refreshed_apps(
                old(self).apps@,
                running@,
            ) && final(self).windows@ == refreshed_windows(on_screen@, final(self).apps@),
            r == (if wins_have(final(self).windows@, id) {
                Some(win_at(final(self).windows@, id).owner_pid as u32)
            } else {
                Option::<u32>::None
            }),
    {
        self.win_prop_lookup(id, running, on_screen);
        match self.index_of_window(id) {
            Some(i) => {
                proof {
                    lemma_win_at_unique(self.windows@, i as int);
                }
                Some(self.windows[i].owner_pid as u32)
            },
            None => None,
        }
    }

    /// Whether the window's owning application is in the configured
    /// floating classes (a miss means no).
    pub fn client_should_float(
        &mut self,
        id: WinId,
        floating_classes: &Vec<String>,
        running: &Vec<RunningApp>,
        on_screen: &Vec<OsxWindow>,
    ) -> (b: bool)
        requires
            old(self).wf(),
            running_distinct(running@),
            wins_distinct(on_screen@),
        ensures
            final(self).wf(),
            final(self).hide_pt == old(self).hide_pt,
            wins_have(old(self).windows@, id) ==> *final(self) == *old(self),
            !wins_have(old(self).windows@, id) ==> final(self).apps@ == refreshed_apps(
                old(self).apps@,
                running@,
            ) && final(self).windows@ == refreshed_windows(on_screen@, final(self).apps@),
            b == (wins_have(final(self).windows@, id) && exists|k: int|
                0 <= k < floating_classes@.len() && floating_classes@[k]@ == win_at(
                    final(self).windows@,
                    id,
                ).owner@),
    {
        self.win_prop_lookup(id, running, on_screen);
        match self.index_of_window(id) {
            Some(i) => {
                proof {
                    lemma_win_at_unique(self.windows@, i as int);
                }
                let mut found = false;
                let mut k: usize = 0;
                while k < floating_classes.len()
                    invariant
                        k <= floating_classes@.len(),
                        i < self.windows@.len(),
                        found == exists|m: int|
                            0 <= m < k && floating_classes@[m]@ == self.windows@[i as int].owner@,
                    decreases floating_classes@.len() - k,
                {
                    if floating_classes[k] == self.windows[i].owner {
                        found = true;
                    }
                    k = k + 1;
                }
                found
            },
            None => false,
        }
    }

    /// Whether the window should be tiled: true exactly for tracked
    /// standard-layer windows (a miss means no).
    pub fn client_should_be_managed(
        &mut self,
        id: WinId,
        running: &Vec<RunningApp>,
        on_screen: &Vec<OsxWindow>,
    ) -> (b: bool)
        requires
            old(self).wf(),
            running_distinct(running@),
            wins_distinct(on_screen@),
        ensures
            final(self).wf(),
            final(self).hide_pt == old(self).hide_pt,
            wins_have(old(self).windows@, id) ==> *final(self) == *old(self),
            !wins_have(old(self).windows@, id) ==> final(self).apps@ == refreshed_apps(
                old(self).apps@,
                running@,
            ) && final(self).windows@ == refreshed_windows(on_screen@, final(self).apps@),
            b == (wins_have(final(self).windows@, id) && win_at(
                final(self).windows@,
                id,
            ).window_layer == 0),
    {
        self.win_prop_lookup(id, running, on_screen);
        match self.index_of_window(id) {
            Some(i) => {
                proof {
                    lemma_win_at_unique(self.windows@, i as int);
                }
                self.windows[i].window_layer == 0
            },
            None => false,
        }
    }

    /// The accessibility element of the window, for commands the
    /// driver performs directly on the element (pressing the close
    /// button, reading the fullscreen attribute). Retries once after a
    /// refresh.
    pub fn window_handle(
        &mut self,
        id: WinId,
        running: &Vec<RunningApp>,
        on_screen: &Vec<OsxWindow>,
    ) -> (r: Result<u64, WmError>)
        requires
            old(self).wf(),
            running_distinct(running@),
            wins_distinct(on_screen@),
        ensures
            final(self).wf(),
            final(self).hide_pt == old(self).hide_pt,
            wins_have(old(self).windows@, id) ==> *final(self) == *old(self),
            !wins_have(old(self).windows@, id) ==> final(self).apps@ == refreshed_apps(
                old(self).apps@,
                running@,
            ) && final(self).windows@ == refreshed_windows(on_screen@, final(self).apps@),
            wins_have(final(self).windows@, id) ==> r == Ok::<u64, WmError>(
                win_at(final(self).windows@, id).axwin,
            ),
            !wins_have(final(self).windows@, id) ==> r == Err::<u64, WmError>(
                WmError::UnknownClient(id),
            ),
    {
        self.win_prop_lookup(id, running, on_screen);
        match self.index_of_window(id) {
            Some(i) => {
                proof {
                    lemma_win_at_unique(self.windows@, i as int);
                }
                Ok(self.windows[i].axwin)
            },
            None => Err(WmError::UnknownClient(id)),
        }
    }

    /// Refresh, then report the tracked window numbers.
    pub fn existing_clients(
        &mut self,
        running: &Vec<RunningApp>,
        on_screen: &Vec<OsxWindow>,
    ) -> (ids: Vec<WinId>)
        requires
            old(self).wf(),
            running_distinct(running@),
            wins_distinct(on_screen@),
        ensures
            final(self).wf(),
            final(self).hide_pt == old(self).hide_pt,
            final(self).apps@ == refreshed_apps(old(self).apps@, running@),
            final(self).windows@ == refreshed_windows(on_screen@, final(self).apps@),
            ids@ == ids_of(final(self).windows@),
    {
        self.update_known_apps_and_windows(running, on_screen);
        let mut ids: Vec<WinId> = Vec::new();
        let mut i: usize = 0;
        proof {
            assert(ids@ =~= ids_of(self.windows@.take(0)));
        }
        while i < self.windows.len()
            invariant
                i <= self.windows@.len(),
                ids@ == ids_of(self.windows@.take(i as int)),
            decreases self.windows@.len() - i,
        {
            let id = self.windows[i].win_id;
            ids.push(id);
            proof {
                assert(ids@ =~= ids_of(self.windows@.take(i + 1 as int)));
            }
            i = i + 1;
        }
        proof {
            assert(self.windows@.take(self.windows@.len() as int) =~= self.windows@);
        }
        ids
    }

    /// The tracked windows the engine does not know yet, in map order;
    /// the engine manages each before a focus change.
    pub fn manage_new_windows(&self, managed: &Vec<WinId>) -> (ids: Vec<WinId>)
        ensures
            ids@ == ids_not_managed(self.windows@, managed@),
    {
        let mut ids: Vec<WinId> = Vec::new();
        let mut i: usize = 0;
        proof {
            assert(self.windows@.take(0) =~= Seq::<OsxWindow>::empty());
        }
        while i < self.windows.len()
            invariant
                i <= self.windows@.len(),
                ids@ == ids_not_managed(self.windows@.take(i as int), managed@),
            decreases self.windows@.len() - i,
        {
            proof {
                assert(self.windows@.take(i + 1 as int).drop_last() =~= self.windows@.take(
                    i as int,
                ));
                assert(self.windows@.take(i + 1 as int).last() == self.windows@[i as int]);
            }
            if !ids_contain(managed, self.windows[i].win_id) {
                let id = self.windows[i].win_id;
                ids.push(id);
            }
            i = i + 1;
        }
        proof {
            assert(self.windows@.take(self.windows@.len() as int) =~= self.windows@);
        }
        ids
    }
}

/// The index of the application with this pid (meaningful only when
/// `apps_have` holds; unique under `apps_distinct`).
pub open spec fn app_index(apps: Seq<OsxApp>, pid: Pid) -> int {
    choose|i: int| 0 <= i < apps.len() && apps[i].pid == pid
}

/// The application with this pid.
pub open spec fn app_at(apps: Seq<OsxApp>, pid: Pid) -> OsxApp {
    apps[app_index(apps, pid)]
}

/// Under unique pids, the application found at an index is the
/// application the map associates with its pid.
pub proof fn lemma_app_at_unique(apps: Seq<OsxApp>, i: int)
    requires
        apps_distinct(apps),
        0 <= i < apps.len(),
    ensures
        apps_have(apps, apps[i].pid),
        app_at(apps, apps[i].pid) == apps[i],
{
    assert(apps_have(apps, apps[i].pid));
    let j = app_index(apps, apps[i].pid);
    if i != j {
        if i < j {
            assert(apps[i].pid != apps[j].pid);
        } else {
            assert(apps[j].pid != apps[i].pid);
        }
    }
}

impl OsxConn {
    /// The index of the application with this pid, if it is tracked.
    fn index_of_app(&self, pid: Pid) -> (r: Option<usize>)
        ensures
            match r {
                Some(i) => i < self.apps@.len() && self.apps@[i as int].pid == pid,
                None => !apps_have(self.apps@, pid),
            },
    {
        let mut i: usize = 0;
        while i < self.apps.len()
            invariant
                i <= self.apps@.len(),
                forall|k: int| 0 <= k < i ==> self.apps@[k].pid != pid,
            decreases self.apps@.len() - i,
        {
            if self.apps[i].pid == pid {
                return Some(i);
            }
            i = i + 1;
        }
        None
    }

    /// The application lookup behind focus following: retries once
    /// after a refresh before yielding `UnknownApp`. The driver reads
    /// the focused window of the returned application's element.
    pub fn app_record(
        &mut self,
        pid: Pid,
        running: &Vec<RunningApp>,
        on_screen: &Vec<OsxWindow>,
    ) -> (r: Result<OsxApp, WmError>)
        requires
            old(self).wf(),
            running_distinct(running@),
            wins_distinct(on_screen@),
        ensures
            final(self).wf(),
            final(self).hide_pt == old(self).hide_pt,
            apps_have(old(self).apps@, pid) ==> *final(self) == *old(self),
            !apps_have(old(self).apps@, pid) ==> final(self).apps@ == refreshed_apps(
                old(self).apps@,
                running@,
            ) && final(self).windows@ == refreshed_windows(on_screen@, final(self).apps@),
            apps_have(final(self).apps@, pid) ==> r == Ok::<OsxApp, WmError>(
                app_at(final(self).apps@, pid),
            ),
            !apps_have(final(self).apps@, pid) ==> r == Err::<OsxApp, WmError>(
                WmError::UnknownApp(pid),
            ),
    {
        if !self.contains_app(pid) {
            self.update_known_apps_and_windows(running, on_screen);
        }
        match self.index_of_app(pid) {
            Some(i) => {
                proof {
                    lemma_app_at_unique(self.apps@, i as int);
                }
                Ok(self.apps[i].duplicate())
            },
            None => Err(WmError::UnknownApp(pid)),
        }
    }
}

/// The fullscreen projection's defaulting: the window's fullscreen
/// attribute when the lookup found it (the driver reads the attribute
/// of the element `window_handle` returned), and false when even the
/// retried lookup missed.
pub fn client_is_fullscreen(found: bool, fullscreen_attr: bool) -> (b: bool)
    ensures
        b == (found && fullscreen_attr),
{
    found && fullscreen_attr
}

/// The enumerated client list is a set: under unique window keys the
/// reported numbers are pairwise distinct.
pub proof fn lemma_existing_clients_ids_distinct(ws: Seq<OsxWindow>)
    requires
        wins_distinct(ws),
    ensures
        forall|i: int, j: int| 0 <= i < j < ids_of(ws).len() ==> ids_of(ws)[i] != ids_of(ws)[j],
{
    assert forall|i: int, j: int| 0 <= i < j < ids_of(ws).len() implies ids_of(ws)[i] != ids_of(
        ws,
    )[j] by {
        assert(ids_of(ws)[i] == ws[i].win_id);
        assert(ids_of(ws)[j] == ws[j].win_id);
    }
}

/// Runtime check of the pid-uniqueness guarantee of the
/// running-application enumeration, for a driver that does not want
/// to take the OS's word for it.
pub fn running_distinct_check(rs: &Vec<RunningApp>) -> (b: bool)
    ensures
        b == running_distinct(rs@),
{
    let mut i: usize = 0;
    while i < rs.len()
        invariant
            i <= rs@.len(),
            forall|p: int, q: int| 0 <= p < q < rs@.len() && p < i ==> rs@[p].pid != rs@[q].pid,
        decreases rs@.len() - i,
    {
        let mut j: usize = i + 1;
        while j < rs.len()
            invariant
                i < j <= rs@.len(),
                i < rs@.len(),
                forall|q: int| i < q < j ==> rs@[i as int].pid != rs@[q].pid,
            decreases rs@.len() - j,
        {
            if rs[i].pid == rs[j].pid {
                return false;
            }
            j = j + 1;
        }
        i = i + 1;
    }
    true
}

/// Runtime check of the key-uniqueness guarantee of a window record
/// list: no two records share a window number or an element.
pub fn wins_distinct_check(ws: &Vec<OsxWindow>) -> (b: bool)
    ensures
        b == wins_distinct(ws@),
{
    let mut i: usize = 0;
    while i < ws.len()
        invariant
            i <= ws@.len(),
            forall|p: int, q: int|
                0 <= p < q < ws@.len() && p < i ==> ws@[p].win_id != ws@[q].win_id && ws@[p].axwin
                    != ws@[q].axwin,
        decreases ws@.len() - i,
    {
        let mut j: usize = i + 1;
        while j < ws.len()
            invariant
                i < j <= ws@.len(),
                i < ws@.len(),
                forall|q: int|
                    i < q < j ==> ws@[i as int].win_id != ws@[q].win_id && ws@[i as int].axwin
                        != ws@[q].axwin,
            decreases ws@.len() - j,
        {
            if ws[i].win_id == ws[j].win_id || ws[i].axwin == ws[j].axwin {
                return false;
            }
            j = j + 1;
        }
        i = i + 1;
    }
    true
}

/// Runtime check that every display rectangle is plausible: its far
/// corner fits the coordinate space and it is at least one pixel in
/// each direction.
pub fn displays_valid_check(ds: &Vec<Rect>) -> (b: bool)
    ensures
        b == (forall|i: int| 0 <= i < ds@.len() ==> valid_display(#[trigger] ds@[i])),
{
    let mut i: usize = 0;
    while i < ds.len()
        invariant
            i <= ds@.len(),
            forall|k: int| 0 <= k < i ==> valid_display(#[trigger] ds@[k]),
        decreases ds@.len() - i,
    {
        let d = ds[i];
        let in_bounds = d.x as i64 + d.w as i64 <= i32::MAX as i64 && d.y as i64 + d.h as i64
            <= i32::MAX as i64;
        if !(in_bounds && d.w >= 1 && d.h >= 1) {
            return false;
        }
        i = i + 1;
    }
    true
}

/// What the connection asks of the engine after resolving an
/// application's focused window.
#[derive(Debug)]
pub struct FocusDecision {
    /// Windows the engine must manage first, in map order.
    pub manage: Vec<WinId>,
    /// The client the engine must then focus, if any.
    pub focus: Option<WinId>,
}

impl OsxConn {
    /// Follow an application's focus: match the focused accessibility
    /// element against the tracked windows, short-circuit when the
    /// engine already focuses that client, and otherwise ask the
    /// engine to manage any unmanaged windows and focus the match.
    ///
    /// `focused_axwin` is the element the driver read from the
    /// application (or `None` when the read failed, which is skipped
    /// silently); `current_client` is the engine's focused client;
    /// `managed` the engine's client set.
    pub fn focus_active_app_window(
        &self,
        focused_axwin: Option<u64>,
        current_client: Option<WinId>,
        managed: &Vec<WinId>,
    ) -> (d: FocusDecision)
        requires
            self.wf(),
        ensures
            d.focus.is_some() ==> d.manage@ == ids_not_managed(self.windows@, managed@),
            d.focus.is_none() ==> d.manage@.len() == 0,
            match focused_axwin {
                None => d.focus.is_none(),
                Some(ax) => match d.focus {
                    Some(id) => current_client != Some(id) && exists|i: int|
                        0 <= i < self.windows@.len() && self.windows@[i].axwin == ax
                            && self.windows@[i].win_id == id,
                    None => (forall|i: int|
                        0 <= i < self.windows@.len() ==> #[trigger] self.windows@[i].axwin != ax)
                        || (exists|i: int|
                        0 <= i < self.windows@.len() && self.windows@[i].axwin == ax
                            && current_client == Some(self.windows@[i].win_id)),
                },
            },
    {
        let ax = match focused_axwin {
            Some(ax) => ax,
            None => {
                return FocusDecision { manage: Vec::new(), focus: None };
            },
        };
        let maybe_id = self.win_id_for_axwin(ax);
        let already = match (&maybe_id, &current_client) {
            (Some(a), Some(b)) => *a == *b,
            (None, None) => true,
            _ => false,
        };
        if already {
            return FocusDecision { manage: Vec::new(), focus: None };
        }
        match maybe_id {
            Some(id) => FocusDecision { manage: self.manage_new_windows(managed), focus: Some(id) },
            None => FocusDecision { manage: Vec::new(), focus: None },
        }
    }

    /// Handle a `WindowCreated` notification for a pid: snapshot the
    /// tracked numbers, refresh, and report the pid's windows that the
    /// snapshot lacked, in map order. The engine manages each and then
    /// focuses the last of them; an empty answer means the
    /// notification found nothing new.
    pub fn handle_new_window_for_pid(
        &mut self,
        pid: Pid,
        running: &Vec<RunningApp>,
        on_screen: &Vec<OsxWindow>,
    ) -> (new_ids: Vec<WinId>)
        requires
            old(self).wf(),
            running_distinct(running@),
            wins_distinct(on_screen@),
        ensures
            final(self).wf(),
            final(self).hide_pt == old(self).hide_pt,
            final(self).apps@ == refreshed_apps(old(self).apps@, running@),
            final(self).windows@ == refreshed_windows(on_screen@, final(self).apps@),
            new_ids@ == spec_new_windows_for_pid(final(self).windows@, old(self).windows@, pid),
    {
        // snapshot the currently tracked numbers
        let mut prev_ids: Vec<WinId> = Vec::new();
        let mut i: usize = 0;
        proof {
            assert(prev_ids@ =~= ids_of(self.windows@.take(0)));
        }
        while i < self.windows.len()
            invariant
                i <= self.windows@.len(),
                prev_ids@ == ids_of(self.windows@.take(i as int)),
            decreases self.windows@.len() - i,
        {
            let id = self.windows[i].win_id;
            prev_ids.push(id);
            proof {
                assert(prev_ids@ =~= ids_of(self.windows@.take(i + 1 as int)));
            }
            i = i + 1;
        }
        proof {
            assert(self.windows@.take(self.windows@.len() as int) =~= self.windows@);
        }
        self.update_known_apps_and_windows(running, on_screen);
        // diff the refreshed map against the snapshot
        let mut new_ids: Vec<WinId> = Vec::new();
        let mut k: usize = 0;
        proof {
            assert(self.windows@.take(0) =~= Seq::<OsxWindow>::empty());
        }
        while k < self.windows.len()
            invariant
                k <= self.windows@.len(),
                prev_ids@ == ids_of(old(self).windows@),
                new_ids@ == spec_new_windows_for_pid(
                    self.windows@.take(k as int),
                    old(self).windows@,
                    pid,
                ),
            decreases self.windows@.len() - k,
        {
            proof {
                assert(self.windows@.take(k + 1 as int).drop_last() =~= self.windows@.take(
                    k as int,
                ));
                assert(self.windows@.take(k + 1 as int).last() == self.windows@[k as int]);
            }
            let wid = self.windows[k].win_id;
            proof {
                assert(ids_have(prev_ids@, wid) <==> wins_have(old(self).windows@, wid)) by {
                    if ids_have(prev_ids@, wid) {
                        let m = choose|m: int| 0 <= m < prev_ids@.len() && prev_ids@[m] == wid;
                        assert(old(self).windows@[m].win_id == wid);
                    }
                    if wins_have(old(self).windows@, wid) {
                        let m = choose|m: int|
                            0 <= m < old(self).windows@.len() && old(self).windows@[m].win_id
                                == wid;
                        assert(prev_ids@[m] == wid);
                    }
                }
            }
            if self.windows[k].owner_pid == pid && !ids_contain(&prev_ids, wid) {
                new_ids.push(wid);
            }
            k = k + 1;
        }
        proof {
            assert(self.windows@.take(self.windows@.len() as int) =~= self.windows@);
        }
        new_ids
    }
}

/// The window map with one window's cached bounds replaced.
pub open spec fn wins_with_bounds(ws: Seq<OsxWindow>, id: WinId, r: Rect) -> Seq<OsxWindow> {
    Seq::new(
        ws.len(),
        |i: int|
            if ws[i].win_id == id {
                OsxWindow {
                    win_id: ws[i].win_id,
                    owner_pid: ws[i].owner_pid,
                    window_layer: ws[i].window_layer,
                    bounds: r,
                    owner: ws[i].owner,
                    window_name: ws[i].window_name,
                    axwin: ws[i].axwin,
                }
            } else {
                ws[i]
            },
    )
}

/// The window map with one window's cached corner moved, its extent
/// kept.
pub open spec fn wins_with_corner(ws: Seq<OsxWindow>, id: WinId, p: Point) -> Seq<OsxWindow> {
    Seq::new(
        ws.len(),
        |i: int|
            if ws[i].win_id == id {
                OsxWindow {
                    win_id: ws[i].win_id,
                    owner_pid: ws[i].owner_pid,
                    window_layer: ws[i].window_layer,
                    bounds: Rect {
                        x: p.x,
                        y: p.y,
                        w: ws[i].bounds.w,
                        h: ws[i].bounds.h,
                    },
                    owner: ws[i].owner,
                    window_name: ws[i].window_name,
                    axwin: ws[i].axwin,
                }
            } else {
                ws[i]
            },
    )
}

/// Replacing one window's bounds touches no key and no other record.
proof fn lemma_wins_update_wf(ws: Seq<OsxWindow>, ws2: Seq<OsxWindow>, apps: Seq<OsxApp>)
    requires
        ws2.len() == ws.len(),
        forall|i: int|
            0 <= i < ws.len() ==> (#[trigger] ws2[i]).win_id == ws[i].win_id && ws2[i].axwin
                == ws[i].axwin && ws2[i].owner_pid == ws[i].owner_pid && ws2[i].window_layer
                == ws[i].window_layer,
        wins_distinct(ws),
        forall|i: int| 0 <= i < ws.len() ==> apps_have(apps, #[trigger] ws[i].owner_pid),
        forall|i: int| 0 <= i < ws.len() ==> #[trigger] ws[i].window_layer == 0,
    ensures
        wins_distinct(ws2),
        forall|i: int| 0 <= i < ws2.len() ==> apps_have(apps, #[trigger] ws2[i].owner_pid),
        forall|i: int| 0 <= i < ws2.len() ==> #[trigger] ws2[i].window_layer == 0,
{
}

/// The resolved target of a window command: the window, its
/// accessibility element, and the owning application (for an
/// animation-suppressed command the application is also whose
/// auto-layout attribute is toggled around the command).
#[derive(Debug, Clone, Copy, PartialEq, Eq, Structural)]
pub struct CommandTarget {
    pub win_id: WinId,
    pub axwin: u64,
    pub pid: Pid,
}

/// Whether the auto-layout attribute must be re-enabled when an
/// animation-suppressed command finishes.
#[derive(Debug, Clone, Copy, PartialEq, Eq, Structural)]
pub struct AnimGuard {
    pub restore: bool,
}

impl AnimGuard {
    /// Whether the driver re-enables the attribute (best effort) after
    /// running the command.
    pub fn should_restore(&self) -> (b: bool)
        ensures
            b == self.restore,
    {
        self.restore
    }
}

/// Decide the restore obligation from what the driver observed before
/// the command: the attribute is re-enabled only when it was enabled
/// and the disabling write succeeded — after a failed disable a second
/// failing write could leave the application inconsistent, so no
/// restore is attempted.
pub fn suppression_guard(eui_was_enabled: bool, disable_ok: bool) -> (g: AnimGuard)
    ensures
        g.restore == (eui_was_enabled && disable_ok),
{
    AnimGuard { restore: eui_was_enabled && disable_ok }
}

/// An honored attribute write takes effect; a failed one leaves the
/// attribute as it was.
pub open spec fn eui_write(flag: bool, value: bool, ok: bool) -> bool {
    if ok {
        value
    } else {
        flag
    }
}

/// The value of an application's auto-layout attribute after one
/// animation-suppressed scope: disabled only if it was enabled,
/// re-enabled exactly when the guard demands it.
pub open spec fn spec_eui_after_scope(initial: bool, disable_ok: bool, enable_ok: bool) -> bool {
    let disabled = if initial {
        eui_write(initial, false, disable_ok)
    } else {
        initial
    };
    if initial && disable_ok {
        eui_write(disabled, true, enable_ok)
    } else {
        disabled
    }
}

/// The value of an application's auto-layout attribute after one
/// animation-suppressed scope, computed from what the driver observed.
pub fn eui_after_scope(initial: bool, disable_ok: bool, enable_ok: bool) -> (b: bool)
    ensures
        b == spec_eui_after_scope(initial, disable_ok, enable_ok),
{
    let disabled = if initial {
        if disable_ok {
            false
        } else {
            initial
        }
    } else {
        initial
    };
    if initial && disable_ok {
        if enable_ok {
            true
        } else {
            disabled
        }
    } else {
        disabled
    }
}

/// Writing the auto-layout attribute and reading it back yields the
/// written value whenever the application honors the attribute.
pub proof fn lemma_eui_set_then_get(flag: bool, value: bool)
    ensures
        eui_write(flag, value, true) == value,
{
}

/// Disabling and re-enabling a previously enabled auto-layout
/// attribute leaves it as it was; an attribute that was disabled, or
/// whose disabling write failed, is never touched again inside the
/// scope.
pub proof fn lemma_suppression_round_trip(initial: bool, disable_ok: bool, enable_ok: bool)
    ensures
        initial && disable_ok && enable_ok ==> spec_eui_after_scope(initial, disable_ok, enable_ok)
            == initial,
        !initial ==> spec_eui_after_scope(initial, disable_ok, enable_ok) == initial,
        initial && !disable_ok ==> spec_eui_after_scope(initial, disable_ok, enable_ok) == initial,
{
}

impl OsxConn {
    /// Resolve the target of an animation-suppressed command,
    /// retrying once after a refresh. When the window is tracked its
    /// owning application is tracked too (the map invariant), so the
    /// command never fails on the application lookup.
    pub fn with_suppressed_animations_target(
        &mut self,
        id: WinId,
        running: &Vec<RunningApp>,
        on_screen: &Vec<OsxWindow>,
    ) -> (r: Result<CommandTarget, WmError>)
        requires
            old(self).wf(),
            running_distinct(running@),
            wins_distinct(on_screen@),
        ensures
            final(self).wf(),
            final(self).hide_pt == old(self).hide_pt,
            wins_have(old(self).windows@, id) ==> *final(self) == *old(self),
            !wins_have(old(self).windows@, id) ==> final(self).apps@ == refreshed_apps(
                old(self).apps@,
                running@,
            ) && final(self).windows@ == refreshed_windows(on_screen@, final(self).apps@),
            wins_have(final(self).windows@, id) ==> r == Ok::<CommandTarget, WmError>(
                CommandTarget {
                    win_id: id,
                    axwin: win_at(final(self).windows@, id).axwin,
                    pid: win_at(final(self).windows@, id).owner_pid,
                },
            ) && apps_have(final(self).apps@, win_at(final(self).windows@, id).owner_pid),
            !wins_have(final(self).windows@, id) ==> r == Err::<CommandTarget, WmError>(
                WmError::UnknownClient(id),
            ),
    {
        self.win_prop_lookup(id, running, on_screen);
        match self.index_of_window(id) {
            Some(i) => {
                proof {
                    lemma_win_at_unique(self.windows@, i as int);
                    assert(apps_have(self.apps@, self.windows@[i as int].owner_pid));
                }
                Ok(
                    CommandTarget {
                        win_id: id,
                        axwin: self.windows[i].axwin,
                        pid: self.windows[i].owner_pid,
                    },
                )
            },
            None => Err(WmError::UnknownClient(id)),
        }
    }

    /// Record the outcome of a positioning command: when both
    /// attribute writes succeeded the cached bounds become the
    /// commanded rectangle; a failed write leaves the cache untouched
    /// and names the failing call.
    pub fn commit_position(&mut self, id: WinId, r: Rect, pos_ok: bool, size_ok: bool) -> (res:
        Result<(), WmError>)
        requires
            old(self).wf(),
        ensures
            final(self).wf(),
            final(self).apps@ == old(self).apps@,
            final(self).hide_pt == old(self).hide_pt,
            !wins_have(old(self).windows@, id) ==> res == Err::<(), WmError>(
                WmError::UnknownClient(id),
            ) && *final(self) == *old(self),
            wins_have(old(self).windows@, id) && !pos_ok ==> res == Err::<(), WmError>(
                WmError::OsCall(OsOp::SetPosition),
            ) && *final(self) == *old(self),
            wins_have(old(self).windows@, id) && pos_ok && !size_ok ==> res == Err::<(), WmError>(
                WmError::OsCall(OsOp::SetSize),
            ) && *final(self) == *old(self),
            wins_have(old(self).windows@, id) && pos_ok && size_ok ==> res == Ok::<(), WmError>(())
                && final(self).windows@ == wins_with_bounds(old(self).windows@, id, r),
    {
        match self.index_of_window(id) {
            Some(i) => {
                proof {
                    lemma_win_at_unique(self.windows@, i as int);
                }
                if !pos_ok {
                    Err(WmError::OsCall(OsOp::SetPosition))
                } else if !size_ok {
                    Err(WmError::OsCall(OsOp::SetSize))
                } else {
                    self.windows[i].bounds = r;
                    proof {
                        assert(self.windows@ =~= wins_with_bounds(old(self).windows@, id, r));
                        lemma_wins_update_wf(old(self).windows@, self.windows@, self.apps@);
                    }
                    Ok(())
                }
            },
            None => Err(WmError::UnknownClient(id)),
        }
    }

    /// Record the outcome of a hide command: the window was moved to
    /// the hide point, so the cached corner follows it while the
    /// cached extent stays.
    pub fn commit_hide(&mut self, id: WinId, pos_ok: bool) -> (res: Result<(), WmError>)
        requires
            old(self).wf(),
        ensures
            final(self).wf(),
            final(self).apps@ == old(self).apps@,
            final(self).hide_pt == old(self).hide_pt,
            !wins_have(old(self).windows@, id) ==> res == Err::<(), WmError>(
                WmError::UnknownClient(id),
            ) && *final(self) == *old(self),
            wins_have(old(self).windows@, id) && !pos_ok ==> res == Err::<(), WmError>(
                WmError::OsCall(OsOp::SetPosition),
            ) && *final(self) == *old(self),
            wins_have(old(self).windows@, id) && pos_ok ==> res == Ok::<(), WmError>(())
                && final(self).windows@ == wins_with_corner(
                old(self).windows@,
                id,
                old(self).hide_pt,
            ),
    {
        match self.index_of_window(id) {
            Some(i) => {
                proof {
                    lemma_win_at_unique(self.windows@, i as int);
                }
                if !pos_ok {
                    Err(WmError::OsCall(OsOp::SetPosition))
                } else {
                    let p = self.hide_pt;
                    let w = self.windows[i].bounds.w;
                    let h = self.windows[i].bounds.h;
                    self.windows[i].bounds = Rect { x: p.x, y: p.y, w, h };
                    proof {
                        assert(self.windows@ =~= wins_with_corner(
                            old(self).windows@,
                            id,
                            old(self).hide_pt,
                        ));
                        lemma_wins_update_wf(old(self).windows@, self.windows@, self.apps@);
                    }
                    Ok(())
                }
            },
            None => Err(WmError::UnknownClient(id)),
        }
    }

    /// Resolve a focus command, retrying once after a refresh: the
    /// driver must first raise the returned element (making it the
    /// application's main window) and only then activate the returned
    /// pid, so that activation finds the application agreeing about
    /// its main window. The owning application is tracked whenever the
    /// window is (the map invariant).
    pub fn focus_client(
        &mut self,
        id: WinId,
        running: &Vec<RunningApp>,
        on_screen: &Vec<OsxWindow>,
    ) -> (r: Result<CommandTarget, WmError>)
        requires
            old(self).wf(),
            running_distinct(running@),
            wins_distinct(on_screen@),
        ensures
            final(self).wf(),
            final(self).hide_pt == old(self).hide_pt,
            wins_have(old(self).windows@, id) ==> *final(self) == *old(self),
            !wins_have(old(self).windows@, id) ==> final(self).apps@ == refreshed_apps(
                old(self).apps@,
                running@,
            ) && final(self).windows@ == refreshed_windows(on_screen@, final(self).apps@),
            wins_have(final(self).windows@, id) ==> r == Ok::<CommandTarget, WmError>(
                CommandTarget {
                    win_id: id,
                    axwin: win_at(final(self).windows@, id).axwin,
                    pid: win_at(final(self).windows@, id).owner_pid,
                },
            ) && apps_have(final(self).apps@, win_at(final(self).windows@, id).owner_pid),
            !wins_have(final(self).windows@, id) ==> r == Err::<CommandTarget, WmError>(
                WmError::UnknownClient(id),
            ),
    {
        self.with_suppressed_animations_target(id, running, on_screen)
    }
}

impl OsxConn {
    /// Resolve a kill command, retrying once after a refresh: the
    /// driver retrieves the close-button child of the returned
    /// element and presses it (cheaper and cleaner than terminating
    /// the process).
    pub fn kill_client(
        &mut self,
        id: WinId,
        running: &Vec<RunningApp>,
        on_screen: &Vec<OsxWindow>,
    ) -> (r: Result<u64, WmError>)
        requires
            old(self).wf(),
            running_distinct(running@),
            wins_distinct(on_screen@),
        ensures
            final(self).wf(),
            final(self).hide_pt == old(self).hide_pt,
            wins_have(old(self).windows@, id) ==> *final(self) == *old(self),
            !wins_have(old(self).windows@, id) ==> final(self).apps@ == refreshed_apps(
                old(self).apps@,
                running@,
            ) && final(self).windows@ == refreshed_windows(on_screen@, final(self).apps@),
            wins_have(final(self).windows@, id) ==> r == Ok::<u64, WmError>(
                win_at(final(self).windows@, id).axwin,
            ),
            !wins_have(final(self).windows@, id) ==> r == Err::<u64, WmError>(
                WmError::UnknownClient(id),
            ),
    {
        self.window_handle(id, running, on_screen)
    }

    /// Showing is not yet symmetric to hiding: the window stays where
    /// the hide point left it, and the connection is untouched.
    pub fn show_client(&mut self, _id: WinId) -> (r: Result<(), WmError>)
        ensures
            *final(self) == *old(self),
            r == Ok::<(), WmError>(()),
    {
        Ok(())
    }

    /// Withdrawing a client needs no work on this platform.
    pub fn withdraw_client(&mut self, _id: WinId) -> (r: Result<(), WmError>)
        ensures
            *final(self) == *old(self),
            r == Ok::<(), WmError>(()),
    {
        Ok(())
    }

    /// The platform offers no transient-parent relation.
    pub fn client_transient_parent(&self, _id: WinId) -> (r: Option<WinId>)
        ensures
            r.is_none(),
    {
        None
    }

    /// Restacking is not supported by the platform's raise and
    /// activate primitives.
    pub fn restack(&mut self, _ids: &Vec<WinId>) -> (r: Result<(), WmError>)
        ensures
            *final(self) == *old(self),
            r == Ok::<(), WmError>(()),
    {
        Ok(())
    }

    /// The platform draws no window borders.
    pub fn set_client_border_color(&mut self, _id: WinId, _rgba: u32) -> (r: Result<(), WmError>)
        ensures
            *final(self) == *old(self),
            r == Ok::<(), WmError>(()),
    {
        Ok(())
    }
}

/// Whether a display list is ordered left to right.
pub open spec fn sorted_by_x(s: Seq<Rect>) -> bool {
    forall|i: int, j: int| 0 <= i <= j < s.len() ==> s[i].x <= s[j].x
}

/// The active displays ordered left to right by their x coordinate
/// (a stable insertion sort; the result holds exactly the given
/// rectangles).
pub fn screen_details(displays: &Vec<Rect>) -> (r: Vec<Rect>)
    ensures
        sorted_by_x(r@),
        r@.to_multiset() == displays@.to_multiset(),
        r@.len() == displays@.len(),
{
    let mut out: Vec<Rect> = Vec::new();
    let mut i: usize = 0;
    proof {
        assert(displays@.take(0) =~= Seq::<Rect>::empty());
        displays@.take(0).to_multiset_ensures();
        Seq::<Rect>::empty().to_multiset_ensures();
        assert(displays@.take(0).to_multiset() =~= out@.to_multiset());
    }
    while i < displays.len()
        invariant
            i <= displays@.len(),
            sorted_by_x(out@),
            out@.to_multiset() == displays@.take(i as int).to_multiset(),
            out@.len() == i,
        decreases displays@.len() - i,
    {
        let x = displays[i];
        // find the stable insertion point: after every display that is
        // not strictly to the right
        let mut k: usize = 0;
        while k < out.len()
            invariant
                k <= out@.len(),
                forall|m: int| 0 <= m < k ==> out@[m].x <= x.x,
            ensures
                k <= out@.len(),
                forall|m: int| 0 <= m < k ==> out@[m].x <= x.x,
                k < out@.len() ==> out@[k as int].x > x.x,
            decreases out@.len() - k,
        {
            if out[k].x > x.x {
                break ;
            }
            k = k + 1;
        }
        let ghost prev = out@;
        out.insert(k, x);
        proof {
            // sortedness is preserved around the insertion point
            assert forall|a: int, b: int| 0 <= a <= b < out@.len() implies out@[a].x
                <= out@[b].x by {
                if a < k && b >= k + 1 {
                    assert(out@[a] == prev[a]);
                    assert(out@[b] == prev[b - 1]);
                } else if a < k && b == k {
                    assert(out@[a] == prev[a]);
                } else if a == k && b >= k + 1 {
                    assert(out@[b] == prev[b - 1]);
                    assert(k < prev.len() ==> prev[k as int].x > x.x);
                } else if a >= k + 1 {
                    assert(out@[a] == prev[a - 1]);
                    assert(out@[b] == prev[b - 1]);
                }
            }
            // the inserted element joins the multiset
            assert(out@.remove(k as int) =~= prev);
            out@.to_multiset_ensures();
            assert(out@.remove(k as int).to_multiset() =~= out@.to_multiset().remove(x));
            assert(out@[k as int] == x);
            assert(out@.to_multiset().contains(x)) by {
                assert(out@.contains(x));
            }
            assert(out@.to_multiset() =~= prev.to_multiset().insert(x));
            // and the consumed prefix grows by the same element
            assert(displays@.take(i + 1 as int) =~= displays@.take(i as int).push(x));
            displays@.take(i as int).to_multiset_ensures();
            assert(displays@.take(i + 1 as int).to_multiset() =~= displays@.take(
                i as int,
            ).to_multiset().insert(x));
        }
        i = i + 1;
    }
    proof {
        assert(displays@.take(displays@.len() as int) =~= displays@);
    }
    out
}

/// One pixel inside the bottom-right corner of a display.
pub open spec fn spec_hide_point(r: Rect) -> Point {
    Point { x: (r.x + r.w - 1) as i32, y: (r.y + r.h - 1) as i32 }
}

/// A plausible display: its far corner fits the coordinate space and
/// it has at least one pixel in each direction.
pub open spec fn valid_display(r: Rect) -> bool {
    crate::geometry::rect_in_bounds(r) && r.w >= 1 && r.h >= 1
}

impl OsxConn {
    /// Cache the hide point: one pixel inside the bottom-right corner
    /// of the last display of the left-to-right ordering. An empty
    /// display list is `NoScreens` and leaves the cache untouched.
    pub fn set_hide_pt(&mut self, sorted_displays: &Vec<Rect>) -> (r: Result<(), WmError>)
        requires
            forall|i: int| 0 <= i < sorted_displays@.len() ==> valid_display(#[trigger] sorted_displays@[i]),
        ensures
            final(self).apps@ == old(self).apps@,
            final(self).windows@ == old(self).windows@,
            sorted_displays@.len() == 0 ==> r == Err::<(), WmError>(WmError::NoScreens)
                && final(self).hide_pt == old(self).hide_pt,
            sorted_displays@.len() > 0 ==> r == Ok::<(), WmError>(()) && final(self).hide_pt
                == spec_hide_point(sorted_displays@.last()),
    {
        if sorted_displays.len() == 0 {
            return Err(WmError::NoScreens);
        }
        let last = sorted_displays[sorted_displays.len() - 1];
        let x = (last.x as i64 + last.w as i64 - 1) as i32;
        let y = (last.y as i64 + last.h as i64 - 1) as i32;
        self.hide_pt = Point { x, y };
        Ok(())
    }

    /// The sentinel root id.
    pub fn root(&self) -> (r: WinId)
        ensures
            r == 0,
    {
        0
    }

    /// Where the pointer must go for a warp request: absolute
    /// coordinates for the root, coordinates relative to the window's
    /// cached corner otherwise (retrying the lookup once after a
    /// refresh). For a window the driver then runs the focus plan for
    /// the same id.
    pub fn warp_pointer_target(
        &mut self,
        id: WinId,
        x: i16,
        y: i16,
        running: &Vec<RunningApp>,
        on_screen: &Vec<OsxWindow>,
    ) -> (r: Result<(i64, i64), WmError>)
        requires
            old(self).wf(),
            running_distinct(running@),
            wins_distinct(on_screen@),
        ensures
            final(self).wf(),
            final(self).hide_pt == old(self).hide_pt,
            id == 0 ==> *final(self) == *old(self) && r == Ok::<(i64, i64), WmError>(
                (x as i64, y as i64),
            ),
            id != 0 && wins_have(old(self).windows@, id) ==> *final(self) == *old(self),
            id != 0 && !wins_have(old(self).windows@, id) ==> final(self).apps@ == refreshed_apps(
                old(self).apps@,
                running@,
            ) && final(self).windows@ == refreshed_windows(on_screen@, final(self).apps@),
            id != 0 && wins_have(final(self).windows@, id) ==> (r matches Ok(p) && p.0 == win_at(
                final(self).windows@,
                id,
            ).bounds.x + x && p.1 == win_at(final(self).windows@, id).bounds.y + y),
            id != 0 && !wins_have(final(self).windows@, id) ==> r == Err::<(i64, i64), WmError>(
                WmError::UnknownClient(id),
            ),
    {
        if id == 0 {
            return Ok((x as i64, y as i64));
        }
        match self.client_geometry(id, running, on_screen) {
            Ok(b) => Ok((b.x as i64 + x as i64, b.y as i64 + y as i64)),
            Err(e) => Err(e),
        }
    }
}

/// Where one discovered window is to be placed.
#[derive(Debug, Clone, Copy, PartialEq, Eq, Structural)]
pub struct Placement {
    /// The window to manage.
    pub id: WinId,
    /// The index, in the given screen list, of the first screen
    /// containing the window's midpoint; `None` when no screen does
    /// (the engine then uses its current workspace).
    pub screen: Option<usize>,
}

/// Whether a placement names the first screen containing the midpoint
/// of the placed window's bounds.
pub open spec fn placement_valid(p: Placement, ws: Seq<OsxWindow>, screens: Seq<Rect>) -> bool {
    let mid = crate::geometry::spec_midpoint(win_at(ws, p.id).bounds);
    match p.screen {
        Some(s) => s < screens.len() && crate::geometry::spec_contains_point(screens[s as int], mid)
            && forall|j: int|
            0 <= j < s ==> !crate::geometry::spec_contains_point(#[trigger] screens[j], mid),
        None => forall|j: int|
            0 <= j < screens.len() ==> !crate::geometry::spec_contains_point(
                #[trigger] screens[j],
                mid,
            ),
    }
}

/// The first screen containing a point, scanning left to right
/// through the given list.
pub fn find_screen(screens: &Vec<Rect>, p: Point) -> (r: Option<usize>)
    requires
        forall|j: int|
            0 <= j < screens@.len() ==> crate::geometry::rect_in_bounds(#[trigger] screens@[j]),
    ensures
        match r {
            Some(s) => s < screens@.len() && crate::geometry::spec_contains_point(
                screens@[s as int],
                p,
            ) && forall|j: int|
                0 <= j < s ==> !crate::geometry::spec_contains_point(#[trigger] screens@[j], p),
            None => forall|j: int|
                0 <= j < screens@.len() ==> !crate::geometry::spec_contains_point(
                    #[trigger] screens@[j],
                    p,
                ),
        },
{
    let mut i: usize = 0;
    while i < screens.len()
        invariant
            i <= screens@.len(),
            forall|j: int|
                0 <= j < screens@.len() ==> crate::geometry::rect_in_bounds(#[trigger] screens@[j]),
            forall|j: int|
                0 <= j < i ==> !crate::geometry::spec_contains_point(#[trigger] screens@[j], p),
        decreases screens@.len() - i,
    {
        if screens[i].contains_point(p) {
            return Some(i);
        }
        i = i + 1;
    }
    None
}

impl OsxConn {
    /// Adopt the windows that already exist at bootstrap: refresh,
    /// then hand the engine one placement per discovered manageable
    /// window it does not know yet, each naming the screen containing
    /// the window's midpoint. The engine manages each on that screen's
    /// workspace and then refreshes itself.
    pub fn manage_existing_clients(
        &mut self,
        running: &Vec<RunningApp>,
        on_screen: &Vec<OsxWindow>,
        managed: &Vec<WinId>,
        screens: &Vec<Rect>,
    ) -> (acts: Vec<Placement>)
        requires
            old(self).wf(),
            running_distinct(running@),
            wins_distinct(on_screen@),
            forall|i: int|
                0 <= i < on_screen@.len() ==> crate::geometry::rect_in_bounds(
                    (#[trigger] on_screen@[i]).bounds,
                ),
            forall|j: int|
                0 <= j < screens@.len() ==> crate::geometry::rect_in_bounds(#[trigger] screens@[j]),
        ensures
            final(self).wf(),
            final(self).hide_pt == old(self).hide_pt,
            final(self).apps@ == refreshed_apps(old(self).apps@, running@),
            final(self).windows@ == refreshed_windows(on_screen@, final(self).apps@),
            acts@.map_values(|p: Placement| p.id) == ids_not_managed(final(self).windows@, managed@),
            forall|k: int|
                0 <= k < acts@.len() ==> placement_valid(
                    #[trigger] acts@[k],
                    final(self).windows@,
                    screens@,
                ),
    {
        self.update_known_apps_and_windows(running, on_screen);
        proof {
            lemma_refreshed_windows_props(on_screen@, self.apps@);
            assert forall|m: int|
                0 <= m < self.windows@.len() implies crate::geometry::rect_in_bounds(
                (#[trigger] self.windows@[m]).bounds,
            ) by {
                let j = choose|j: int|
                    0 <= j < on_screen@.len() && self.windows@[m] == on_screen@[j];
            }
        }
        let mut acts: Vec<Placement> = Vec::new();
        let mut i: usize = 0;
        proof {
            assert(self.windows@.take(0) =~= Seq::<OsxWindow>::empty());
            assert(acts@.map_values(|p: Placement| p.id) =~= ids_not_managed(
                self.windows@.take(0),
                managed@,
            ));
        }
        while i < self.windows.len()
            invariant
                i <= self.windows@.len(),
                self.wf(),
                forall|m: int|
                    0 <= m < self.windows@.len() ==> crate::geometry::rect_in_bounds(
                        (#[trigger] self.windows@[m]).bounds,
                    ),
                forall|j: int|
                    0 <= j < screens@.len() ==> crate::geometry::rect_in_bounds(
                        #[trigger] screens@[j],
                    ),
                acts@.map_values(|p: Placement| p.id) == ids_not_managed(
                    self.windows@.take(i as int),
                    managed@,
                ),
                forall|k: int|
                    0 <= k < acts@.len() ==> placement_valid(
                        #[trigger] acts@[k],
                        self.windows@,
                        screens@,
                    ),
            decreases self.windows@.len() - i,
        {
            proof {
                assert(self.windows@.take(i + 1 as int).drop_last() =~= self.windows@.take(
                    i as int,
                ));
                assert(self.windows@.take(i + 1 as int).last() == self.windows@[i as int]);
            }
            let wid = self.windows[i].win_id;
            let layer = self.windows[i].window_layer;
            if !ids_contain(managed, wid) && layer == 0 {
                let mid = self.windows[i].bounds.midpoint();
                let screen = find_screen(screens, mid);
                let act = Placement { id: wid, screen };
                proof {
                    lemma_win_at_unique(self.windows@, i as int);
                    assert(placement_valid(act, self.windows@, screens@));
                    assert(acts@.push(act).map_values(|p: Placement| p.id) =~= acts@.map_values(
                        |p: Placement| p.id,
                    ).push(act.id));
                }
                acts.push(act);
            }
            i = i + 1;
        }
        proof {
            assert(self.windows@.take(self.windows@.len() as int) =~= self.windows@);
        }
        acts
    }
}

/// Every tracked window's owner is a tracked application: the first
/// map invariant, holding in every state the connection's operations
/// can reach.
pub proof fn lemma_every_window_owner_tracked(c: OsxConn)
    requires
        c.wf(),
    ensures
        forall|i: int|
            0 <= i < c.windows@.len() ==> apps_have(c.apps@, #[trigger] c.windows@[i].owner_pid),
{
}

/// After adopting existing clients, the tracked window numbers are
/// exactly the standard-layer windows of the on-screen list whose
/// element resolved and whose owner is tracked.
pub proof fn lemma_existing_clients_exact(src: Seq<OsxWindow>, apps: Seq<OsxApp>)
    ensures
        forall|id: WinId| #[trigger]
            wins_have(refreshed_windows(src, apps), id) <==> (exists|j: int|
                0 <= j < src.len() && src[j].win_id == id && src[j].window_layer == 0 && apps_have(
                    apps,
                    src[j].owner_pid,
                )),
{
    lemma_refreshed_windows_props(src, apps);
}

/// A committed positioning is observable: the geometry the connection
/// reports afterwards is the commanded rectangle.
pub proof fn lemma_position_then_geometry(ws: Seq<OsxWindow>, id: WinId, r: Rect)
    requires
        wins_distinct(ws),
        wins_have(ws, id),
    ensures
        wins_have(wins_with_bounds(ws, id, r), id),
        win_at(wins_with_bounds(ws, id, r), id).bounds == r,
{
    let i = win_index(ws, id);
    let ws2 = wins_with_bounds(ws, id, r);
    assert(ws2[i].win_id == id);
    assert(wins_have(ws2, id));
    let j = win_index(ws2, id);
    assert(ws2[j].win_id == id);
    if i != j {
        if i < j {
            assert(ws[i].win_id != ws[j].win_id);
        } else {
            assert(ws[j].win_id != ws[i].win_id);
        }
        assert(false);
    }
}

/// Committing the same rectangle twice is the same as committing it
/// once: a repeated positioning succeeds without changing the cached
/// bounds.
pub proof fn lemma_position_idempotent(ws: Seq<OsxWindow>, id: WinId, r: Rect)
    ensures
        wins_with_bounds(wins_with_bounds(ws, id, r), id, r) == wins_with_bounds(ws, id, r),
{
    assert(wins_with_bounds(wins_with_bounds(ws, id, r), id, r) =~= wins_with_bounds(ws, id, r));
}

/// The structural invariant, stated of bare maps: unique pids, unique
/// window keys and elements, every owner tracked, only standard-layer
/// windows.
pub open spec fn maps_wf(apps: Seq<OsxApp>, ws: Seq<OsxWindow>) -> bool {
    &&& apps_distinct(apps)
    &&& wins_distinct(ws)
    &&& forall|i: int| 0 <= i < ws.len() ==> apps_have(apps, #[trigger] ws[i].owner_pid)
    &&& forall|i: int| 0 <= i < ws.len() ==> #[trigger] ws[i].window_layer == 0
}

/// One event's effect on the two maps, as the dispatch table routes
/// it: termination narrows both maps, element destruction drops one
/// window, a new window triggers a refresh against the OS observation
/// current at that moment, and the remaining dispositions leave the
/// maps unchanged (focus following and key bindings only read them).
pub open spec fn spec_step_maps(
    apps: Seq<OsxApp>,
    ws: Seq<OsxWindow>,
    e: Event,
    running: Seq<RunningApp>,
    src: Seq<OsxWindow>,
) -> (Seq<OsxApp>, Seq<OsxWindow>) {
    match spec_disposition(e) {
        Disposition::ClearTerminated(pid) => (apps_sans_pid(apps, pid), wins_sans_pid(ws, pid)),
        Disposition::ClearClosed(id) => (apps, wins_sans_id(ws, id)),
        Disposition::NewWindowDiff(_) => (
            refreshed_apps(apps, running),
            refreshed_windows(src, refreshed_apps(apps, running)),
        ),
        _ => (apps, ws),
    }
}

/// The maps after a whole sequence of events, each handled against
/// the OS observation current at its moment.
pub open spec fn spec_run_maps(
    apps: Seq<OsxApp>,
    ws: Seq<OsxWindow>,
    events: Seq<Event>,
    runnings: Seq<Seq<RunningApp>>,
    srcs: Seq<Seq<OsxWindow>>,
) -> (Seq<OsxApp>, Seq<OsxWindow>)
    decreases events.len(),
{
    if events.len() == 0 {
        (apps, ws)
    } else {
        let prev = spec_run_maps(
            apps,
            ws,
            events.drop_last(),
            runnings.drop_last(),
            srcs.drop_last(),
        );
        spec_step_maps(prev.0, prev.1, events.last(), runnings.last(), srcs.last())
    }
}

/// Handling one event preserves the structural invariant, whatever
/// the event and whatever the OS reports at that moment.
pub proof fn lemma_step_preserves_wf(
    apps: Seq<OsxApp>,
    ws: Seq<OsxWindow>,
    e: Event,
    running: Seq<RunningApp>,
    src: Seq<OsxWindow>,
)
    requires
        maps_wf(apps, ws),
        running_distinct(running),
        wins_distinct(src),
    ensures
        maps_wf(spec_step_maps(apps, ws, e, running, src).0, spec_step_maps(apps, ws, e, running, src).1),
{
    let stepped = spec_step_maps(apps, ws, e, running, src);
    match spec_disposition(e) {
        Disposition::ClearTerminated(pid) => {
            lemma_apps_sans_pid_props(apps, pid);
            lemma_wins_sans_pid_props(ws, pid);
            assert forall|i: int| 0 <= i < stepped.1.len() implies apps_have(
                stepped.0,
                #[trigger] stepped.1[i].owner_pid,
            ) by {
                let j = choose|j: int| 0 <= j < ws.len() && stepped.1[i] == ws[j];
                assert(apps_have(apps, ws[j].owner_pid));
            }
            assert forall|i: int|
                0 <= i < stepped.1.len() implies #[trigger] stepped.1[i].window_layer == 0 by {
                let j = choose|j: int| 0 <= j < ws.len() && stepped.1[i] == ws[j];
            }
        },
        Disposition::ClearClosed(id) => {
            lemma_wins_sans_id_props(ws, id);
            assert forall|i: int| 0 <= i < stepped.1.len() implies apps_have(
                stepped.0,
                #[trigger] stepped.1[i].owner_pid,
            ) by {
                let j = choose|j: int| 0 <= j < ws.len() && stepped.1[i] == ws[j];
                assert(apps_have(apps, ws[j].owner_pid));
            }
            assert forall|i: int|
                0 <= i < stepped.1.len() implies #[trigger] stepped.1[i].window_layer == 0 by {
                let j = choose|j: int| 0 <= j < ws.len() && stepped.1[i] == ws[j];
            }
        },
        Disposition::NewWindowDiff(_) => {
            lemma_refreshed_apps_props(apps, running);
            lemma_refreshed_windows_props(src, stepped.0);
            lemma_refreshed_windows_owned(src, stepped.0);
            assert forall|i: int|
                0 <= i < stepped.1.len() implies #[trigger] stepped.1[i].window_layer == 0 by {
                assert(apps_have(stepped.0, refreshed_windows(src, stepped.0)[i].owner_pid));
            }
        },
        _ => {},
    }
}

/// The first map invariant holds in every reachable state: whatever
/// sequence of events arrives, and whatever the OS reports while each
/// is handled, every tracked window's owner stays a tracked
/// application (and the maps stay well-formed keys throughout).
pub proof fn lemma_events_preserve_invariant(
    apps: Seq<OsxApp>,
    ws: Seq<OsxWindow>,
    events: Seq<Event>,
    runnings: Seq<Seq<RunningApp>>,
    srcs: Seq<Seq<OsxWindow>>,
)
    requires
        maps_wf(apps, ws),
        runnings.len() == events.len(),
        srcs.len() == events.len(),
        forall|k: int| 0 <= k < runnings.len() ==> running_distinct(#[trigger] runnings[k]),
        forall|k: int| 0 <= k < srcs.len() ==> wins_distinct(#[trigger] srcs[k]),
    ensures
        maps_wf(
            spec_run_maps(apps, ws, events, runnings, srcs).0,
            spec_run_maps(apps, ws, events, runnings, srcs).1,
        ),
    decreases events.len(),
{
    if events.len() == 0 {
    } else {
        assert(forall|k: int|
            0 <= k < runnings.drop_last().len() ==> running_distinct(
                #[trigger] runnings.drop_last()[k],
            ));
        assert(forall|k: int|
            0 <= k < srcs.drop_last().len() ==> wins_distinct(#[trigger] srcs.drop_last()[k]));
        lemma_events_preserve_invariant(
            apps,
            ws,
            events.drop_last(),
            runnings.drop_last(),
            srcs.drop_last(),
        );
        let prev = spec_run_maps(
            apps,
            ws,
            events.drop_last(),
            runnings.drop_last(),
            srcs.drop_last(),
        );
        assert(running_distinct(runnings[runnings.len() - 1]));
        assert(wins_distinct(srcs[srcs.len() - 1]));
        lemma_step_preserves_wf(prev.0, prev.1, events.last(), runnings.last(), srcs.last());
    }
}

} // verus!

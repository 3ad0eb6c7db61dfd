//! Popping the dope sheet (`F2`) and the entity browser (`F3`) out into
//! windows of their own, and docking them back: by the same key, or when the
//! player closes the window. Each panel is either docked or hosted by one
//! window (with the camera and root node that render it there).

use vstd::prelude::*;

verus! {

/// A panel that can pop out.
#[derive(Clone, Copy, PartialEq, Eq, Debug, Structural)]
pub enum Panel {
    Sheet,
    Browser,
}

/// The window hosting a popped-out panel, and the camera and root node that
/// render the panel into it (ids of the spawned entities).
#[derive(Clone, Copy, PartialEq, Eq, Debug, Structural)]
pub struct PopOut {
    pub window: u64,
    pub camera: u64,
    pub root: u64,
}

/// Which panels are popped out, and where.
#[derive(Clone, Copy, PartialEq, Eq, Debug, Structural)]
pub struct PopOuts {
    pub sheet: Option<PopOut>,
    pub browser: Option<PopOut>,
}

impl Default for PopOuts {
    fn default() -> (p: PopOuts)
        ensures
            p.sheet is None,
            p.browser is None,
    {
        PopOuts { sheet: None, browser: None }
    }
}

/// What the caller must do to the world.
#[derive(Clone, Copy, PartialEq, Eq, Debug, Structural)]
pub enum DockAction {
    /// Open a window for the panel and move the panel into it (then record
    /// the new host with [`popped_out`]).
    PopOut(Panel),
    /// Move the panel back into the main window and despawn its host's camera
    /// and root; the window itself too unless the player already closed it.
    ReDock { panel: Panel, host: PopOut, despawn_window: bool },
}

/// The host of `panel`, if it is popped out.
pub open spec fn host_of(p: PopOuts, panel: Panel) -> Option<PopOut> {
    match panel {
        Panel::Sheet => p.sheet,
        Panel::Browser => p.browser,
    }
}

/// `p` with `panel`'s host set to `h`.
pub open spec fn with_host(p: PopOuts, panel: Panel, h: Option<PopOut>) -> PopOuts {
    match panel {
        Panel::Sheet => PopOuts { sheet: h, ..p },
        Panel::Browser => PopOuts { browser: h, ..p },
    }
}

/// `F2` / `F3`: a docked panel pops out; a popped-out one docks back and its
/// window goes.
pub fn toggle(p: &mut PopOuts, panel: Panel) -> (a: DockAction)
    ensures
        match host_of(*old(p), panel) {
            Some(host) => a == (DockAction::ReDock { panel, host, despawn_window: true }) && *final(p)
                == with_host(*old(p), panel, None),
            None => a == DockAction::PopOut(panel) && *final(p) == *old(p),
        },
{
    let current = match panel {
        Panel::Sheet => p.sheet,
        Panel::Browser => p.browser,
    };
    match current {
        Some(host) => {
            match panel {
                Panel::Sheet => p.sheet = None,
                Panel::Browser => p.browser = None,
            }
            DockAction::ReDock { panel, host, despawn_window: true }
        },
        None => DockAction::PopOut(panel),
    }
}

/// Records the window the caller opened for a popped-out `panel`.
pub fn popped_out(p: &mut PopOuts, panel: Panel, host: PopOut)
    ensures
        *final(p) == with_host(*old(p), panel, Some(host)),
{
    match panel {
        Panel::Sheet => p.sheet = Some(host),
        Panel::Browser => p.browser = Some(host),
    }
}

/// The player closed `window`: whichever panel it hosted docks back (its
/// window is already gone).
pub fn window_closed(p: &mut PopOuts, window: u64) -> (actions: Vec<DockAction>)
    ensures
        final(p).sheet == (match old(p).sheet {
            Some(h) if h.window == window => None,
            other => other,
        }),
        final(p).browser == (match old(p).browser {
            Some(h) if h.window == window => None,
            other => other,
        }),
        actions@ == (match old(p).sheet {
            Some(h) if h.window == window => seq![
                DockAction::ReDock { panel: Panel::Sheet, host: h, despawn_window: false },
            ],
            _ => Seq::empty(),
        }) + (match old(p).browser {
            Some(h) if h.window == window => seq![
                DockAction::ReDock { panel: Panel::Browser, host: h, despawn_window: false },
            ],
            _ => Seq::empty(),
        }),
{
    let mut actions: Vec<DockAction> = Vec::new();
    if let Some(h) = p.sheet {
        if h.window == window {
            p.sheet = None;
            actions.push(DockAction::ReDock { panel: Panel::Sheet, host: h, despawn_window: false });
        }
    }
    let ghost after_sheet = actions@;
    if let Some(h) = p.browser {
        if h.window == window {
            p.browser = None;
            actions.push(DockAction::ReDock { panel: Panel::Browser, host: h, despawn_window: false });
        }
    }
    proof {
        assert(actions@ =~= after_sheet + (match old(p).browser {
            Some(h) if h.window == window => seq![
                DockAction::ReDock { panel: Panel::Browser, host: h, despawn_window: false },
            ],
            _ => Seq::empty(),
        }));
    }
    actions
}

/// Toggling a panel twice, with the window recorded in between, leaves
/// everything as it was: the second toggle docks exactly the host the first
/// one opened.
pub proof fn law_toggle_twice_docks_back(p: PopOuts, panel: Panel, host: PopOut)
    requires
        host_of(p, panel) is None,
    ensures
        host_of(with_host(p, panel, Some(host)), panel) == Some(host),
        with_host(with_host(p, panel, Some(host)), panel, None) == p,
{
}

} // verus!

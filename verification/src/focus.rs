//! Keyboard focus among the menu controls: a click focuses a control, `Tab`
//! and `Shift+Tab` walk the controls in their stable id order and wrap around.

use vstd::prelude::*;

verus! {

/// Which control has focus, by id.
#[derive(Clone, Copy, PartialEq, Eq, Debug, Structural)]
pub struct UiFocus(pub Option<u64>);

impl Default for UiFocus {
    fn default() -> (f: UiFocus)
        ensures
            f.0 is None,
    {
        UiFocus(None)
    }
}

/// `x` is the smallest of `ids`.
pub open spec fn is_least(ids: Seq<u64>, x: u64) -> bool {
    ids.contains(x) && forall|k: int| 0 <= k < ids.len() ==> x <= #[trigger] ids[k]
}

/// `x` is the largest of `ids`.
pub open spec fn is_greatest(ids: Seq<u64>, x: u64) -> bool {
    ids.contains(x) && forall|k: int| 0 <= k < ids.len() ==> #[trigger] ids[k] <= x
}

/// `x` is the id right after `f` in id order.
pub open spec fn is_next_after(ids: Seq<u64>, f: u64, x: u64) -> bool {
    ids.contains(x) && f < x && forall|k: int| 0 <= k < ids.len() && f < #[trigger] ids[k] ==> x <= ids[k]
}

/// `x` is the id right before `f` in id order.
pub open spec fn is_next_before(ids: Seq<u64>, f: u64, x: u64) -> bool {
    ids.contains(x) && x < f && forall|k: int| 0 <= k < ids.len() && #[trigger] ids[k] < f ==> ids[k] <= x
}

/// Where `Tab` (or `Shift+Tab`, `back`) moves focus among the controls
/// `ids`: to the next (previous) control in id order, wrapping from the last
/// to the first (the first to the last); from no focus, or a focus that is
/// not one of the controls, to the first. With no controls nothing moves.
pub open spec fn tab_moves_to(ids: Seq<u64>, focus: Option<u64>, back: bool, r: Option<u64>) -> bool {
    if ids.len() == 0 {
        r == focus
    } else {
        r matches Some(x) && match focus {
            Some(f) if ids.contains(f) => if back {
                if exists|k: int| 0 <= k < ids.len() && #[trigger] ids[k] < f {
                    is_next_before(ids, f, x)
                } else {
                    is_greatest(ids, x)
                }
            } else {
                if exists|k: int| 0 <= k < ids.len() && f < #[trigger] ids[k] {
                    is_next_after(ids, f, x)
                } else {
                    is_least(ids, x)
                }
            },
            _ => is_least(ids, x),
        }
    }
}

/// The nearest id on one side of `f` (`above`: the least id greater than
/// `f`; else the greatest id smaller than it), if any.
fn nearest(ids: &Vec<u64>, f: u64, above: bool) -> (r: Option<u64>)
    ensures
        above ==> match r {
            Some(x) => is_next_after(ids@, f, x),
            None => forall|k: int| 0 <= k < ids@.len() ==> #[trigger] ids@[k] <= f,
        },
        !above ==> match r {
            Some(x) => is_next_before(ids@, f, x),
            None => forall|k: int| 0 <= k < ids@.len() ==> f <= #[trigger] ids@[k],
        },
{
    let mut best: Option<u64> = None;
    let mut best_at: usize = 0;
    let mut i: usize = 0;
    while i < ids.len()
        invariant
            i <= ids@.len(),
            match best {
                Some(x) => best_at < i && ids@[best_at as int] == x && (if above {
                    f < x && forall|k: int| 0 <= k < i && f < #[trigger] ids@[k] ==> x <= ids@[k]
                } else {
                    x < f && forall|k: int| 0 <= k < i && #[trigger] ids@[k] < f ==> ids@[k] <= x
                }),
                None => forall|k: int| 0 <= k < i ==> if above {
                    #[trigger] ids@[k] <= f
                } else {
                    f <= ids@[k]
                },
            },
        decreases ids@.len() - i,
    {
        let v = ids[i];
        if above && f < v {
            match best {
                Some(x) => if v < x {
                    best = Some(v);
                    best_at = i;
                },
                None => {
                    best = Some(v);
                    best_at = i;
                },
            }
        } else if !above && v < f {
            match best {
                Some(x) => if x < v {
                    best = Some(v);
                    best_at = i;
                },
                None => {
                    best = Some(v);
                    best_at = i;
                },
            }
        }
        i = i + 1;
    }
    best
}

/// The smallest (`least`) or largest id of a non-empty list.
fn extreme(ids: &Vec<u64>, least: bool) -> (x: u64)
    requires
        ids@.len() > 0,
    ensures
        least ==> is_least(ids@, x),
        !least ==> is_greatest(ids@, x),
{
    let mut x = ids[0];
    let mut at: usize = 0;
    let mut i: usize = 1;
    while i < ids.len()
        invariant
            1 <= i <= ids@.len(),
            at < i,
            ids@[at as int] == x,
            forall|k: int| 0 <= k < i ==> if least {
                x <= #[trigger] ids@[k]
            } else {
                ids@[k] <= x
            },
        decreases ids@.len() - i,
    {
        if (least && ids[i] < x) || (!least && x < ids[i]) {
            x = ids[i];
            at = i;
        }
        i = i + 1;
    }
    x
}

/// `Tab` / `Shift+Tab`: the control that has focus afterwards.
pub fn tab_focus(ids: &Vec<u64>, focus: Option<u64>, back: bool) -> (r: Option<u64>)
    ensures
        tab_moves_to(ids@, focus, back, r),
{
    if ids.len() == 0 {
        return focus;
    }
    let mut present = false;
    if let Some(f) = focus {
        let mut i: usize = 0;
        while i < ids.len()
            invariant
                i <= ids@.len(),
                present <==> exists|k: int| 0 <= k < i && ids@[k] == f,
            decreases ids@.len() - i,
        {
            if ids[i] == f {
                present = true;
            }
            i = i + 1;
        }
    }
    match focus {
        Some(f) if present => {
            match nearest(ids, f, !back) {
                Some(x) => Some(x),
                None => Some(extreme(ids, !back)),
            }
        },
        _ => Some(extreme(ids, true)),
    }
}

/// `Shift+Tab` undoes `Tab`: from a focused control, stepping forward and
/// then back lands on the control it started from.
pub proof fn law_back_tab_undoes_tab(ids: Seq<u64>, f: u64, r1: Option<u64>, r2: Option<u64>)
    requires
        ids.contains(f),
        tab_moves_to(ids, Some(f), false, r1),
        tab_moves_to(ids, r1, true, r2),
    ensures
        r2 == Some(f),
{
    let x = r1->0;
    let y = r2->0;
    let fi = choose|k: int| 0 <= k < ids.len() && ids[k] == f;
    let yi = choose|k: int| 0 <= k < ids.len() && ids[k] == y;
    if exists|k: int| 0 <= k < ids.len() && f < #[trigger] ids[k] {
        assert(ids[fi] < x);
        if f < y {
            assert(f < ids[yi]);
        }
    } else {
        assert(x <= ids[fi]);
        if exists|k: int| 0 <= k < ids.len() && #[trigger] ids[k] < x {
            let k = choose|k: int| 0 <= k < ids.len() && #[trigger] ids[k] < x;
            assert(x <= ids[k]);
        }
        assert(ids[fi] <= y);
        assert(!(f < ids[yi]));
    }
}

/// A press on a control focuses it.
pub fn focus_on_press(focus: &mut UiFocus, pressed: Option<u64>)
    ensures
        final(focus).0 == match pressed {
            Some(id) => Some(id),
            None => old(focus).0,
        },
{
    if let Some(id) = pressed {
        focus.0 = Some(id);
    }
}

} // verus!

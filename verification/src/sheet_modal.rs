//! The dope sheet's modal transforms (Blender grammar): `G` moves the
//! selection, `Shift+W` ripples every key at or after the playhead. While one
//! is in flight, arrows nudge it, digits enter the offset, `Enter` commits
//! and `Esc` restores the snapshot taken when it began.

use vstd::prelude::*;

use crate::timeline::copy_vec;

use crate::layer::{LayerModel, LayerStack};
use crate::sheet_edit::{
    apply_move, apply_ripple, collect_keys, collect_spec, fits_shift, keys_only_changed,
    last_entry, restore, restore_spec, shifted_sel, shift_selection, shows_move, snap_view,
    snapshot, snapshot_spec, SelKey, TrackSnapshot,
};
use crate::layer::LayerId;
use crate::versions::{all_digits, decimal_value, digit_value, is_digit, lemma_decimal_value_prefix};

verus! {

/// The one in-flight modal transform.
pub enum EditOp {
    Idle,
    /// `G`: move the selection `base` by `delta` ticks; `digits` is the
    /// numeric entry typed so far.
    Move { saved: Vec<TrackSnapshot>, base: Vec<SelKey>, delta: i64, digits: Vec<char> },
    /// `Shift+W`: every key at or after `origin` shifts by `delta`.
    Ripple { saved: Vec<TrackSnapshot>, origin: u32, delta: i64 },
}

impl EditOp {
    /// No transform is in flight.
    pub open spec fn idle(&self) -> bool {
        self is Idle
    }
}

// --- Numeric entry --------------------------------------------------------------------

/// The integer a numeric entry spells: digits with an optional leading minus.
pub open spec fn signed_value(d: Seq<char>) -> Option<int> {
    if d.len() > 0 && d[0] == '-' {
        let r = d.drop_first();
        if r.len() > 0 && all_digits(r) {
            Some(-decimal_value(r))
        } else {
            None
        }
    } else if d.len() > 0 && all_digits(d) {
        Some(decimal_value(d))
    } else {
        None
    }
}

/// The entry's value, when it spells an `i64`.
pub open spec fn entry_value(d: Seq<char>) -> Option<i64> {
    match signed_value(d) {
        Some(v) => if i64::MIN <= v <= i64::MAX {
            Some(v as i64)
        } else {
            None
        },
        None => None,
    }
}

/// Reads a numeric entry (digits, optionally after a leading minus) as an
/// `i64`; `None` when it spells no number or one past the `i64` range.
pub fn parse_delta(d: &Vec<char>) -> (v: Option<i64>)
    ensures
        v == entry_value(d@),
{
    let neg = d.len() > 0 && d[0] == '-';
    let from: usize = if neg {
        1
    } else {
        0
    };
    if d.len() <= from {
        proof {
            if neg {
                assert(d@.drop_first().len() == 0);
            }
        }
        return None;
    }
    let ghost r = d@.subrange(from as int, d@.len() as int);
    proof {
        if neg {
            assert(r =~= d@.drop_first());
        } else {
            assert(r =~= d@);
        }
        assert(signed_value(d@) == if all_digits(r) {
            Some(
                if neg {
                    -decimal_value(r)
                } else {
                    decimal_value(r)
                },
            )
        } else {
            None
        });
    }
    // The magnitude may reach 2^63 (the most negative `i64`).
    let limit: u64 = if neg {
        0x8000_0000_0000_0000
    } else {
        0x7fff_ffff_ffff_ffff
    };
    let mut value: u64 = 0;
    let mut k: usize = from;
    while k < d.len()
        invariant
            from <= k <= d@.len(),
            r == d@.subrange(from as int, d@.len() as int),
            all_digits(r.subrange(0, k - from)),
            value == decimal_value(r.subrange(0, k - from)),
            value <= limit,
            limit <= 0x8000_0000_0000_0000,
            limit >= 0x7fff_ffff_ffff_ffff,
            neg == (d@.len() > 0 && d@[0] == '-'),
            limit == (if neg {
                0x8000_0000_0000_0000u64
            } else {
                0x7fff_ffff_ffff_ffffu64
            }),
            signed_value(d@) == (if all_digits(r) {
                Some(
                    if neg {
                        -decimal_value(r)
                    } else {
                        decimal_value(r)
                    },
                )
            } else {
                None
            }),
        decreases d@.len() - k,
    {
        let c = d[k];
        proof {
            assert(r[k - from] == c);
        }
        if !('0' <= c && c <= '9') {
            proof {
                assert(!is_digit(r[k - from]));
            }
            return None;
        }
        let digit: u64 = ((c as u32) - ('0' as u32)) as u64;
        proof {
            assert(r.subrange(0, k - from + 1).drop_last() =~= r.subrange(0, k - from));
            assert(r.subrange(0, k - from + 1).last() == c);
            assert forall|i: int| 0 <= i < k - from + 1 implies is_digit(
                #[trigger] r.subrange(0, k - from + 1)[i],
            ) by {
                if i < k - from {
                    assert(r.subrange(0, k - from + 1)[i] == r.subrange(0, k - from)[i]);
                }
            }
        }
        if value > (limit - digit) / 10 {
            proof {
                assert(value * 10 + digit > limit) by (nonlinear_arith)
                    requires
                        value > (limit - digit) / 10,
                        digit <= limit,
                ;
                assert(decimal_value(r.subrange(0, k - from + 1)) > limit);
                if all_digits(r) {
                    lemma_decimal_value_prefix(r, k - from + 1);
                }
            }
            return None;
        }
        proof {
            assert(value * 10 + digit <= limit) by (nonlinear_arith)
                requires
                    value <= (limit - digit) / 10,
                    digit <= limit,
            ;
        }
        value = value * 10 + digit;
        k = k + 1;
    }
    proof {
        assert(r.subrange(0, d@.len() - from) =~= r);
    }
    if neg {
        if value == 0x8000_0000_0000_0000 {
            Some(i64::MIN)
        } else {
            Some(-(value as i64))
        }
    } else {
        Some(value as i64)
    }
}

/// The entry after typing `c`: a minus only counts as the first character.
pub open spec fn typed(d: Seq<char>, c: char) -> Seq<char> {
    if c != '-' || d.len() == 0 {
        d.push(c)
    } else {
        d
    }
}

/// The move offset before the nudge: a typed character re-reads the entry
/// (keeping the offset when it spells no number).
pub open spec fn move_base_delta(digits: Seq<char>, delta: i64, digit: Option<char>) -> int {
    match digit {
        Some(c) => match entry_value(typed(digits, c)) {
            Some(v) => v as int,
            None => delta as int,
        },
        None => delta as int,
    }
}

/// The ripple offset before the nudge: a digit makes it ten times the
/// offset plus the digit (the digit always adds, so on a negative offset
/// `-5` then `3` gives `-47`), a minus flips its sign.
pub open spec fn ripple_base_delta(delta: i64, digit: Option<char>) -> int {
    match digit {
        Some(c) => if is_digit(c) {
            delta * 10 + digit_value(c)
        } else {
            -delta
        },
        None => delta as int,
    }
}

/// The ripple's digit step keeps every intermediate inside `i64`.
pub open spec fn ripple_digit_fits(delta: i64, digit: Option<char>) -> bool {
    match digit {
        Some(c) => if is_digit(c) {
            i64::MIN <= delta * 10 <= i64::MAX && i64::MIN <= ripple_base_delta(delta, digit)
                <= i64::MAX
        } else {
            delta != i64::MIN
        },
        None => true,
    }
}

/// The arrows' nudge: one tick (fifteen with `Shift`); `←` wins over `→`.
pub fn modal_nudge(right: bool, left: bool, shift: bool) -> (n: i64)
    ensures
        n == (if left {
            if shift {
                -15int
            } else {
                -1int
            }
        } else if right {
            if shift {
                15int
            } else {
                1int
            }
        } else {
            0int
        }),
{
    let step: i64 = if shift {
        15
    } else {
        1
    };
    let mut nudge: i64 = 0;
    if right {
        nudge = step;
    }
    if left {
        nudge = -step;
    }
    nudge
}

/// One frame of the in-flight transform runs without an overflow: the new
/// offset fits `i64`, every snapshotted key can shift by it, and (on commit)
/// so can every selected key.
pub open spec fn modal_ok(op: EditOp, nudge: i64, digit: Option<char>, cancel: bool, commit: bool) -> bool {
    match op {
        EditOp::Idle => true,
        EditOp::Move { saved, base, delta, digits } => cancel || {
            let d = move_base_delta(digits@, delta, digit) + nudge;
            &&& i64::MIN <= d <= i64::MAX
            &&& fits_shift(snap_view(saved@), d)
            &&& (commit ==> forall|b: int| 0 <= b < base@.len() ==> #[trigger] base@[b].tick + d <= i64::MAX)
        },
        EditOp::Ripple { saved, origin, delta } => cancel || {
            let d = ripple_base_delta(delta, digit) + nudge;
            &&& ripple_digit_fits(delta, digit)
            &&& i64::MIN <= d <= i64::MAX
            &&& fits_shift(snap_view(saved@), d)
        },
    }
}

/// The largest key tick of a snapshot (0 when it holds none).
fn max_snapshot_tick(saved: &Vec<TrackSnapshot>) -> (m: u32)
    ensures
        forall|e: int, x: int|
            0 <= e < saved@.len() && 0 <= x < saved@[e].keys@.len() ==> #[trigger] saved@[e].keys@[x].tick <= m,
        m == 0 || exists|e: int, x: int|
            0 <= e < saved@.len() && 0 <= x < saved@[e].keys@.len() && #[trigger] saved@[e].keys@[x].tick == m,
{
    let mut m: u32 = 0;
    let mut e: usize = 0;
    while e < saved.len()
        invariant
            e <= saved@.len(),
            forall|a: int, x: int|
                0 <= a < e && 0 <= x < saved@[a].keys@.len() ==> #[trigger] saved@[a].keys@[x].tick <= m,
            m == 0 || exists|a: int, x: int|
                0 <= a < saved@.len() && 0 <= x < saved@[a].keys@.len() && #[trigger] saved@[a].keys@[x].tick == m,
        decreases saved@.len() - e,
    {
        let keys = &saved[e].keys;
        let mut x: usize = 0;
        while x < keys.len()
            invariant
                e < saved@.len(),
                keys == saved@[e as int].keys,
                x <= keys@.len(),
                forall|a: int, y: int|
                    0 <= a < e && 0 <= y < saved@[a].keys@.len() ==> #[trigger] saved@[a].keys@[y].tick <= m,
                forall|y: int| 0 <= y < x ==> #[trigger] keys@[y].tick <= m,
                m == 0 || exists|a: int, y: int|
                    0 <= a < saved@.len() && 0 <= y < saved@[a].keys@.len() && #[trigger] saved@[a].keys@[y].tick == m,
            decreases keys@.len() - x,
        {
            if keys[x].tick > m {
                m = keys[x].tick;
                proof {
                    assert(saved@[e as int].keys@[x as int].tick == m);
                }
            }
            x = x + 1;
        }
        proof {
            assert forall|a: int, y: int|
                0 <= a < e + 1 && 0 <= y < saved@[a].keys@.len() implies #[trigger] saved@[a].keys@[y].tick <= m by {
                if a == e {
                    assert(keys@[y] == saved@[a].keys@[y]);
                }
            }
        }
        e = e + 1;
    }
    m
}

/// The largest selected tick (0 for an empty selection).
fn max_sel_tick(base: &Vec<SelKey>) -> (m: u32)
    ensures
        forall|b: int| 0 <= b < base@.len() ==> #[trigger] base@[b].tick <= m,
        m == 0 || exists|b: int| 0 <= b < base@.len() && #[trigger] base@[b].tick == m,
{
    let mut m: u32 = 0;
    let mut b: usize = 0;
    while b < base.len()
        invariant
            b <= base@.len(),
            forall|x: int| 0 <= x < b ==> #[trigger] base@[x].tick <= m,
            m == 0 || exists|x: int| 0 <= x < base@.len() && #[trigger] base@[x].tick == m,
        decreases base@.len() - b,
    {
        if base[b].tick > m {
            m = base[b].tick;
        }
        b = b + 1;
    }
    m
}

/// Whether this frame of the transform runs without an overflow (the caller
/// fails as an overflow would when it does not).
pub fn modal_step_safe(op: &EditOp, nudge: i64, digit: Option<char>, cancel: bool, commit: bool) -> (ok:
    bool)
    ensures
        ok == modal_ok(*op, nudge, digit, cancel, commit),
{
    match op {
        EditOp::Idle => true,
        EditOp::Move { saved, base, delta, digits } => {
            if cancel {
                return true;
            }
            let base_delta: i64 = match digit {
                Some(c) => {
                    let mut d = copy_vec(digits);
                    if c != '-' || d.len() == 0 {
                        d.push(c);
                    }
                    proof {
                        assert(d@ == typed(digits@, c));
                    }
                    match parse_delta(&d) {
                        Some(v) => v,
                        None => *delta,
                    }
                },
                None => *delta,
            };
            let d: i128 = base_delta as i128 + nudge as i128;
            if d < i64::MIN as i128 || d > i64::MAX as i128 {
                return false;
            }
            let top = max_snapshot_tick(saved);
            let fits = top as i128 + d <= i64::MAX as i128;
            proof {
                if !fits && top != 0 {
                    let (e, x) = choose|e: int, x: int|
                        0 <= e < saved@.len() && 0 <= x < saved@[e].keys@.len()
                            && #[trigger] saved@[e].keys@[x].tick == top;
                    assert(snap_view(saved@)[e].keys[x] == saved@[e].keys@[x]);
                }
                if fits {
                    assert forall|e: int, x: int|
                        0 <= e < snap_view(saved@).len() && 0 <= x < snap_view(saved@)[e].keys.len()
                            implies #[trigger] snap_view(saved@)[e].keys[x].tick + d <= i64::MAX by {
                        assert(snap_view(saved@)[e].keys[x] == saved@[e].keys@[x]);
                    }
                }
            }
            if !fits {
                return false;
            }
            if commit {
                let sel_top = max_sel_tick(base);
                sel_top as i128 + d <= i64::MAX as i128
            } else {
                true
            }
        },
        EditOp::Ripple { saved, origin, delta } => {
            if cancel {
                return true;
            }
            let base_delta: i128 = match digit {
                Some(c) => if '0' <= c && c <= '9' {
                    let times: i128 = (*delta as i128) * 10;
                    if times < i64::MIN as i128 || times > i64::MAX as i128 {
                        return false;
                    }
                    let dv: i128 = ((c as u32) - ('0' as u32)) as i128;
                    let v = times + dv;
                    if v < i64::MIN as i128 || v > i64::MAX as i128 {
                        return false;
                    }
                    v
                } else {
                    if *delta == i64::MIN {
                        return false;
                    }
                    -(*delta as i128)
                },
                None => *delta as i128,
            };
            let d: i128 = base_delta + nudge as i128;
            if d < i64::MIN as i128 || d > i64::MAX as i128 {
                return false;
            }
            let top = max_snapshot_tick(saved);
            let fits = top as i128 + d <= i64::MAX as i128;
            proof {
                if !fits && top != 0 {
                    let (e, x) = choose|e: int, x: int|
                        0 <= e < saved@.len() && 0 <= x < saved@[e].keys@.len()
                            && #[trigger] saved@[e].keys@[x].tick == top;
                    assert(snap_view(saved@)[e].keys[x] == saved@[e].keys@[x]);
                }
                if fits {
                    assert forall|e: int, x: int|
                        0 <= e < snap_view(saved@).len() && 0 <= x < snap_view(saved@)[e].keys.len()
                            implies #[trigger] snap_view(saved@)[e].keys[x].tick + d <= i64::MAX by {
                        assert(snap_view(saved@)[e].keys[x] == saved@[e].keys@[x]);
                    }
                }
            }
            fits
        },
    }
}

/// One frame of the in-flight transform. `Esc` restores the snapshot and
/// ends it; otherwise a typed character refines the offset (numeric entry
/// for a move; digit-append or sign-flip for a ripple), the arrows nudge it,
/// the preview is re-derived from the snapshot, and `Enter` ends it (a
/// committed move's selection follows its keys). Idle, nothing changes.
pub fn modal_op(
    op: &mut EditOp,
    stack: &mut LayerStack,
    selection: &mut Vec<SelKey>,
    nudge: i64,
    digit: Option<char>,
    cancel: bool,
    commit: bool,
)
    requires
        modal_ok(*old(op), nudge, digit, cancel, commit),
    ensures
        match *old(op) {
            EditOp::Idle => {
                &&& final(op).idle()
                &&& final(stack)@ == old(stack)@
                &&& final(selection)@ == old(selection)@
            },
            EditOp::Move { saved, base, delta, digits } => if cancel {
                &&& final(op).idle()
                &&& final(stack)@ == restore_spec(
                    old(stack)@,
                    snap_view(saved@),
                    saved@.len() as int,
                )
                &&& final(selection)@ == old(selection)@
            } else {
                let d = move_base_delta(digits@, delta, digit) + nudge;
                let snap = snap_view(saved@);
                &&& keys_only_changed(final(stack)@, old(stack)@, snap)
                &&& forall|e: int|
                    0 <= e < snap.len() && last_entry(snap, e, snap.len() as int) ==> #[trigger] shows_move(
                        final(stack)@,
                        snap[e],
                        base@,
                        None,
                        d,
                    )
                &&& if commit {
                    &&& final(op).idle()
                    &&& final(selection)@ == shifted_sel(base@, d)
                } else {
                    &&& final(selection)@ == old(selection)@
                    &&& *final(op) matches EditOp::Move { saved: o2, base: b2, delta: d2, digits: g2 }
                    &&& o2@ == saved@
                    &&& b2@ == base@
                    &&& d2 == d
                    &&& g2@ == match digit {
                        Some(c) => typed(digits@, c),
                        None => digits@,
                    }
                }
            },
            EditOp::Ripple { saved, origin, delta } => if cancel {
                &&& final(op).idle()
                &&& final(stack)@ == restore_spec(
                    old(stack)@,
                    snap_view(saved@),
                    saved@.len() as int,
                )
                &&& final(selection)@ == old(selection)@
            } else {
                let d = ripple_base_delta(delta, digit) + nudge;
                let snap = snap_view(saved@);
                &&& keys_only_changed(final(stack)@, old(stack)@, snap)
                &&& forall|e: int|
                    0 <= e < snap.len() && last_entry(snap, e, snap.len() as int) ==> #[trigger] shows_move(
                        final(stack)@,
                        snap[e],
                        Seq::<SelKey>::empty(),
                        Some(origin),
                        d,
                    )
                &&& final(selection)@ == old(selection)@
                &&& if commit {
                    final(op).idle()
                } else {
                    &&& *final(op) matches EditOp::Ripple { saved: o2, origin: r2, delta: d2 }
                    &&& o2@ == saved@
                    &&& r2 == origin
                    &&& d2 == d
                }
            },
        },
{
    let mut current = EditOp::Idle;
    std::mem::swap(&mut current, op);
    match current {
        EditOp::Idle => {},
        EditOp::Move { saved, base, delta, digits } => {
            if cancel {
                restore(stack, &saved);
                return;
            }
            let mut digits = digits;
            let mut delta = delta;
            match digit {
                Some(c) => {
                    if c != '-' || digits.len() == 0 {
                        digits.push(c);
                    }
                    match parse_delta(&digits) {
                        Some(v) => {
                            delta = v;
                        },
                        None => {},
                    }
                },
                None => {},
            }
            delta = delta + nudge;
            apply_move(stack, &saved, base.as_slice(), delta);
            if commit {
                let moved = shift_selection(&base, delta);
                *selection = moved;
            } else {
                *op = EditOp::Move { saved, base, delta, digits };
            }
        },
        EditOp::Ripple { saved, origin, delta } => {
            if cancel {
                restore(stack, &saved);
                return;
            }
            let mut delta = delta;
            match digit {
                Some(c) => {
                    if '0' <= c && c <= '9' {
                        let dv: i64 = ((c as u32) - ('0' as u32)) as i64;
                        delta = delta * 10 + dv;
                    } else {
                        delta = -delta;
                    }
                },
                None => {},
            }
            delta = delta + nudge;
            apply_ripple(stack, &saved, origin, delta);
            if !commit {
                *op = EditOp::Ripple { saved, origin, delta };
            }
        },
    }
}

/// `G`: starts moving the selection (the snapshot makes `Esc` exact).
pub fn start_move(stack: &LayerStack, selection: &Vec<SelKey>) -> (op: EditOp)
    ensures
        op matches EditOp::Move { saved, base, delta, digits } && snap_view(saved@)
            == snapshot_spec(stack@, selection@, selection@.len() as int) && base@ == selection@
            && delta == 0 && digits@.len() == 0,
{
    let saved = snapshot(stack, selection.as_slice());
    let base = crate::timeline::copy_vec(selection);
    EditOp::Move { saved, base, delta: 0, digits: Vec::new() }
}

/// `Shift+W`: starts a ripple from the playhead over every key of the
/// focused layer (every layer without a focus).
pub fn start_ripple(stack: &LayerStack, focus: Option<LayerId>, playhead: u32) -> (op: EditOp)
    ensures
        op matches EditOp::Ripple { saved, origin, delta } && snap_view(saved@) == ({
            let scope = collect_spec(stack@, stack@.len() as int, focus, None);
            snapshot_spec(stack@, scope, scope.len() as int)
        }) && origin == playhead && delta == 0,
{
    let scope = collect_keys(stack, focus, None);
    let saved = snapshot(stack, scope.as_slice());
    EditOp::Ripple { saved, origin: playhead, delta: 0 }
}

} // verus!

//! The entity browser's virtualized row window and keyboard navigation: a
//! fixed pool of mounted rows follows the scroll position, re-mounting only
//! when the visible rows leave the mounted window.

use vstd::prelude::*;

verus! {

/// Rows beyond the viewport mounted on each side.
pub const OVERSCAN: usize = 10;

/// Pool size: the visible rows plus overscan on both sides.
pub const POOL: usize = 39;

/// Rows visible at once (`POOL - 2 * OVERSCAN`).
pub const VISIBLE: usize = 19;

/// The window mounted from scratch around `scroll_row`.
pub open spec fn fresh_window(scroll_row: usize, len: usize) -> (usize, usize) {
    let start: usize = if scroll_row >= OVERSCAN {
        (scroll_row - OVERSCAN) as usize
    } else {
        0
    };
    let end: usize = if start + POOL <= len {
        (start + POOL) as usize
    } else {
        len
    };
    (start, end)
}

/// The visible rows at `scroll_row` still sit inside the mounted `(start,
/// end)` with overscan slack (none above a window that starts at the top).
pub open spec fn still_inside(scroll_row: usize, len: usize, start: usize, end: usize) -> bool {
    let slack: int = if start == 0 {
        0
    } else {
        (OVERSCAN / 2) as int
    };
    &&& scroll_row >= start + slack
    &&& scroll_row + VISIBLE <= end - OVERSCAN / 2
    &&& end <= len
}

/// Which row range should be mounted for `scroll_row`, given `len` rows and
/// the currently mounted range: unchanged while the visible rows stay inside
/// it, else a fresh window around the scroll row, capped at `len`.
pub fn window_range(scroll_row: usize, len: usize, current: Option<(usize, usize)>) -> (r: (
    usize,
    usize,
))
    requires
        scroll_row + POOL <= usize::MAX,
        current matches Some((start, _)) ==> start + OVERSCAN / 2 <= usize::MAX,
    ensures
        r == (match current {
            Some((start, end)) => if still_inside(scroll_row, len, start, end) {
                (start, end)
            } else {
                fresh_window(scroll_row, len)
            },
            None => fresh_window(scroll_row, len),
        }),
{
    if let Some((start, end)) = current {
        let slack: usize = if start == 0 {
            0
        } else {
            OVERSCAN / 2
        };
        let lower: usize = if end >= OVERSCAN / 2 {
            end - OVERSCAN / 2
        } else {
            0
        };
        let inside = scroll_row >= start + slack && scroll_row + VISIBLE <= lower && end <= len;
        if inside {
            return (start, end);
        }
    }
    let start: usize = if scroll_row >= OVERSCAN {
        scroll_row - OVERSCAN
    } else {
        0
    };
    let end: usize = if start + POOL <= len {
        start + POOL
    } else {
        len
    };
    (start, end)
}

/// Whatever was mounted before, the mounted window covers every visible row
/// (those of `scroll_row .. scroll_row + VISIBLE` that exist), and a window
/// mounted from scratch never holds more than `POOL` rows.
pub proof fn law_window_covers_visible_rows(
    scroll_row: usize,
    len: usize,
    current: Option<(usize, usize)>,
)
    ensures
        ({
            let r = match current {
                Some((start, end)) => if still_inside(scroll_row, len, start, end) {
                    (start, end)
                } else {
                    fresh_window(scroll_row, len)
                },
                None => fresh_window(scroll_row, len),
            };
            &&& r.0 <= scroll_row
            &&& (if scroll_row + VISIBLE <= len {
                scroll_row + VISIBLE
            } else {
                len as int
            }) <= r.1
            &&& r.1 <= len
        }),
        fresh_window(scroll_row, len).1 - fresh_window(scroll_row, len).0 <= POOL,
{
}

/// A navigation key of the browser's list.
#[derive(Clone, Copy, PartialEq, Eq, Debug, Structural)]
pub enum NavKey {
    Down,
    Up,
    Home,
    End,
}

/// The last row index of a `len`-row list (0 when empty).
pub open spec fn last_row(len: usize) -> usize {
    if len == 0 {
        0
    } else {
        (len - 1) as usize
    }
}

/// The focused row after `key`: one down (stopping at the last row), one up
/// (stopping at the first), or to either end.
pub fn move_focus(focused: usize, len: usize, key: NavKey) -> (f: usize)
    requires
        focused < usize::MAX,
    ensures
        f == (match key {
            NavKey::Down => if focused + 1 <= last_row(len) {
                (focused + 1) as usize
            } else {
                last_row(len)
            },
            NavKey::Up => if focused == 0 {
                0
            } else {
                (focused - 1) as usize
            },
            NavKey::Home => 0,
            NavKey::End => last_row(len),
        }),
{
    let last: usize = if len == 0 {
        0
    } else {
        len - 1
    };
    match key {
        NavKey::Down => if focused + 1 <= last {
            focused + 1
        } else {
            last
        },
        NavKey::Up => if focused == 0 {
            0
        } else {
            focused - 1
        },
        NavKey::Home => 0,
        NavKey::End => last,
    }
}

/// Scrolls the minimum distance that keeps the focused row in view.
pub fn keep_in_view(focused: usize, scroll_row: usize) -> (s: usize)
    requires
        scroll_row + VISIBLE <= usize::MAX,
    ensures
        s <= focused < s + VISIBLE,
        scroll_row <= focused < scroll_row + VISIBLE ==> s == scroll_row,
        focused < scroll_row ==> s == focused,
        focused >= scroll_row + VISIBLE ==> s == focused - VISIBLE + 1,
{
    if focused < scroll_row {
        focused
    } else if focused >= scroll_row + VISIBLE {
        focused - VISIBLE + 1
    } else {
        scroll_row
    }
}

} // verus!

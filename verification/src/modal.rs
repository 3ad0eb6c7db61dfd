//! The choice modal: a prompt with numbered options. Opening one latches
//! (one modal at a time) and freezes the arena's clock; digits pick an
//! option outright, `Enter`/`Space` confirm the focused one, `Esc` picks
//! "Cancel" where offered, and the arrows or `Tab` move the focus around.

use vstd::prelude::*;

use crate::recording::Choice;
use crate::timeline::ArenaClock;
use crate::versions::{chars_of, count_digits, decimal_digits, string_from_chars};

verus! {

/// The open modal: its options in order, the focused one, and whether it
/// opened this frame (the key press that opened it must not also drive it).
pub struct ModalState {
    pub options: Vec<Choice>,
    pub focused: usize,
    pub just_opened: bool,
}

impl ModalState {
    /// The modal has an option and focuses one of them.
    pub open spec fn wf(&self) -> bool {
        0 <= self.focused < self.options@.len()
    }
}

/// Opens a modal with `options`, focusing `focused` (the last option when
/// out of range). With another modal already latched nothing happens.
pub fn open_modal(latch: &mut bool, clock: &mut ArenaClock, options: Vec<Choice>, focused: usize) -> (m:
    Option<ModalState>)
    ensures
        *old(latch) ==> m is None && *final(latch) && *final(clock) == *old(clock),
        !*old(latch) ==> {
            &&& *final(latch)
            &&& final(clock).paused
            &&& final(clock).tick == old(clock).tick
            &&& m matches Some(s) && s.options@ == options@ && s.just_opened && s.focused == (if focused
                + 1 <= options@.len() {
                focused as int
            } else if options@.len() == 0 {
                0
            } else {
                options@.len() - 1
            })
        },
        options@.len() > 0 ==> (m matches Some(s) ==> s.wf()),
{
    if *latch {
        return None;
    }
    *latch = true;
    clock.paused = true;
    let last: usize = if options.len() == 0 {
        0
    } else {
        options.len() - 1
    };
    let f = if focused < last {
        focused
    } else {
        last
    };
    Some(ModalState { options, focused: f, just_opened: true })
}

/// What the player pressed while a modal is open.
#[derive(Clone, Copy, PartialEq, Eq, Debug, Structural)]
pub struct ModalInput {
    /// The first of the digit keys `1`-`9` pressed, as an option index.
    pub digit: Option<usize>,
    /// `Enter`, keypad `Enter` or `Space`.
    pub confirm: bool,
    /// `Esc`.
    pub escape: bool,
    /// `→`, or `Tab` without `Shift`.
    pub next: bool,
    /// `←`, or `Tab` with `Shift`.
    pub prev: bool,
}

/// The focus after the arrows: one on (wrapping), then one back.
pub open spec fn moved_focus(f: int, count: int, next: bool, prev: bool) -> int {
    let a = if next {
        (f + 1) % count
    } else {
        f
    };
    if prev {
        (a + count - 1) % count
    } else {
        a
    }
}

/// Handles one frame of modal input: the choice made, if any. The frame the
/// modal opened is swallowed.
pub fn modal_keys(modal: &mut ModalState, input: ModalInput) -> (choice: Option<Choice>)
    requires
        old(modal).wf(),
    ensures
        final(modal).wf(),
        final(modal).options@ == old(modal).options@,
        !final(modal).just_opened,
        ({
            let opts = old(modal).options@;
            let count = opts.len() as int;
            if old(modal).just_opened {
                choice is None && final(modal).focused == old(modal).focused
            } else if input.digit is Some && input.digit->0 < 9 && input.digit->0 < count {
                choice == Some(opts[input.digit->0 as int]) && final(modal).focused == old(modal).focused
            } else if input.confirm {
                choice == Some(opts[old(modal).focused as int]) && final(modal).focused == old(
                    modal,
                ).focused
            } else if input.escape && opts.contains(Choice::Cancel) {
                choice == Some(Choice::Cancel) && final(modal).focused == old(modal).focused
            } else {
                &&& choice is None
                &&& final(modal).focused == moved_focus(
                    old(modal).focused as int,
                    count,
                    input.next,
                    input.prev,
                )
            }
        }),
{
    if modal.just_opened {
        modal.just_opened = false;
        return None;
    }
    let count = modal.options.len();
    match input.digit {
        Some(d) => {
            if d < 9 && d < count {
                return Some(modal.options[d]);
            }
        },
        None => {},
    }
    if input.confirm {
        return Some(modal.options[modal.focused]);
    }
    if input.escape {
        let mut i: usize = 0;
        while i < count
            invariant
                i <= count,
                count == modal.options@.len(),
                modal.options@ == old(modal).options@,
                modal.focused == old(modal).focused,
                modal.focused < count,
                !modal.just_opened,
                !old(modal).just_opened,
                input.escape,
                !input.confirm,
                !(input.digit is Some && input.digit->0 < 9 && input.digit->0 < count),
                forall|x: int| 0 <= x < i ==> modal.options@[x] != Choice::Cancel,
            decreases count - i,
        {
            if modal.options[i] == Choice::Cancel {
                proof {
                    assert(modal.options@.contains(Choice::Cancel));
                }
                return Some(Choice::Cancel);
            }
            i = i + 1;
        }
        proof {
            if modal.options@.contains(Choice::Cancel) {
                let w = choose|w: int| 0 <= w < modal.options@.len() && modal.options@[w] == Choice::Cancel;
                assert(modal.options@[w] != Choice::Cancel);
            }
        }
    }
    let ghost f0 = modal.focused as int;
    if input.next {
        modal.focused = (modal.focused + 1) % count;
    }
    if input.prev {
        modal.focused = if modal.focused == 0 {
            count - 1
        } else {
            modal.focused - 1
        };
    }
    proof {
        let c = count as int;
        let a = if input.next {
            (f0 + 1) % c
        } else {
            f0
        };
        assert(0 <= a < c) by (nonlinear_arith)
            requires
                0 <= f0 < c,
                a == (if input.next {
                    (f0 + 1) % c
                } else {
                    f0
                }),
        ;
        if input.prev {
            assert((a + c - 1) % c == (if a == 0 {
                c - 1
            } else {
                a - 1
            })) by (nonlinear_arith)
                requires
                    0 <= a < c,
            ;
        }
    }
    None
}

/// The modal's hint bar, built from its actual options so it never
/// advertises a key that does nothing: the digit range, focus, confirm, and
/// `[esc] cancel` only when a Cancel option is offered.
pub open spec fn hint_text(options: Seq<Choice>) -> Seq<char> {
    "[1-"@ + decimal_digits(options.len()) + "] choose   [\u{2190}/\u{2192}] focus   [enter/space] confirm"@ + if options.contains(
        Choice::Cancel,
    ) {
        "   [esc] cancel"@
    } else {
        Seq::empty()
    }
}

/// The hint bar under a modal's options.
pub fn modal_hint(options: &Vec<Choice>) -> (s: String)
    ensures
        s@ == hint_text(options@),
{
    let mut chars = chars_of("[1-");
    chars.append(&mut count_digits(options.len()));
    chars.append(&mut chars_of("] choose   [\u{2190}/\u{2192}] focus   [enter/space] confirm"));
    let mut cancel = false;
    let mut i: usize = 0;
    while i < options.len()
        invariant
            i <= options@.len(),
            cancel <==> exists|k: int| 0 <= k < i && options@[k] == Choice::Cancel,
        decreases options@.len() - i,
    {
        if options[i] == Choice::Cancel {
            cancel = true;
        }
        i = i + 1;
    }
    if cancel {
        chars.append(&mut chars_of("   [esc] cancel"));
    }
    proof {
        assert(chars@ =~= hint_text(options@));
    }
    string_from_chars(&chars)
}

} // verus!

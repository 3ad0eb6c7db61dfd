//! Score sync, files to world: the decisions that keep a running arena on
//! the newest published layer stack. The disk check runs on an arena's first
//! sight, at its cycle wrap, and when the active difficulty changes; an
//! unsaved draft for the active difficulty is never overwritten; a failed
//! read keeps the same difficulty's stack playing but never lets another
//! difficulty's stack survive a swap.

use vstd::prelude::*;

use crate::encounter::Difficulty;
use crate::layer::{effective_upto, KindModel, LayerId, LayerKind, LayerModel, LayerStack};
use crate::recording::RecordingState;
use crate::timeline::{ArenaClock, Recording};

verus! {

/// What an arena's ledger records: the version folded, and the difficulty it
/// was loaded for (`None`: nothing published).
pub type Ledger = Option<(Difficulty, u32)>;

/// Whether the sync looks at an arena this tick.
#[derive(Clone, Copy, PartialEq, Eq, Debug, Structural)]
pub enum Gate {
    /// Not a sync point.
    Skip,
    /// The author's unsaved draft for this difficulty stands: warn, keep it.
    KeepDraft,
    /// Read the disk and decide.
    Check,
}

/// The arena is at a sync point: first sight, a difficulty swap, or its cycle
/// wrap (tick 0 and running: a countdown hold or modal freeze is no wrap).
pub open spec fn at_sync_point(fresh: bool, difficulty_changed: bool, clock: ArenaClock) -> bool {
    fresh || difficulty_changed || (clock.tick == 0 && !clock.paused)
}

/// Decides whether the sync reads the disk for an arena. `ledger` is the
/// arena's entry (absent and "nothing published" both count as `None`);
/// `draft_dirty` whether its loaded stack has unsaved edits.
pub fn sync_gate(
    fresh: bool,
    difficulty_changed: bool,
    clock: &ArenaClock,
    ledger: Ledger,
    draft_dirty: bool,
    difficulty: Difficulty,
) -> (g: Gate)
    ensures
        g == (if !at_sync_point(fresh, difficulty_changed, *clock) {
            Gate::Skip
        } else if draft_dirty && (match ledger {
            Some((d, _)) => d == difficulty,
            None => true,
        }) {
            Gate::KeepDraft
        } else {
            Gate::Check
        }),
{
    if !(fresh || difficulty_changed || (clock.tick == 0 && !clock.paused)) {
        return Gate::Skip;
    }
    let owns = match ledger {
        Some((d, _)) => d == difficulty,
        None => true,
    };
    if draft_dirty && owns {
        Gate::KeepDraft
    } else {
        Gate::Check
    }
}

/// What reading an arena's encounter directory gave.
#[derive(Clone, Copy, PartialEq, Eq, Debug, Structural)]
pub enum ReadOutcome {
    /// The newest published stack has this version.
    Published(u32),
    /// Nothing is published.
    Unpublished,
    /// The newest file could not be read or validated.
    Unreadable,
}

/// The boss needs its committed take put back: the stack holds a boss layer
/// but the boss is not a ghost, and neither a possession nor a recording is
/// unfolding it on purpose.
pub open spec fn rescue_spec(
    stack_has_boss: bool,
    boss: Option<(bool, bool)>,
    recording: RecordingState,
) -> bool {
    match boss {
        Some((has_ghost, possessed)) => stack_has_boss && !has_ghost && !possessed && recording
            == RecordingState::Idle,
        None => false,
    }
}

/// Whether the boss (`Some((is ghost, is possessed))`) needs rescuing.
pub fn needs_rescue(stack_has_boss: bool, boss: Option<(bool, bool)>, recording: RecordingState) -> (r:
    bool)
    ensures
        r == rescue_spec(stack_has_boss, boss, recording),
{
    match boss {
        Some((has_ghost, possessed)) => stack_has_boss && !has_ghost && !possessed && match recording {
            RecordingState::Idle => true,
            _ => false,
        },
        None => false,
    }
}

/// The ledger an arena moves to, or `None` when nothing changes.
pub open spec fn sync_target_spec(
    ledger: Ledger,
    difficulty: Difficulty,
    read: ReadOutcome,
    rescue: bool,
) -> Option<Ledger> {
    let incoming: Option<Ledger> = match read {
        ReadOutcome::Published(v) => Some(Some((difficulty, v))),
        ReadOutcome::Unpublished => Some(None),
        ReadOutcome::Unreadable => match ledger {
            Some((d, _)) => if d != difficulty {
                Some(None)
            } else {
                None
            },
            None => None,
        },
    };
    match incoming {
        Some(want) => if want == ledger && !rescue {
            None
        } else {
            Some(want)
        },
        None => None,
    }
}

/// Decides the swap after a disk read: `Some(Some((d, v)))` folds version
/// `v` (loaded for `d`), `Some(None)` unfolds everything (nothing published,
/// or another difficulty's stack that must not survive), `None` leaves the
/// arena as it is (up to date, or a same-difficulty read failed).
pub fn sync_target(ledger: Ledger, difficulty: Difficulty, read: ReadOutcome, rescue: bool) -> (t:
    Option<Ledger>)
    ensures
        t == sync_target_spec(ledger, difficulty, read, rescue),
{
    let incoming: Option<Ledger> = match read {
        ReadOutcome::Published(v) => Some(Some((difficulty, v))),
        ReadOutcome::Unpublished => Some(None),
        ReadOutcome::Unreadable => match ledger {
            Some((d, _)) => if d != difficulty {
                Some(None)
            } else {
                None
            },
            None => None,
        },
    };
    match incoming {
        Some(want) => {
            let same = match (want, ledger) {
                (Some((d1, v1)), Some((d2, v2))) => d1 == d2 && v1 == v2,
                (None, None) => true,
                _ => false,
            };
            if same && !rescue {
                None
            } else {
                Some(want)
            }
        },
        None => None,
    }
}

/// A failed read of the active difficulty's own newer stack never disturbs
/// what is playing, and an up-to-date ledger with no rescue due is left
/// alone; a failed read while another difficulty's stack is loaded always
/// unfolds it.
pub proof fn law_failed_reads_are_safe(ledger: Ledger, difficulty: Difficulty, rescue: bool)
    ensures
        (match ledger {
            Some((d, _)) => d == difficulty,
            None => true,
        }) ==> sync_target_spec(ledger, difficulty, ReadOutcome::Unreadable, rescue) is None,
        (match ledger {
            Some((d, _)) => d != difficulty,
            None => false,
        }) ==> sync_target_spec(ledger, difficulty, ReadOutcome::Unreadable, rescue) == Some(
            None::<(Difficulty, u32)>,
        ),
        !rescue ==> sync_target_spec(
            Some((difficulty, 7)),
            difficulty,
            ReadOutcome::Published(7),
            rescue,
        ) is None,
{
}

/// The position of the first effective boss layer among the effective
/// positions `eff`.
pub open spec fn first_boss(s: Seq<LayerModel>, eff: Seq<int>) -> Option<int>
    decreases eff.len(),
{
    if eff.len() == 0 {
        None
    } else {
        match first_boss(s, eff.drop_last()) {
            Some(i) => Some(i),
            None => if s[eff.last()].kind is Boss {
                Some(eff.last())
            } else {
                None
            },
        }
    }
}

/// Finds the first effective boss layer of `stack`: its id and staff.
pub fn boss_layer(stack: &LayerStack) -> (r: Option<(LayerId, Recording)>)
    ensures
        match first_boss(stack@, effective_upto(stack@, stack@.len() as int)) {
            Some(i) => r matches Some((id, rec)) && id == stack@[i].id && stack@[i].kind
                == KindModel::Boss(rec@),
            None => r is None,
        },
{
    let eff = stack.effective();
    let ghost e = effective_upto(stack@, stack@.len() as int);
    proof {
        crate::layer::lemma_effective_upto_bounds(stack@, stack@.len() as int);
    }
    let mut k: usize = 0;
    while k < eff.len()
        invariant
            k <= eff@.len(),
            eff@.map_values(|i: usize| i as int) == e,
            e == effective_upto(stack@, stack@.len() as int),
            forall|x: int| 0 <= x < e.len() ==> 0 <= #[trigger] e[x] < stack@.len(),
            first_boss(stack@, e.subrange(0, k as int)) is None,
            stack@.len() == stack.layers@.len(),
        decreases eff@.len() - k,
    {
        let i = eff[k];
        proof {
            assert(e[k as int] == i as int);
            assert(e.subrange(0, k + 1).drop_last() =~= e.subrange(0, k as int));
            assert(stack@[i as int] == stack.layers@[i as int]@);
        }
        match &stack.layers[i].kind {
            LayerKind::Boss(rec) => {
                let copy = rec.copy();
                proof {
                    lemma_first_boss_prefix(stack@, e, k as int + 1);
                }
                return Some((stack.layers[i].id, copy));
            },
            _ => {},
        }
        k = k + 1;
    }
    proof {
        assert(e.subrange(0, e.len() as int) =~= e);
    }
    None
}

/// Once a prefix of `eff` holds a boss layer, the whole of `eff` finds it.
pub proof fn lemma_first_boss_prefix(s: Seq<LayerModel>, eff: Seq<int>, k: int)
    requires
        0 <= k <= eff.len(),
        first_boss(s, eff.subrange(0, k)) is Some,
    ensures
        first_boss(s, eff) == first_boss(s, eff.subrange(0, k)),
    decreases eff.len() - k,
{
    if k < eff.len() {
        assert(eff.subrange(0, k + 1).drop_last() =~= eff.subrange(0, k));
        lemma_first_boss_prefix(s, eff, k + 1);
    } else {
        assert(eff.subrange(0, k) =~= eff);
    }
}

/// The timeline bindings a loaded stack gets: its first effective boss layer
/// drives the arena's boss (when the arena has one); minion layers stay
/// unbound until minions are spawned.
pub fn boss_bindings(layer: &Option<(LayerId, Recording)>, boss: Option<u64>) -> (b: Vec<(LayerId, u64)>)
    ensures
        b@ == (match (boss, *layer) {
            (Some(e), Some((id, _))) => seq![(id, e)],
            _ => Seq::empty(),
        }),
{
    match (boss, layer) {
        (Some(e), Some((id, _))) => vec![(*id, e)],
        _ => Vec::new(),
    }
}

/// A newer (or any other) published version for the loaded difficulty is
/// folded in: when the read finds version `b` and the arena holds version
/// `a != b` of the same difficulty, the arena moves to `b`, rescue or not.
/// Only the very version already loaded, with no rescue due, is left alone.
pub proof fn law_a_moved_version_is_folded_in(d: Difficulty, a: u32, b: u32, rescue: bool)
    ensures
        a != b ==> sync_target_spec(Some((d, a)), d, ReadOutcome::Published(b), rescue) == Some(
            Some((d, b)),
        ),
        sync_target_spec(Some((d, a)), d, ReadOutcome::Published(a), rescue) == if rescue {
            Some(Some((d, a)))
        } else {
            None
        },
{
}

} // verus!

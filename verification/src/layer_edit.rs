//! Layer CRUD on an arena's draft stack — the one funnel for editing the
//! authoring layers. Each edit reports whether it changed anything, which is
//! what decides the follow-ups ([`edit_notice`]): a persisted change (rename,
//! mute, create, delete) is a save; a change of what plays (mute, solo,
//! create, delete) re-folds the preview; a lock is session UI and triggers
//! neither.

use vstd::prelude::*;

use crate::layer::{lemma_position_of_from, position_of, Layer, LayerId, LayerModel, LayerStack};

verus! {

/// Puts `layer` in place of the layer at `i`.
fn replace_at(stack: &mut LayerStack, i: usize, layer: Layer)
    requires
        i < old(stack).layers@.len(),
    ensures
        final(stack)@ == old(stack)@.update(i as int, layer@),
{
    let ghost before = stack.layers@;
    let _ = stack.layers.remove(i);
    stack.layers.insert(i, layer);
    proof {
        assert(stack.layers@ =~= before.update(i as int, layer));
        assert(stack@ =~= old(stack)@.update(i as int, layer@));
    }
}

/// Renames layer `id` (the authoring alias only — never its id). Returns
/// whether the name actually changed (a save).
pub fn rename(stack: &mut LayerStack, id: LayerId, name: &str) -> (changed: bool)
    ensures
        match position_of(old(stack)@, id) {
            Some(i) => if old(stack)@[i].name != name@ {
                changed && final(stack)@ == old(stack)@.update(
                    i,
                    LayerModel { name: name@, ..old(stack)@[i] },
                )
            } else {
                !changed && final(stack)@ == old(stack)@
            },
            None => !changed && final(stack)@ == old(stack)@,
        },
{
    proof {
        lemma_position_of_from(stack@, id, 0);
    }
    match stack.position(id) {
        Some(i) => {
            let n = name.to_owned();
            if stack.layers[i].name == n {
                return false;
            }
            proof {
                assert(stack@.len() == stack.layers@.len());
            }
            let mut layer = stack.layers[i].copy();
            layer.name = n;
            replace_at(stack, i, layer);
            proof {
                assert(layer@ =~= LayerModel { name: name@, ..old(stack)@[i as int] });
            }
            true
        },
        None => false,
    }
}

/// Which of a layer's switches a toggle flips.
#[derive(Clone, Copy, PartialEq, Eq, Debug, Structural)]
pub enum Switch {
    /// Persisted: a save and a re-fold.
    Muted,
    /// Session UI: a re-fold only.
    Solo,
    /// Session UI: neither.
    Locked,
}

/// `l` with `switch` flipped.
pub open spec fn flipped(l: LayerModel, switch: Switch) -> LayerModel {
    match switch {
        Switch::Muted => LayerModel { muted: !l.muted, ..l },
        Switch::Solo => LayerModel { solo: !l.solo, ..l },
        Switch::Locked => LayerModel { locked: !l.locked, ..l },
    }
}

/// Flips one switch of layer `id`. Returns whether the layer exists (and so
/// was flipped).
pub fn toggle(stack: &mut LayerStack, id: LayerId, switch: Switch) -> (found: bool)
    ensures
        match position_of(old(stack)@, id) {
            Some(i) => found && final(stack)@ == old(stack)@.update(
                i,
                flipped(old(stack)@[i], switch),
            ),
            None => !found && final(stack)@ == old(stack)@,
        },
{
    proof {
        lemma_position_of_from(stack@, id, 0);
    }
    match stack.position(id) {
        Some(i) => {
            proof {
                assert(stack@.len() == stack.layers@.len());
            }
            let mut layer = stack.layers[i].copy();
            match switch {
                Switch::Muted => layer.muted = !layer.muted,
                Switch::Solo => layer.solo = !layer.solo,
                Switch::Locked => layer.locked = !layer.locked,
            }
            replace_at(stack, i, layer);
            proof {
                assert(layer@ =~= flipped(old(stack)@[i as int], switch));
            }
            true
        },
        None => false,
    }
}

/// A committed edit of an arena's draft stack.
#[derive(Clone, Copy, PartialEq, Eq, Debug, Structural)]
pub enum LayerEdit {
    Rename,
    Toggle(Switch),
    Delete,
    Create,
}

/// What a committed edit announces: a save for a persisted change, a
/// preview re-fold for a change of what plays.
#[derive(Clone, Copy, PartialEq, Eq, Debug, Structural)]
pub struct EditNotice {
    pub saved: bool,
    pub refold: bool,
}

/// The follow-ups of an edit that did (`changed`) or did not change the
/// draft. Rename, mute, create and delete persist, so they save; mute, solo,
/// create and delete change what plays, so they re-fold; a lock is session
/// UI and announces nothing, and neither does an edit that changed nothing.
pub fn edit_notice(edit: LayerEdit, changed: bool) -> (n: EditNotice)
    ensures
        n.saved == (changed && match edit {
            LayerEdit::Toggle(s) => s == Switch::Muted,
            _ => true,
        }),
        n.refold == (changed && match edit {
            LayerEdit::Rename => false,
            LayerEdit::Toggle(s) => s != Switch::Locked,
            _ => true,
        }),
{
    if !changed {
        return EditNotice { saved: false, refold: false };
    }
    match edit {
        LayerEdit::Rename => EditNotice { saved: true, refold: false },
        LayerEdit::Toggle(Switch::Muted) => EditNotice { saved: true, refold: true },
        LayerEdit::Toggle(Switch::Solo) => EditNotice { saved: false, refold: true },
        LayerEdit::Toggle(Switch::Locked) => EditNotice { saved: false, refold: false },
        LayerEdit::Delete => EditNotice { saved: true, refold: true },
        LayerEdit::Create => EditNotice { saved: true, refold: true },
    }
}

/// `s` without the layers whose id is `id`, in order.
pub open spec fn without_layer(s: Seq<LayerModel>, id: LayerId) -> Seq<LayerModel>
    decreases s.len(),
{
    if s.len() == 0 {
        Seq::empty()
    } else if s.last().id == id {
        without_layer(s.drop_last(), id)
    } else {
        without_layer(s.drop_last(), id).push(s.last())
    }
}

/// Removes layer `id` from the draft. Returns whether a layer was removed.
pub fn delete(stack: &mut LayerStack, id: LayerId) -> (removed: bool)
    ensures
        final(stack)@ == without_layer(old(stack)@, id),
        removed == (final(stack)@.len() != old(stack)@.len()),
        removed == (position_of(old(stack)@, id) is Some),
{
    let ghost before = stack@;
    let mut kept: Vec<Layer> = Vec::new();
    let mut i: usize = 0;
    let n = stack.layers.len();
    while i < n
        invariant
            n == stack.layers@.len(),
            stack@ == before,
            i <= n,
            crate::layer::layers_view(kept@) == without_layer(before.subrange(0, i as int), id),
        decreases n - i,
    {
        proof {
            assert(before.subrange(0, i + 1).drop_last() =~= before.subrange(0, i as int));
            assert(before.subrange(0, i + 1).last() == stack.layers@[i as int]@);
        }
        if stack.layers[i].id != id {
            kept.push(stack.layers[i].copy());
            proof {
                assert(crate::layer::layers_view(kept@) =~= without_layer(
                    before.subrange(0, i as int),
                    id,
                ).push(stack.layers@[i as int]@));
            }
        }
        i = i + 1;
    }
    proof {
        assert(before.subrange(0, n as int) =~= before);
        lemma_without_layer_len(before, id);
    }
    stack.layers = kept;
    let removed = stack.layers.len() != n;
    proof {
        assert(stack@.len() == stack.layers@.len());
    }
    removed
}

/// Removing a layer keeps the others, and shortens the stack exactly when
/// the layer was there.
pub proof fn lemma_without_layer_len(s: Seq<LayerModel>, id: LayerId)
    ensures
        without_layer(s, id).len() <= s.len(),
        (without_layer(s, id).len() == s.len()) <==> position_of(s, id) is None,
    decreases s.len(),
{
    if s.len() > 0 {
        lemma_without_layer_len(s.drop_last(), id);
        lemma_position_prefix(s, id);
    }
}

/// Where an id first occurs in `s` relative to `s` without its last layer.
pub proof fn lemma_position_prefix(s: Seq<LayerModel>, id: LayerId)
    requires
        s.len() > 0,
    ensures
        (position_of(s, id) is None) <==> (position_of(s.drop_last(), id) is None && s.last().id
            != id),
{
    lemma_position_from_prefix(s, id, 0);
}

pub proof fn lemma_position_from_prefix(s: Seq<LayerModel>, id: LayerId, from: int)
    requires
        s.len() > 0,
        0 <= from <= s.len(),
    ensures
        (crate::layer::position_of_from(s, id, from) is None) <==> (
        crate::layer::position_of_from(s.drop_last(), id, from) is None && (from <= s.len() - 1
            ==> s.last().id != id)),
    decreases s.len() - from,
{
    if from < s.len() {
        if from < s.len() - 1 {
            assert(s.drop_last()[from] == s[from]);
            lemma_position_from_prefix(s, id, from + 1);
        }
    }
}

/// Deleting a layer leaves no layer with its id behind.
pub proof fn law_deleted_layer_is_gone(s: Seq<LayerModel>, id: LayerId, i: int)
    requires
        0 <= i < without_layer(s, id).len(),
    ensures
        without_layer(s, id)[i].id != id,
    decreases s.len(),
{
    if s.len() > 0 {
        let r = without_layer(s.drop_last(), id);
        if i < r.len() {
            law_deleted_layer_is_gone(s.drop_last(), id, i);
        }
    }
}

} // verus!

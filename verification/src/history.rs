//! Undo/redo history of canvas edits.
//!
//! The editor takes a snapshot of the canvas before each edit; undo swaps the
//! current canvas with the latest snapshot, redo swaps it back.

use vstd::prelude::*;

verus! {

/// Most snapshots the undo stack keeps; older ones are dropped first.
pub const CANVAS_UNDO_CAP: usize = 100;

/// Undo and redo stacks of canvas snapshots (latest at the end).
pub struct EditHistory<S> {
    undo: Vec<S>,
    redo: Vec<S>,
}

/// Mathematical value of a history.
pub struct HistoryModel<S> {
    pub undo: Seq<S>,
    pub redo: Seq<S>,
}

/// The stack after pushing `s`, with the oldest entries dropped beyond the cap.
pub open spec fn capped_push<S>(stack: Seq<S>, s: S) -> Seq<S> {
    let p = stack.push(s);
    if p.len() > CANVAS_UNDO_CAP {
        p.subrange(p.len() - CANVAS_UNDO_CAP, p.len() as int)
    } else {
        p
    }
}

/// History after an edit that starts from canvas `current`.
pub open spec fn model_before_edit<S>(h: HistoryModel<S>, current: S) -> HistoryModel<S> {
    HistoryModel { undo: capped_push(h.undo, current), redo: Seq::empty() }
}

/// History and canvas after undo from canvas `current`.
pub open spec fn model_undo<S>(h: HistoryModel<S>, current: S) -> (HistoryModel<S>, S) {
    if h.undo.len() == 0 {
        (h, current)
    } else {
        (HistoryModel { undo: h.undo.drop_last(), redo: h.redo.push(current) }, h.undo.last())
    }
}

/// History and canvas after redo from canvas `current`.
pub open spec fn model_redo<S>(h: HistoryModel<S>, current: S) -> (HistoryModel<S>, S) {
    if h.redo.len() == 0 {
        (h, current)
    } else {
        (HistoryModel { undo: h.undo.push(current), redo: h.redo.drop_last() }, h.redo.last())
    }
}

/// A history as the editor can hold it: the undo stack within its cap.
pub open spec fn history_wf<S>(h: HistoryModel<S>) -> bool {
    h.undo.len() <= CANVAS_UNDO_CAP
}

impl<S> View for EditHistory<S> {
    type V = HistoryModel<S>;

    closed spec fn view(&self) -> HistoryModel<S> {
        HistoryModel { undo: self.undo@, redo: self.redo@ }
    }
}

impl<S> EditHistory<S> {
    /// An empty history.
    pub fn new() -> (h: Self)
        ensures
            h@.undo == Seq::<S>::empty(),
            h@.redo == Seq::<S>::empty(),
    {
        EditHistory { undo: Vec::new(), redo: Vec::new() }
    }

    /// Records the canvas as it is before an edit; the redo stack is emptied.
    pub fn before_edit(&mut self, current: S)
        requires
            history_wf(old(self)@),
        ensures
            final(self)@ == model_before_edit(old(self)@, current),
            history_wf(final(self)@),
    {
        let ghost p = self.undo@.push(current);
        self.undo.push(current);
        while self.undo.len() > CANVAS_UNDO_CAP
            invariant
                p.len() <= CANVAS_UNDO_CAP + 1,
                self.undo@ == p || (p.len() > CANVAS_UNDO_CAP
                    && self.undo@ == p.subrange(p.len() - CANVAS_UNDO_CAP, p.len() as int)),
            decreases self.undo@.len(),
        {
            let ghost before = self.undo@;
            self.undo.remove(0);
            assert(self.undo@ =~= p.subrange(p.len() - CANVAS_UNDO_CAP, p.len() as int));
        }
        self.redo.clear();
    }

    /// Steps back to the latest snapshot; `current` goes on the redo stack.
    /// With nothing to undo, `current` comes back unchanged.
    pub fn undo(&mut self, current: S) -> (restored: S)
        ensures
            (final(self)@, restored) == model_undo(old(self)@, current),
    {
        match self.undo.pop() {
            Some(prev) => {
                self.redo.push(current);
                prev
            },
            None => current,
        }
    }

    /// Steps forward to the latest undone canvas; `current` goes back on the
    /// undo stack. With nothing to redo, `current` comes back unchanged.
    pub fn redo(&mut self, current: S) -> (restored: S)
        ensures
            (final(self)@, restored) == model_redo(old(self)@, current),
    {
        match self.redo.pop() {
            Some(next) => {
                self.undo.push(current);
                next
            },
            None => current,
        }
    }

    /// Forgets all snapshots.
    pub fn clear(&mut self)
        ensures
            final(self)@.undo == Seq::<S>::empty(),
            final(self)@.redo == Seq::<S>::empty(),
    {
        self.undo.clear();
        self.redo.clear();
    }
}

/// Undo followed by redo gives back the canvas and the history as they were,
/// whenever there was something to undo.
pub proof fn law_undo_then_redo<S>(h: HistoryModel<S>, current: S)
    requires
        h.undo.len() > 0,
    ensures
        ({
            let (h1, c1) = model_undo(h, current);
            model_redo(h1, c1) == (h, current)
        }),
{
    let (h1, c1) = model_undo(h, current);
    assert(h1.undo.push(c1) =~= h.undo);
    assert(h1.redo.drop_last() =~= h.redo);
}

/// Redo followed by undo gives back the canvas and the history as they were,
/// whenever there was something to redo.
pub proof fn law_redo_then_undo<S>(h: HistoryModel<S>, current: S)
    requires
        h.redo.len() > 0,
    ensures
        ({
            let (h1, c1) = model_redo(h, current);
            model_undo(h1, c1) == (h, current)
        }),
{
    let (h1, c1) = model_redo(h, current);
    assert(h1.undo.drop_last() =~= h.undo);
    assert(h1.redo.push(c1) =~= h.redo);
}

/// Undo right after an edit restores the canvas from before the edit, puts
/// the edited canvas on the redo stack, and leaves the older snapshots as
/// they were (when the cap dropped none).
pub proof fn law_edit_then_undo<S>(h: HistoryModel<S>, before: S, after: S)
    requires
        h.undo.len() < CANVAS_UNDO_CAP,
    ensures
        ({
            let (h2, c2) = model_undo(model_before_edit(h, before), after);
            c2 == before && h2.undo == h.undo && h2.redo == seq![after]
        }),
{
    let h1 = model_before_edit(h, before);
    assert(h1.undo.drop_last() =~= h.undo);
    assert(Seq::<S>::empty().push(after) =~= seq![after]);
}

/// An edit always leaves nothing to redo.
pub proof fn law_edit_clears_redo<S>(h: HistoryModel<S>, current: S)
    ensures
        model_before_edit(h, current).redo.len() == 0,
        history_wf(model_before_edit(h, current)),
{
}

/// Undo with an empty undo stack changes nothing.
pub proof fn law_undo_without_history<S>(h: HistoryModel<S>, current: S)
    requires
        h.undo.len() == 0,
    ensures
        model_undo(h, current) == (h, current),
{
}

} // verus!

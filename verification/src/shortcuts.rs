//! Keyboard shortcuts of the schematic canvas: from the keys pressed in a
//! frame and the focus state, the actions the studio performs.

use vstd::prelude::*;

use crate::tools::CanvasTool;

verus! {

/// A key that a canvas shortcut uses.
#[derive(Clone, Copy, Debug, PartialEq, Eq, Structural)]
pub enum ShortcutKey {
    A,
    B,
    C,
    D,
    G,
    H,
    J,
    K,
    N,
    P,
    Q,
    R,
    S,
    T,
    V,
    W,
    X,
    Y,
    Z,
    Delete,
    Backspace,
    Escape,
    Home,
}

/// The keyboard state of one frame.
pub struct ShortcutInput {
    /// Ctrl or Command is held.
    pub cmd: bool,
    pub shift: bool,
    /// The schematic canvas has keyboard focus.
    pub canvas_focus: bool,
    /// A text field wants keyboard input.
    pub text_field: bool,
    /// The agent prompt has focus.
    pub prompt_focused: bool,
    /// Keys pressed this frame.
    pub pressed: Vec<ShortcutKey>,
}

/// What a shortcut asks the studio to do.
#[derive(Clone, Copy, Debug, PartialEq, Eq)]
pub enum ShortcutAction {
    Undo,
    Redo,
    DeleteSelected,
    SelectAll,
    CopySelection,
    CutSelection,
    PasteSelection,
    DuplicateSelection,
    /// Escape: drop the wire being drawn and clear the selection.
    CancelAndDeselect,
    SetTool(CanvasTool),
    PlaceGenericIc,
    ToggleGrid,
    ToggleSnap,
    ZoomFit,
    RotateSelected,
}

/// Whether `k` is among the keys pressed.
pub open spec fn key_down(i: ShortcutInput, k: ShortcutKey) -> bool {
    i.pressed@.contains(k)
}

/// The one action of `a` when `b` holds, else none.
pub open spec fn when(b: bool, a: ShortcutAction) -> Seq<ShortcutAction> {
    if b { seq![a] } else { Seq::empty() }
}

/// Canvas keys without a modifier: tools, toggles, zoom and rotation, in
/// this order (when several keys are down, the later tool wins).
pub open spec fn plain_key_actions(i: ShortcutInput) -> Seq<ShortcutAction> {
    when(key_down(i, ShortcutKey::Q), ShortcutAction::SetTool(CanvasTool::Select))
        + when(key_down(i, ShortcutKey::W), ShortcutAction::SetTool(CanvasTool::Wire))
        + when(key_down(i, ShortcutKey::A) && !i.cmd, ShortcutAction::PlaceGenericIc)
        + when(key_down(i, ShortcutKey::N), ShortcutAction::SetTool(CanvasTool::NetLabel))
        + when(key_down(i, ShortcutKey::K), ShortcutAction::SetTool(CanvasTool::SheetPort))
        + when(key_down(i, ShortcutKey::P) && !i.cmd, ShortcutAction::SetTool(CanvasTool::Power))
        + when(key_down(i, ShortcutKey::J), ShortcutAction::SetTool(CanvasTool::Junction))
        + when(key_down(i, ShortcutKey::X) && !i.cmd, ShortcutAction::SetTool(CanvasTool::NoConnect))
        + when(key_down(i, ShortcutKey::B), ShortcutAction::SetTool(CanvasTool::Bus))
        + when(key_down(i, ShortcutKey::T), ShortcutAction::SetTool(CanvasTool::Text))
        + when(key_down(i, ShortcutKey::H), ShortcutAction::SetTool(CanvasTool::Pan))
        + when(key_down(i, ShortcutKey::G), ShortcutAction::ToggleGrid)
        + when(key_down(i, ShortcutKey::S) && !i.cmd, ShortcutAction::ToggleSnap)
        + when(key_down(i, ShortcutKey::Home), ShortcutAction::ZoomFit)
        + when(key_down(i, ShortcutKey::R) && !i.cmd, ShortcutAction::RotateSelected)
}

/// The actions of a frame. Undo (Ctrl+Z) and redo (Ctrl+Y, Ctrl+Shift+Z)
/// unless the prompt has focus; then, when the canvas may take keys
/// (it has focus, or no text field wants them), Delete/Backspace and the
/// Ctrl+A/C/X/V/D edits; each of these is the frame's only action. Outside
/// the prompt, Escape cancels; else, when the canvas may take keys, the
/// plain keys act.
pub open spec fn spec_shortcut_actions(i: ShortcutInput) -> Seq<ShortcutAction> {
    let allow_canvas = i.canvas_focus || !i.text_field;
    if !i.prompt_focused && i.cmd && key_down(i, ShortcutKey::Z) && !i.shift {
        seq![ShortcutAction::Undo]
    } else if !i.prompt_focused && i.cmd && (key_down(i, ShortcutKey::Y) || (i.shift && key_down(i, ShortcutKey::Z))) {
        seq![ShortcutAction::Redo]
    } else if allow_canvas && (key_down(i, ShortcutKey::Delete) || key_down(i, ShortcutKey::Backspace)) {
        seq![ShortcutAction::DeleteSelected]
    } else if allow_canvas && i.cmd && key_down(i, ShortcutKey::A) {
        seq![ShortcutAction::SelectAll]
    } else if allow_canvas && i.cmd && key_down(i, ShortcutKey::C) {
        seq![ShortcutAction::CopySelection]
    } else if allow_canvas && i.cmd && key_down(i, ShortcutKey::X) {
        seq![ShortcutAction::CutSelection]
    } else if allow_canvas && i.cmd && key_down(i, ShortcutKey::V) {
        seq![ShortcutAction::PasteSelection]
    } else if allow_canvas && i.cmd && key_down(i, ShortcutKey::D) {
        seq![ShortcutAction::DuplicateSelection]
    } else if i.prompt_focused {
        Seq::empty()
    } else if key_down(i, ShortcutKey::Escape) {
        seq![ShortcutAction::CancelAndDeselect]
    } else if !allow_canvas {
        Seq::empty()
    } else {
        plain_key_actions(i)
    }
}

/// Whether `k` was pressed this frame.
fn pressed(input: &ShortcutInput, k: ShortcutKey) -> (r: bool)
    ensures
        r == key_down(*input, k),
{
    let mut i: usize = 0;
    while i < input.pressed.len()
        invariant
            i <= input.pressed@.len(),
            forall|j: int| 0 <= j < i ==> input.pressed@[j] != k,
        decreases input.pressed@.len() - i,
    {
        if input.pressed[i] == k {
            return true;
        }
        i = i + 1;
    }
    false
}

/// Appends `a` when `b` holds.
fn push_when(out: &mut Vec<ShortcutAction>, b: bool, a: ShortcutAction)
    ensures
        final(out)@ == old(out)@ + when(b, a),
{
    if b {
        out.push(a);
    } else {
        assert(old(out)@ + when(b, a) =~= old(out)@);
    }
}

/// The actions the keys of one frame ask for.
pub fn shortcut_actions(input: &ShortcutInput) -> (r: Vec<ShortcutAction>)
    ensures
        r@ == spec_shortcut_actions(*input),
{
    let cmd = input.cmd;
    let allow_canvas = input.canvas_focus || !input.text_field;
    if !input.prompt_focused {
        if cmd && pressed(input, ShortcutKey::Z) && !input.shift {
            return vec![ShortcutAction::Undo];
        }
        if cmd && (pressed(input, ShortcutKey::Y) || (input.shift && pressed(input, ShortcutKey::Z))) {
            return vec![ShortcutAction::Redo];
        }
    }
    if allow_canvas && (pressed(input, ShortcutKey::Delete) || pressed(input, ShortcutKey::Backspace)) {
        return vec![ShortcutAction::DeleteSelected];
    }
    if allow_canvas && cmd {
        if pressed(input, ShortcutKey::A) {
            return vec![ShortcutAction::SelectAll];
        }
        if pressed(input, ShortcutKey::C) {
            return vec![ShortcutAction::CopySelection];
        }
        if pressed(input, ShortcutKey::X) {
            return vec![ShortcutAction::CutSelection];
        }
        if pressed(input, ShortcutKey::V) {
            return vec![ShortcutAction::PasteSelection];
        }
        if pressed(input, ShortcutKey::D) {
            return vec![ShortcutAction::DuplicateSelection];
        }
    }
    if input.prompt_focused {
        return Vec::new();
    }
    if pressed(input, ShortcutKey::Escape) {
        return vec![ShortcutAction::CancelAndDeselect];
    }
    if !allow_canvas {
        return Vec::new();
    }
    let mut out: Vec<ShortcutAction> = Vec::new();
    push_when(&mut out, pressed(input, ShortcutKey::Q), ShortcutAction::SetTool(CanvasTool::Select));
    push_when(&mut out, pressed(input, ShortcutKey::W), ShortcutAction::SetTool(CanvasTool::Wire));
    push_when(&mut out, pressed(input, ShortcutKey::A) && !cmd, ShortcutAction::PlaceGenericIc);
    push_when(&mut out, pressed(input, ShortcutKey::N), ShortcutAction::SetTool(CanvasTool::NetLabel));
    push_when(&mut out, pressed(input, ShortcutKey::K), ShortcutAction::SetTool(CanvasTool::SheetPort));
    push_when(&mut out, pressed(input, ShortcutKey::P) && !cmd, ShortcutAction::SetTool(CanvasTool::Power));
    push_when(&mut out, pressed(input, ShortcutKey::J), ShortcutAction::SetTool(CanvasTool::Junction));
    push_when(&mut out, pressed(input, ShortcutKey::X) && !cmd, ShortcutAction::SetTool(CanvasTool::NoConnect));
    push_when(&mut out, pressed(input, ShortcutKey::B), ShortcutAction::SetTool(CanvasTool::Bus));
    push_when(&mut out, pressed(input, ShortcutKey::T), ShortcutAction::SetTool(CanvasTool::Text));
    push_when(&mut out, pressed(input, ShortcutKey::H), ShortcutAction::SetTool(CanvasTool::Pan));
    push_when(&mut out, pressed(input, ShortcutKey::G), ShortcutAction::ToggleGrid);
    push_when(&mut out, pressed(input, ShortcutKey::S) && !cmd, ShortcutAction::ToggleSnap);
    push_when(&mut out, pressed(input, ShortcutKey::Home), ShortcutAction::ZoomFit);
    push_when(&mut out, pressed(input, ShortcutKey::R) && !cmd, ShortcutAction::RotateSelected);
    proof {
        assert(out@ =~= plain_key_actions(*input));
    }
    out
}

} // verus!

verus! {

/// A plain key pressed alone on a canvas that may take keys, with no
/// modifier and no prompt focus: Q selects, W wires, A places a generic
/// IC, N labels nets, K places sheet ports, P power, J junctions, X
/// no-connects, B buses, T text, H pans, G toggles the grid, S snapping,
/// Home zooms to fit, R rotates, Escape cancels, Delete and Backspace
/// delete; the other keys do nothing.
pub proof fn law_single_plain_key(i: ShortcutInput, k: ShortcutKey)
    requires
        i.pressed@ == seq![k],
        !i.cmd,
        !i.prompt_focused,
        i.canvas_focus || !i.text_field,
    ensures
        ({
            let r = spec_shortcut_actions(i);
            &&& k == ShortcutKey::Q ==> r == seq![ShortcutAction::SetTool(CanvasTool::Select)]
            &&& k == ShortcutKey::W ==> r == seq![ShortcutAction::SetTool(CanvasTool::Wire)]
            &&& k == ShortcutKey::A ==> r == seq![ShortcutAction::PlaceGenericIc]
            &&& k == ShortcutKey::N ==> r == seq![ShortcutAction::SetTool(CanvasTool::NetLabel)]
            &&& k == ShortcutKey::K ==> r == seq![ShortcutAction::SetTool(CanvasTool::SheetPort)]
            &&& k == ShortcutKey::P ==> r == seq![ShortcutAction::SetTool(CanvasTool::Power)]
            &&& k == ShortcutKey::J ==> r == seq![ShortcutAction::SetTool(CanvasTool::Junction)]
            &&& k == ShortcutKey::X ==> r == seq![ShortcutAction::SetTool(CanvasTool::NoConnect)]
            &&& k == ShortcutKey::B ==> r == seq![ShortcutAction::SetTool(CanvasTool::Bus)]
            &&& k == ShortcutKey::T ==> r == seq![ShortcutAction::SetTool(CanvasTool::Text)]
            &&& k == ShortcutKey::H ==> r == seq![ShortcutAction::SetTool(CanvasTool::Pan)]
            &&& k == ShortcutKey::G ==> r == seq![ShortcutAction::ToggleGrid]
            &&& k == ShortcutKey::S ==> r == seq![ShortcutAction::ToggleSnap]
            &&& k == ShortcutKey::Home ==> r == seq![ShortcutAction::ZoomFit]
            &&& k == ShortcutKey::R ==> r == seq![ShortcutAction::RotateSelected]
            &&& k == ShortcutKey::Escape ==> r == seq![ShortcutAction::CancelAndDeselect]
            &&& (k == ShortcutKey::Delete || k == ShortcutKey::Backspace) ==> r == seq![ShortcutAction::DeleteSelected]
            &&& (k == ShortcutKey::C || k == ShortcutKey::D || k == ShortcutKey::V || k == ShortcutKey::Y
                || k == ShortcutKey::Z) ==> r == Seq::<ShortcutAction>::empty()
        }),
{
    assert forall|x: ShortcutKey| #[trigger] key_down(i, x) == (x == k) by {
        if x == k {
            assert(i.pressed@[0] == k);
        }
    }
    let e = Seq::<ShortcutAction>::empty();
    assert(e + e =~= e);
    assert forall|a: ShortcutAction| e + seq![a] =~= seq![a] && seq![a] + e =~= seq![a] by {}
}

/// The edit shortcuts with Ctrl (or Command), whatever else is down:
/// Ctrl+Z undoes and Ctrl+Y or Ctrl+Shift+Z redoes unless the prompt has
/// focus; when the canvas may take keys and neither of those applies,
/// Delete or Backspace deletes, then Ctrl+A selects all, Ctrl+C copies,
/// Ctrl+X cuts, Ctrl+V pastes and Ctrl+D duplicates, the first that
/// applies being the frame's only action.
pub proof fn law_edit_shortcuts(i: ShortcutInput)
    ensures
        ({
            let r = spec_shortcut_actions(i);
            let canvas = i.canvas_focus || !i.text_field;
            let z = key_down(i, ShortcutKey::Z);
            let y = key_down(i, ShortcutKey::Y);
            let undo = !i.prompt_focused && i.cmd && z && !i.shift;
            let redo = !i.prompt_focused && i.cmd && (y || (i.shift && z));
            let del = key_down(i, ShortcutKey::Delete) || key_down(i, ShortcutKey::Backspace);
            &&& undo ==> r == seq![ShortcutAction::Undo]
            &&& (!undo && redo) ==> r == seq![ShortcutAction::Redo]
            &&& (!undo && !redo && canvas && del) ==> r == seq![ShortcutAction::DeleteSelected]
            &&& (!undo && !redo && canvas && !del && i.cmd && key_down(i, ShortcutKey::A))
                ==> r == seq![ShortcutAction::SelectAll]
            &&& (!undo && !redo && canvas && !del && i.cmd && !key_down(i, ShortcutKey::A)
                && key_down(i, ShortcutKey::C)) ==> r == seq![ShortcutAction::CopySelection]
            &&& (!undo && !redo && canvas && !del && i.cmd && !key_down(i, ShortcutKey::A)
                && !key_down(i, ShortcutKey::C) && key_down(i, ShortcutKey::X)) ==> r == seq![ShortcutAction::CutSelection]
            &&& (!undo && !redo && canvas && !del && i.cmd && !key_down(i, ShortcutKey::A)
                && !key_down(i, ShortcutKey::C) && !key_down(i, ShortcutKey::X) && key_down(i, ShortcutKey::V))
                ==> r == seq![ShortcutAction::PasteSelection]
            &&& (!undo && !redo && canvas && !del && i.cmd && !key_down(i, ShortcutKey::A)
                && !key_down(i, ShortcutKey::C) && !key_down(i, ShortcutKey::X) && !key_down(i, ShortcutKey::V)
                && key_down(i, ShortcutKey::D)) ==> r == seq![ShortcutAction::DuplicateSelection]
            &&& i.prompt_focused && !(canvas && (del || (i.cmd && (key_down(i, ShortcutKey::A)
                || key_down(i, ShortcutKey::C) || key_down(i, ShortcutKey::X) || key_down(i, ShortcutKey::V)
                || key_down(i, ShortcutKey::D))))) ==> r == Seq::<ShortcutAction>::empty()
        }),
{
}

} // verus!

//! What the user asked the workspace for, as typed values.
use vstd::prelude::*;

use crate::input::TextIntent;
use crate::surface::{Point, SurfaceId};

verus! {

/// One step along an ordered list or ring.
#[derive(Clone, Copy, Debug, PartialEq, Eq, Structural)]
pub enum Direction {
    Forward,
    Backward,
}

/// Which way the wheel turned.
#[derive(Clone, Copy, Debug, PartialEq, Eq, Structural)]
pub enum ScrollDirection {
    Up,
    Down,
}

/// A pointer gesture on the surface that captured it.
#[derive(Clone, Copy, Debug, PartialEq, Eq, Structural)]
pub enum PointerIntent {
    Press { surface: SurfaceId, at: Point },
    Drag { surface: SurfaceId, at: Point },
    Release { surface: SurfaceId, at: Point },
    Cancel { surface: SurfaceId },
}

/// What the second window's chords ask for.
#[derive(Clone, Copy, Debug, PartialEq, Eq, Structural)]
pub enum InspectorIntent {
    Open,
    ToggleMaximize,
    Grow,
    Shrink,
}

/// What the selection chords ask for.
#[derive(Clone, Copy, Debug, PartialEq, Eq, Structural)]
pub enum SelectionIntent {
    Extend(Direction),
    Copy,
}

/// What the attention queue's keys ask for.
#[derive(Clone, Copy, Debug, PartialEq, Eq, Structural)]
pub enum AttentionIntent {
    Move(Direction),
    GoTo,
}

/// What the conversation tree's keys ask for.
#[derive(Clone, Debug, PartialEq, Eq)]
pub enum TreeIntent {
    Move(Direction),
    Home,
    End,
    Navigate,
    ToggleBranches,
    ToggleFold,
    Refresh,
    CopySource,
    RenameHead,
    EditLabel,
    AbandonHead,
    SubmitEdit,
    CancelEdit,
    Close,
    EditInput(TextIntent),
}

/// One request from the user to the workspace.
#[derive(Clone, Debug, PartialEq, Eq)]
pub enum TuiIntent {
    Quit,
    Dismiss,
    CycleFocus(Direction),
    MoveSelection(Direction),
    Text(TextIntent),
    Pointer(PointerIntent),
    Scroll { surface: SurfaceId, direction: ScrollDirection },
    TerminalResized { width: u16, height: u16 },
    Inspector(InspectorIntent),
    Selection(SelectionIntent),
    Attention(AttentionIntent),
    Tree(TreeIntent),
}

} // verus!

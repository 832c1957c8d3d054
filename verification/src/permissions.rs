//! The rows of a permissions page, and which of them is chosen.
use vstd::prelude::*;

use crate::choice::{step_index, stepped};

verus! {

/// A permissions page's rows, counted, and the one chosen.
#[derive(Clone, Copy, Debug, PartialEq, Eq, Structural)]
pub struct PermissionPanel {
    pub rows: usize,
    pub chosen: usize,
}

impl PermissionPanel {
    /// A page of `rows` rows with the first one chosen.
    pub fn listing(rows: usize) -> (panel: Self)
        ensures
            panel.rows == rows,
            panel.chosen == 0,
    {
        PermissionPanel { rows, chosen: 0 }
    }

    /// Moves the choice by one, stopping at the ends; reports whether it moved.
    pub fn step(&mut self, forward: bool) -> (moved: bool)
        ensures
            final(self).rows == old(self).rows,
            final(self).chosen == step_index(old(self).chosen as int, old(self).rows as int, forward),
            moved == (final(self).chosen != old(self).chosen),
    {
        let next = stepped(self.chosen, self.rows, forward);
        let moved = next != self.chosen;
        self.chosen = next;
        moved
    }
}

} // verus!

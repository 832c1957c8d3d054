//! How the user asked the second window to be shown.
//!
//! Which agent it shows is not stored here: the window shows whichever agent the user selected
//! other than the primary. What lives here is the presentation the user chose for the window and
//! the drag that may be resizing it.
use vstd::prelude::*;

use crate::ids::AgentId;
use crate::surface::Rect;

verus! {

/// What layout needs in order to place the second window.
#[derive(Clone, Copy, Debug, Default, PartialEq, Eq, Structural)]
pub struct InspectorRequest {
    pub maximized: bool,
    pub rows: Option<u16>,
}

/// The open second window: the agent it shows and how the user asked for it to be shown.
#[derive(Clone, Debug, PartialEq, Eq)]
pub struct InspectorView {
    /// The agent whose conversation is in the window.
    pub agent: AgentId,
    /// Whether the user asked for the whole conversation region.
    pub maximized: bool,
    /// Rows the user chose for the shelf, if they ever changed it.
    pub rows: Option<u16>,
}

/// The second window's presentation, and whether a press grabbed its resize edge.
#[derive(Clone, Copy, Debug, Default, PartialEq, Eq, Structural)]
pub struct Inspector {
    maximized: bool,
    rows: Option<u16>,
    grabbed: bool,
}

impl Inspector {
    /// Whether the user asked for the whole region.
    pub closed spec fn is_maximized(self) -> bool {
        self.maximized
    }

    /// The rows the user chose, if any.
    pub closed spec fn chosen_rows(self) -> Option<u16> {
        self.rows
    }

    /// Whether a press is holding the resize edge.
    pub closed spec fn holds_edge(self) -> bool {
        self.grabbed
    }

    /// The default window: not maximized, default height, nothing grabbed.
    pub fn new() -> (inspector: Self)
        ensures
            !inspector.is_maximized(),
            inspector.chosen_rows() is None,
            !inspector.holds_edge(),
    {
        Inspector { maximized: false, rows: None, grabbed: false }
    }

    /// The window as it shows `agent`, with the presentation the user chose.
    pub fn view(&self, agent: AgentId) -> (view: InspectorView)
        ensures
            view.agent == agent,
            view.maximized == self.is_maximized(),
            view.rows == self.chosen_rows(),
    {
        InspectorView { agent, maximized: self.maximized, rows: self.rows }
    }

    /// What layout needs in order to place it.
    pub fn request(&self) -> (request: InspectorRequest)
        ensures
            request == (InspectorRequest { maximized: self.is_maximized(), rows: self.chosen_rows() }),
    {
        InspectorRequest { maximized: self.maximized, rows: self.rows }
    }

    /// Forgets the presentation and any grab, for when the window closes.
    pub fn reset(&mut self)
        ensures
            !final(self).is_maximized(),
            final(self).chosen_rows() is None,
            !final(self).holds_edge(),
    {
        *self = Inspector { maximized: false, rows: None, grabbed: false };
    }

    /// Flips between the whole region and the shelf.
    pub fn toggle_maximized(&mut self)
        ensures
            final(self).is_maximized() == !old(self).is_maximized(),
            final(self).chosen_rows() == old(self).chosen_rows(),
            final(self).holds_edge() == old(self).holds_edge(),
    {
        self.maximized = !self.maximized;
    }

    /// Sets the shelf's height from the rows it currently occupies; reports whether it changed.
    pub fn set_rows(&mut self, rows: u16) -> (changed: bool)
        ensures
            changed == (old(self).chosen_rows() != Some(rows)),
            final(self).chosen_rows() == Some(rows),
            final(self).is_maximized() == old(self).is_maximized(),
            final(self).holds_edge() == old(self).holds_edge(),
    {
        let same = match self.rows {
            Some(r) => r == rows,
            None => false,
        };
        if same {
            return false;
        }
        self.rows = Some(rows);
        true
    }

    /// Records whether a press landed on the resize edge: the window's last row. A press on no
    /// window clears any grab.
    pub fn grab(&mut self, bounds: Option<Rect>, at_row: u16)
        ensures
            final(self).holds_edge() == (bounds matches Some(b) && crate::surface::sat_add(
                at_row,
                1u16,
            ) == b.bottom_edge()),
            final(self).is_maximized() == old(self).is_maximized(),
            final(self).chosen_rows() == old(self).chosen_rows(),
    {
        self.grabbed = match bounds {
            Some(bounds) => at_row.saturating_add(1) == bounds.bottom(),
            None => false,
        };
    }

    /// Lets go of the edge.
    pub fn release(&mut self)
        ensures
            !final(self).holds_edge(),
            final(self).is_maximized() == old(self).is_maximized(),
            final(self).chosen_rows() == old(self).chosen_rows(),
    {
        self.grabbed = false;
    }

    /// Whether a press is holding the resize edge.
    pub fn is_grabbed(&self) -> (grabbed: bool)
        ensures
            grabbed == self.holds_edge(),
    {
        self.grabbed
    }
}

} // verus!

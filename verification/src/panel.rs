//! What a bordered region costs to draw: the rows and columns its frame spends, the padding its
//! unpainted edges reserve, where a stored scroll position lands, and where the caret goes.
use vstd::prelude::*;

use crate::input::Caret;
use crate::surface::{sat_add, sat_sub, Rect, SurfaceId, SurfaceTree};

verus! {

/// Rows a box of its own spends on its frame.
pub const FULL_FRAME_ROWS: u16 = 2;

/// How a region's edges are painted; the geometry is the edges', this is only ink.
#[derive(Clone, Copy, Debug, PartialEq, Eq, Structural)]
pub enum Chrome {
    /// Glyph borders on every edge the region has.
    Box,
    /// A rule across each horizontal edge the region has; its side columns are blank.
    Rules,
    /// No ink: every edge the region has is a blank row or column.
    Bare,
}

/// Which sides of a region carry a frame. Two surfaces stacked in one box share one outline.
#[derive(Clone, Copy, Debug, PartialEq, Eq, Structural)]
pub enum Edges {
    /// A box of its own.
    All,
    /// Top and sides, open at the bottom: the upper section of a shared box.
    Upper,
    /// A divider on top, then sides and bottom: the lower section of a shared box.
    Lower,
    /// A divider on top and sides, open at the bottom: a section between two others.
    Middle,
    /// Sides and bottom only: the last line of a shared box.
    Closing,
}

/// Cells kept clear inside a region's edges.
#[derive(Clone, Copy, Debug, PartialEq, Eq, Structural)]
pub struct Padding {
    pub left: u16,
    pub right: u16,
    pub top: u16,
    pub bottom: u16,
}

/// Whether a region with these edges has a top edge.
pub open spec fn edge_on_top(edges: Edges) -> bool {
    !(edges is Closing)
}

/// Whether a region with these edges has a bottom edge.
pub open spec fn edge_on_bottom(edges: Edges) -> bool {
    edges is All || edges is Lower || edges is Closing
}

/// The rows a frame with these edges spends.
pub open spec fn frame_rows(edges: Edges) -> u16 {
    if edges is All || edges is Lower {
        FULL_FRAME_ROWS
    } else {
        1
    }
}

impl Edges {
    /// Whether the region has a top edge.
    pub fn has_top(self) -> (top: bool)
        ensures
            top == edge_on_top(self),
    {
        match self {
            Edges::Closing => false,
            _ => true,
        }
    }

    /// Whether the region has a bottom edge.
    pub fn has_bottom(self) -> (bottom: bool)
        ensures
            bottom == edge_on_bottom(self),
    {
        match self {
            Edges::All => true,
            Edges::Lower => true,
            Edges::Closing => true,
            _ => false,
        }
    }

    /// Rows the frame spends, which the content cannot have.
    pub fn rows(self) -> (rows: u16)
        ensures
            rows == frame_rows(self),
            rows as int == (if edge_on_top(self) { 1int } else { 0int }) + (if edge_on_bottom(self) {
                1int
            } else {
                0int
            }),
    {
        match self {
            Edges::Upper => 1,
            Edges::Closing => 1,
            Edges::Middle => 1,
            Edges::All => FULL_FRAME_ROWS,
            Edges::Lower => FULL_FRAME_ROWS,
        }
    }

    /// Columns the frame spends, which the content cannot have: every region has both sides.
    pub fn columns(self) -> (columns: u16)
        ensures
            columns == 2,
    {
        2
    }
}

/// The cells edges spend that no glyph occupies, reserved as padding.
pub open spec fn hidden_padding(chrome: Chrome, edges: Edges) -> Padding {
    match chrome {
        Chrome::Box => Padding { left: 0, right: 0, top: 0, bottom: 0 },
        Chrome::Rules => Padding { left: 1, right: 1, top: 0, bottom: 0 },
        Chrome::Bare => Padding {
            left: 1,
            right: 1,
            top: if edge_on_top(edges) { 1 } else { 0 },
            bottom: if edge_on_bottom(edges) { 1 } else { 0 },
        },
    }
}

impl Chrome {
    /// The cells the edges spend that no glyph occupies, reserved as padding.
    pub fn hidden(self, edges: Edges) -> (padding: Padding)
        ensures
            padding == hidden_padding(self, edges),
    {
        match self {
            Chrome::Box => Padding { left: 0, right: 0, top: 0, bottom: 0 },
            Chrome::Rules => Padding { left: 1, right: 1, top: 0, bottom: 0 },
            Chrome::Bare => Padding {
                left: 1,
                right: 1,
                top: if edges.has_top() {
                    1
                } else {
                    0
                },
                bottom: if edges.has_bottom() {
                    1
                } else {
                    0
                },
            },
        }
    }
}

/// Where a reader left a scrolled region.
#[derive(Clone, Copy, Debug, PartialEq, Eq, Structural)]
pub enum ScrollPosition {
    /// At the end, following what arrives.
    Tail,
    /// Parked at this row.
    Row(usize),
}

/// The row offset a position lands on in a viewport whose deepest offset is `max_offset`.
pub open spec fn position_offset(position: ScrollPosition, max_offset: usize) -> usize {
    match position {
        ScrollPosition::Tail => max_offset,
        ScrollPosition::Row(row) => if row < max_offset {
            row
        } else {
            max_offset
        },
    }
}

impl ScrollPosition {
    /// The row offset the position lands on in a viewport whose deepest offset is `max_offset`.
    pub fn offset(self, max_offset: usize) -> (offset: usize)
        ensures
            offset == position_offset(self, max_offset),
    {
        match self {
            ScrollPosition::Tail => max_offset,
            ScrollPosition::Row(row) => if row < max_offset {
                row
            } else {
                max_offset
            },
        }
    }
}

/// Turns a stored scroll position into a row offset for a viewport this deep. An untouched region
/// takes its anchor from its content: a conversation opens at its newest line, a list at its first.
pub fn resolve_offset(parked: Option<ScrollPosition>, follows_tail: bool, max_offset: usize) -> (offset: usize)
    ensures
        offset == match parked {
            Some(position) => position_offset(position, max_offset),
            None => if follows_tail {
                max_offset
            } else {
                0
            },
        },
        offset <= max_offset,
{
    match parked {
        Some(position) => position.offset(max_offset),
        None => if follows_tail {
            max_offset
        } else {
            0
        },
    }
}

/// Where the one cursor goes for `caret` in a region at `area` with these edges: inside the frame,
/// the caret's row and column clamped to what the frame leaves.
pub open spec fn cursor_cell(area: Rect, caret: Caret, edges: Edges) -> (u16, u16) {
    let inside_width = sat_sub(area.width, 2);
    let inside_height = sat_sub(area.height, frame_rows(edges));
    let column = if caret.column < inside_width { caret.column } else { inside_width };
    let last_row = sat_sub(inside_height, 1);
    let row = if caret.row < last_row { caret.row } else { last_row };
    (sat_add(sat_add(area.x, 1), column), sat_add(sat_add(area.y, 1), row))
}

/// Where the workspace's one cursor goes for `caret` in a region at `area` with these edges.
pub fn cursor_position(area: Rect, caret: Caret, edges: Edges) -> (cell: (u16, u16))
    ensures
        cell == cursor_cell(area, caret, edges),
{
    let inside_width = area.width.saturating_sub(edges.columns());
    let inside_height = area.height.saturating_sub(edges.rows());
    let column = if caret.column < inside_width {
        caret.column
    } else {
        inside_width
    };
    let last_row = inside_height.saturating_sub(1);
    let row = if caret.row < last_row {
        caret.row
    } else {
        last_row
    };
    (area.x.saturating_add(1).saturating_add(column), area.y.saturating_add(1).saturating_add(row))
}

/// Whether `lower` is registered directly beneath `upper`, left edges aligned.
pub open spec fn stacked_in(surfaces: SurfaceTree, upper: SurfaceId, lower: SurfaceId) -> bool {
    match (surfaces.find(upper), surfaces.find(lower)) {
        (Some(u), Some(l)) => l.bounds.x == u.bounds.x && l.bounds.y == u.bounds.bottom_edge(),
        _ => false,
    }
}

/// Whether a conversation has an input section beneath it: the decision region or the composer.
pub open spec fn has_input_below(surfaces: SurfaceTree, id: SurfaceId) -> bool {
    stacked_in(surfaces, id, SurfaceId::Approval) || stacked_in(surfaces, id, SurfaceId::Composer)
}

/// Which conversation, if any, shares its box with the input beneath it.
#[derive(Clone, Copy, Debug, PartialEq, Eq, Structural)]
pub struct Stacking {
    pub composer_under: Option<SurfaceId>,
}

impl Stacking {
    /// The conversation that has the input beneath it: the transcript first, then the inspector.
    pub fn of(surfaces: &SurfaceTree) -> (stacking: Self)
        ensures
            stacking.composer_under == if has_input_below(*surfaces, SurfaceId::Transcript) {
                Some(SurfaceId::Transcript)
            } else if has_input_below(*surfaces, SurfaceId::Inspector) {
                Some(SurfaceId::Inspector)
            } else {
                None
            },
    {
        let composer_under = if stacked(surfaces, SurfaceId::Transcript, SurfaceId::Approval) || stacked(
            surfaces,
            SurfaceId::Transcript,
            SurfaceId::Composer,
        ) {
            Some(SurfaceId::Transcript)
        } else if stacked(surfaces, SurfaceId::Inspector, SurfaceId::Approval) || stacked(
            surfaces,
            SurfaceId::Inspector,
            SurfaceId::Composer,
        ) {
            Some(SurfaceId::Inspector)
        } else {
            None
        };
        Stacking { composer_under }
    }

    /// The edges of a conversation that may have an input section beneath it.
    pub fn over_composer(&self, id: SurfaceId) -> (edges: Edges)
        ensures
            edges == if self.composer_under == Some(id) {
                Edges::Upper
            } else {
                Edges::All
            },
    {
        match self.composer_under {
            Some(under) => if under == id {
                Edges::Upper
            } else {
                Edges::All
            },
            None => Edges::All,
        }
    }
}

/// Whether `lower` is registered directly beneath `upper`.
fn stacked(surfaces: &SurfaceTree, upper: SurfaceId, lower: SurfaceId) -> (below: bool)
    ensures
        below == stacked_in(*surfaces, upper, lower),
{
    match (surfaces.get(upper), surfaces.get(lower)) {
        (Some(u), Some(l)) => l.bounds.x == u.bounds.x && l.bounds.y == u.bounds.bottom(),
        _ => false,
    }
}

/// The padding inside a region: the content insets on each side added to the cells its unpainted
/// edges reserve.
pub fn content_padding(sides: u16, vertical: u16, hidden: Padding) -> (padding: Padding)
    ensures
        padding == (Padding {
            left: sat_add(sides, hidden.left),
            right: sat_add(sides, hidden.right),
            top: sat_add(vertical, hidden.top),
            bottom: sat_add(vertical, hidden.bottom),
        }),
{
    Padding {
        left: sides.saturating_add(hidden.left),
        right: sides.saturating_add(hidden.right),
        top: vertical.saturating_add(hidden.top),
        bottom: vertical.saturating_add(hidden.bottom),
    }
}

/// The region's own last row for a footer, taken off the bottom of `inside` when there is a
/// footer and a row to take; the content keeps the rest.
pub fn footer_split(inside: Rect, has_footer: bool) -> (split: (Rect, Option<Rect>))
    ensures
        has_footer && inside.height > 0 ==> split == (
            Rect { height: (inside.height - 1) as u16, ..inside },
            Some(Rect { x: inside.x, y: sat_add(inside.y, (inside.height - 1) as u16), width: inside.width, height: 1 }),
        ),
        !(has_footer && inside.height > 0) ==> split == (inside, None::<Rect>),
{
    if has_footer && inside.height > 0 {
        let content = Rect { x: inside.x, y: inside.y, width: inside.width, height: inside.height - 1 };
        let row = Rect::new(inside.x, content.bottom(), inside.width, 1);
        (content, Some(row))
    } else {
        (inside, None)
    }
}

/// Blank rows a windowed body is led by when its content is shorter than the region, so the
/// content sits at the bottom.
pub fn leading_slack(visible_rows: u16, content_rows: usize) -> (slack: usize)
    ensures
        slack == if visible_rows as int > content_rows { visible_rows - content_rows } else { 0 },
{
    (visible_rows as usize).saturating_sub(content_rows)
}


/// How a region's border is inked: brighter while it holds focus.
#[derive(Clone, Copy, Debug, PartialEq, Eq, Structural)]
pub enum BorderInk {
    Focused,
    Quiet,
}

/// Where a region's title goes.
#[derive(Clone, Copy, Debug, PartialEq, Eq, Structural)]
pub enum TitlePlacement {
    /// No title: an empty one, or a region drawn without ink.
    Untitled,
    /// In the top border, as given.
    InBorder,
    /// After a short rule, so the top rule runs into it.
    AfterRule,
}

/// What a region's frame draws: the ink, which edges carry a line, whether the top corners are
/// junctions joining a divider to the sides it sits between, and where the title goes.
#[derive(Clone, Copy, Debug, PartialEq, Eq, Structural)]
pub struct BorderPlan {
    pub ink: BorderInk,
    pub top: bool,
    pub bottom: bool,
    pub left: bool,
    pub right: bool,
    pub junctions: bool,
    pub title: TitlePlacement,
}

/// The frame a region with these edges draws in this chrome. A box draws every edge the region
/// has, with junctions where its top is a divider between sections; rules draw only the
/// horizontal edges; a bare region draws none. An empty title is no title, and a bare region
/// shows none; rules run into a title on their top edge.
pub open spec fn border_plan_of(focused: bool, edges: Edges, chrome: Chrome, title_empty: bool) -> BorderPlan {
    let ink = if focused { BorderInk::Focused } else { BorderInk::Quiet };
    let (top, bottom, left, right, junctions) = match chrome {
        Chrome::Box => match edges {
            Edges::All => (true, true, true, true, false),
            Edges::Upper => (true, false, true, true, false),
            Edges::Closing => (false, true, true, true, false),
            Edges::Lower => (true, true, true, true, true),
            Edges::Middle => (true, false, true, true, true),
        },
        Chrome::Rules => (edge_on_top(edges), edge_on_bottom(edges), false, false, false),
        Chrome::Bare => (false, false, false, false, false),
    };
    let title = if title_empty || chrome is Bare {
        TitlePlacement::Untitled
    } else if chrome is Rules && edge_on_top(edges) {
        TitlePlacement::AfterRule
    } else {
        TitlePlacement::InBorder
    };
    BorderPlan { ink, top, bottom, left, right, junctions, title }
}

/// The frame a region draws.
pub fn border_plan(focused: bool, edges: Edges, chrome: Chrome, title_empty: bool) -> (plan: BorderPlan)
    ensures
        plan == border_plan_of(focused, edges, chrome, title_empty),
{
    let ink = if focused {
        BorderInk::Focused
    } else {
        BorderInk::Quiet
    };
    let (top, bottom, left, right, junctions) = match chrome {
        Chrome::Box => match edges {
            Edges::All => (true, true, true, true, false),
            Edges::Upper => (true, false, true, true, false),
            Edges::Closing => (false, true, true, true, false),
            Edges::Lower => (true, true, true, true, true),
            Edges::Middle => (true, false, true, true, true),
        },
        Chrome::Rules => (edges.has_top(), edges.has_bottom(), false, false, false),
        Chrome::Bare => (false, false, false, false, false),
    };
    let bare = match chrome {
        Chrome::Bare => true,
        _ => false,
    };
    let rules = match chrome {
        Chrome::Rules => true,
        _ => false,
    };
    let title = if title_empty || bare {
        TitlePlacement::Untitled
    } else if rules && edges.has_top() {
        TitlePlacement::AfterRule
    } else {
        TitlePlacement::InBorder
    };
    BorderPlan { ink, top, bottom, left, right, junctions, title }
}

} // verus!


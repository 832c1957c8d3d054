//! The Drawer page that shows the project's configured permission scopes: a scrolling body of
//! rules above a fixed choice row and hint, which never scroll with it.
use vstd::prelude::*;

use crate::panel::{ScrollPosition, position_offset};
use crate::surface::{on_screen, Rect, Viewport, sat_add, sat_sub};

verus! {

/// The area a bordered box with `sides` columns of padding left and right and `vertical` rows
/// of padding above and below leaves inside `area`.
pub open spec fn bordered_inner_of(area: Rect, sides: u16, vertical: u16) -> Rect {
    let x1 = if sat_add(area.x, 1) < area.right_edge() { sat_add(area.x, 1) } else { area.right_edge() };
    let y1 = if sat_add(area.y, 1) < area.bottom_edge() { sat_add(area.y, 1) } else { area.bottom_edge() };
    let w1 = sat_sub(sat_sub(area.width, 1), 1);
    let h1 = sat_sub(sat_sub(area.height, 1), 1);
    Rect {
        x: sat_add(x1, sides),
        y: sat_add(y1, vertical),
        width: sat_sub(w1, (sides + sides) as u16),
        height: sat_sub(h1, (vertical + vertical) as u16),
    }
}

/// `ratatui`'s `Block::inner` for a block with every border and the padding `sides` left and
/// right, `vertical` above and below; the block carries no title. The contract restates the
/// function's own body: one cell off each bordered edge, clamped to the area, then the padding,
/// each step saturating. The area must lie on the screen: `Rect::new` would otherwise narrow it
/// before the block sees it.
#[verifier::external_body]
fn bordered_inner(area: Rect, sides: u16, vertical: u16) -> (inner: Rect)
    requires
        on_screen(area),
        sides + sides <= u16::MAX,
        vertical + vertical <= u16::MAX,
    ensures
        inner == bordered_inner_of(area, sides, vertical),
{
    let padding = ratatui::widgets::Padding::new(sides, sides, vertical, vertical);
    let block = ratatui::widgets::Block::bordered().padding(padding);
    let r = block.inner(ratatui::layout::Rect::new(area.x, area.y, area.width, area.height));
    Rect { x: r.x, y: r.y, width: r.width, height: r.height }
}

/// The row the choice sits on: four rows, and the vertical padding, above the area's bottom.
pub open spec fn choice_row_of(area: Rect, vertical: u16) -> u16 {
    sat_sub(area.bottom_edge(), (4 + vertical) as u16)
}

/// The row the choice sits on, shared with pointer hit testing: the footer is never part of the
/// scrolling body.
pub fn choice_row(area: Rect, vertical: u16) -> (row: u16)
    requires
        vertical + 4 <= u16::MAX,
    ensures
        row == choice_row_of(area, vertical),
{
    area.bottom().saturating_sub(4 + vertical)
}

/// Where each part of the review page goes, and how its body scrolls.
#[derive(Clone, Copy, Debug, PartialEq, Eq, Structural)]
pub struct ReviewLayout {
    /// Inside the border and padding.
    pub inside: Rect,
    /// The scrolling rules.
    pub body: Rect,
    /// What the body measured, with the offset it is drawn at.
    pub viewport: Viewport,
    /// The "more to read" row, present while rules lie below what is shown.
    pub more: Option<Rect>,
    /// The row of the continue choice.
    pub choice: Rect,
    /// The row of the key hint.
    pub hint: Rect,
}

/// The layout of the review page in `area`, from the content insets `sides` and `vertical`, the
/// rows the wrapped rules take at the body's width, and where the reader left the body.
pub open spec fn review_layout_of(
    area: Rect,
    sides: u16,
    vertical: u16,
    content_rows: usize,
    parked: Option<ScrollPosition>,
) -> ReviewLayout {
    let inside = bordered_inner_of(area, sides, vertical);
    let body = Rect { height: sat_sub(inside.height, 4), ..inside };
    let measured = Viewport {
        content_rows,
        content_width: body.width,
        visible_rows: body.height,
        offset: 0,
    };
    let offset = match parked {
        Some(position) => position_offset(position, measured.deepest()),
        None => 0,
    };
    let row = choice_row_of(area, vertical);
    ReviewLayout {
        inside,
        body,
        viewport: Viewport { offset, ..measured },
        more: if offset < measured.deepest() {
            Some(Rect { x: inside.x, y: sat_sub(row, 1), width: inside.width, height: 1 })
        } else {
            None
        },
        choice: Rect { x: inside.x, y: row, width: inside.width, height: 1 },
        hint: Rect { x: inside.x, y: sat_add(row, 2), width: inside.width, height: 1 },
    }
}

/// Lays out the review page. `content_rows` is what the rules wrap to at the body's width; an
/// untouched body opens at its first rule, a parked one where it was left, never past its end.
pub fn review_layout(
    area: Rect,
    sides: u16,
    vertical: u16,
    content_rows: usize,
    parked: Option<ScrollPosition>,
) -> (layout: ReviewLayout)
    requires
        on_screen(area),
        sides + sides <= u16::MAX,
        vertical + vertical <= u16::MAX,
        vertical + 4 <= u16::MAX,
    ensures
        layout == review_layout_of(area, sides, vertical, content_rows, parked),
        layout.viewport.offset <= layout.viewport.deepest(),
        (layout.more is Some) == (layout.viewport.offset < layout.viewport.deepest()),
{
    let inside = bordered_inner(area, sides, vertical);
    let body = Rect { height: inside.height.saturating_sub(4), ..inside };
    let measured = Viewport {
        content_rows,
        content_width: body.width,
        visible_rows: body.height,
        offset: 0,
    };
    let deepest = measured.max_offset();
    let offset = match parked {
        Some(position) => position.offset(deepest),
        None => 0,
    };
    let row = choice_row(area, vertical);
    let more = if offset < deepest {
        Some(Rect { x: inside.x, y: row.saturating_sub(1), width: inside.width, height: 1 })
    } else {
        None
    };
    ReviewLayout {
        inside,
        body,
        viewport: Viewport { offset, ..measured },
        more,
        choice: Rect { x: inside.x, y: row, width: inside.width, height: 1 },
        hint: Rect { x: inside.x, y: row.saturating_add(2), width: inside.width, height: 1 },
    }
}

} // verus!

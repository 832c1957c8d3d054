//! Responsive composition chosen from the terminal's width, and the regions it divides the
//! terminal into.
use vstd::prelude::*;

use crate::surface::{on_screen, Rect};

verus! {

/// Responsive composition selected from terminal width.
#[derive(Clone, Copy, Debug, PartialEq, Eq, Structural)]
pub enum LayoutClass {
    /// Agent rail, transcript, and activity coexist as columns.
    Wide,
    /// Agent rail plus transcript; activity collapses beneath the transcript.
    Medium,
    /// One column; every region becomes a stacked band.
    Narrow,
}

/// The composition a terminal `width` cells wide takes.
pub open spec fn layout_class_for(width: u16) -> LayoutClass {
    if width >= 96 {
        LayoutClass::Wide
    } else if width >= 72 {
        LayoutClass::Medium
    } else {
        LayoutClass::Narrow
    }
}

impl LayoutClass {
    /// Chooses the composition for a terminal width in cells.
    pub fn for_width(width: u16) -> (class: Self)
        ensures
            class == layout_class_for(width),
    {
        if width >= 96 {
            LayoutClass::Wide
        } else if width >= 72 {
            LayoutClass::Medium
        } else {
            LayoutClass::Narrow
        }
    }
}

/// Rows reserved for the notice strip when it has something to report.
pub const NOTICE_HEIGHT: u16 = 4;

/// How one area of a split is sized.
#[derive(Clone, Copy, Debug, PartialEq, Eq, Structural)]
pub enum Constraint {
    /// At least this many cells.
    Min(u16),
    /// Exactly this many cells.
    Length(u16),
}

/// `areas` run down `area` in order: each spans its full width, lies within its rows, and ends
/// at or above the row the next one starts on.
pub open spec fn stacked_in(area: Rect, areas: Seq<Rect>) -> bool {
    &&& forall|i: int|
        0 <= i < areas.len() ==> {
            &&& (#[trigger] areas[i]).x == area.x
            &&& areas[i].width == area.width
            &&& area.y <= areas[i].y
            &&& areas[i].y + areas[i].height <= area.bottom_edge()
        }
    &&& forall|i: int, j: int|
        0 <= i < j < areas.len() ==> #[trigger] areas[i].y + areas[i].height <= #[trigger] areas[j].y
}

/// `areas` run across `area` in order: each spans its full height, lies within its columns, and
/// ends at or before the column the next one starts on.
pub open spec fn side_by_side_in(area: Rect, areas: Seq<Rect>) -> bool {
    &&& forall|i: int|
        0 <= i < areas.len() ==> {
            &&& (#[trigger] areas[i]).y == area.y
            &&& areas[i].height == area.height
            &&& area.x <= areas[i].x
            &&& areas[i].x + areas[i].width <= area.right_edge()
        }
    &&& forall|i: int, j: int|
        0 <= i < j < areas.len() ==> #[trigger] areas[i].x + areas[i].width <= #[trigger] areas[j].x
}

/// `Layout::vertical(constraints).split(area)`: one area per constraint, top to bottom. The
/// solver's required constraints keep every boundary inside `area` and in order, and the areas
/// are built at `area`'s column and width; that much holds of every answer. How the rows are
/// shared out is left unsaid: the solver walks hash maps that each process seeds afresh, so
/// where several sharings are equally good the one it returns can differ between runs. The area
/// must lie on the screen: `Rect::new` would otherwise narrow it first.
#[verifier::external_body]
fn split_vertical(area: Rect, constraints: &[Constraint]) -> (areas: Vec<Rect>)
    requires
        on_screen(area),
    ensures
        areas@.len() == constraints@.len(),
        stacked_in(area, areas@),
{
    let sizes = constraints.iter().map(|c| match *c {
        Constraint::Min(n) => ratatui::layout::Constraint::Min(n),
        Constraint::Length(n) => ratatui::layout::Constraint::Length(n),
    });
    let whole = ratatui::layout::Rect::new(area.x, area.y, area.width, area.height);
    let split = ratatui::layout::Layout::vertical(sizes).split(whole);
    split.iter().map(|r| Rect { x: r.x, y: r.y, width: r.width, height: r.height }).collect()
}

/// `Layout::horizontal(constraints).split(area)`: one area per constraint, left to right, at
/// `area`'s row and height, each boundary inside `area` and in order. As for the vertical split,
/// how the columns are shared out is left unsaid. The area must lie on the screen.
#[verifier::external_body]
fn split_horizontal(area: Rect, constraints: &[Constraint]) -> (areas: Vec<Rect>)
    requires
        on_screen(area),
    ensures
        areas@.len() == constraints@.len(),
        side_by_side_in(area, areas@),
{
    let sizes = constraints.iter().map(|c| match *c {
        Constraint::Min(n) => ratatui::layout::Constraint::Min(n),
        Constraint::Length(n) => ratatui::layout::Constraint::Length(n),
    });
    let whole = ratatui::layout::Rect::new(area.x, area.y, area.width, area.height);
    let split = ratatui::layout::Layout::horizontal(sizes).split(whole);
    split.iter().map(|r| Rect { x: r.x, y: r.y, width: r.width, height: r.height }).collect()
}

/// Where each part of the workspace is drawn.
#[derive(Clone, Copy, Debug, PartialEq, Eq, Structural)]
pub struct Regions {
    pub agents: Rect,
    pub transcript: Rect,
    pub activity: Rect,
    pub notices: Option<Rect>,
    pub footer: Rect,
}

/// How the workspace's regions sit in a terminal `area`: a body, then the notice strip (present
/// exactly when there is something to report), then the footer, stacked down the area; the body
/// divided by the layout class: three columns when wide; the agents column beside a column that
/// stacks the transcript over the activity when medium; three stacked bands when narrow.
pub open spec fn regions_fit(area: Rect, has_notices: bool, r: Regions) -> bool {
    &&& (r.notices is Some) == has_notices
    &&& exists|body: Rect, strip: Rect| #[trigger] regions_around(area, r, body, strip)
}

/// The regions `r` sit in `area` around the body `body` and the strip `strip`.
pub open spec fn regions_around(area: Rect, r: Regions, body: Rect, strip: Rect) -> bool {
    &&& stacked_in(area, seq![body, strip, r.footer])
    &&& (r.notices matches Some(n) ==> n == strip)
    &&& match layout_class_for(area.width) {
        LayoutClass::Wide => side_by_side_in(body, seq![r.agents, r.transcript, r.activity]),
        LayoutClass::Medium => exists|column: Rect|
            #[trigger] beside_agents(body, r.agents, r.transcript, r.activity, column),
        LayoutClass::Narrow => stacked_in(body, seq![r.agents, r.transcript, r.activity]),
    }
}

/// The agents column stands beside `column` in `body`, and `column` stacks the transcript over
/// the activity.
pub open spec fn beside_agents(body: Rect, agents: Rect, transcript: Rect, activity: Rect, column: Rect) -> bool {
    &&& side_by_side_in(body, seq![agents, column])
    &&& stacked_in(column, seq![transcript, activity])
}

/// Divides a terminal `area` into the workspace's regions.
pub fn regions(area: Rect, has_notices: bool) -> (regions: Regions)
    requires
        on_screen(area),
    ensures
        regions_fit(area, has_notices, regions),
{
    let notice_height = if has_notices {
        NOTICE_HEIGHT
    } else {
        0
    };
    let outer_constraints = [Constraint::Min(0), Constraint::Length(notice_height), Constraint::Length(1)];
    let outer = split_vertical(area, &outer_constraints);
    let body = outer[0];
    assert(outer@ =~= seq![outer@[0], outer@[1], outer@[2]]);
    let (agents, transcript, activity) = match LayoutClass::for_width(area.width) {
        LayoutClass::Wide => {
            let constraints = [Constraint::Length(26), Constraint::Min(30), Constraint::Length(30)];
            let columns = split_horizontal(body, &constraints);
            assert(columns@ =~= seq![columns@[0], columns@[1], columns@[2]]);
            (columns[0], columns[1], columns[2])
        },
        LayoutClass::Medium => {
            let constraints = [Constraint::Length(26), Constraint::Min(24)];
            let columns = split_horizontal(body, &constraints);
            assert(columns@ =~= seq![columns@[0], columns@[1]]);
            let inner = [Constraint::Min(6), Constraint::Length(8)];
            let stacked = split_vertical(columns[1], &inner);
            assert(stacked@ =~= seq![stacked@[0], stacked@[1]]);
            assert(beside_agents(body, columns@[0], stacked@[0], stacked@[1], columns@[1]));
            (columns[0], stacked[0], stacked[1])
        },
        LayoutClass::Narrow => {
            let constraints = [Constraint::Length(5), Constraint::Min(6), Constraint::Length(8)];
            let bands = split_vertical(body, &constraints);
            assert(bands@ =~= seq![bands@[0], bands@[1], bands@[2]]);
            (bands[0], bands[1], bands[2])
        },
    };
    let regions = Regions {
        agents,
        transcript,
        activity,
        notices: if has_notices {
            Some(outer[1])
        } else {
            None
        },
        footer: outer[2],
    };
    assert(stacked_in(area, seq![outer@[0], outer@[1], regions.footer]));
    proof {
        if layout_class_for(area.width) == LayoutClass::Medium {
            let column = choose|column: Rect| #[trigger] beside_agents(body, agents, transcript, activity, column);
            assert(beside_agents(body, regions.agents, regions.transcript, regions.activity, column));
        }
    }
    assert(regions_around(area, regions, outer@[0], outer@[1]));
    regions
}

} // verus!

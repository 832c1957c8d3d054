//! What one frame paints, decided before anything is painted: the order of the layers, the
//! surface that holds focus, and the surface that owns the text cursor.
use vstd::prelude::*;

use crate::activity::{decimal, push_decimal};
use crate::clip::Role;
use crate::focus::{Focus, resolved};
use crate::text::{chars_of, string_of};
use crate::surface::{KeyboardFocus, Surface, SurfaceId, SurfaceTree, is_layered};

verus! {

/// Where typed text goes in `surfaces` for the focus preference `preferred`.
pub open spec fn keyboard_of(preferred: Option<SurfaceId>, surfaces: SurfaceTree) -> KeyboardFocus {
    match resolved(preferred, surfaces) {
        Some(id) => match surfaces.find(id) {
            Some(s) => s.kind.typing(),
            None => KeyboardFocus::Navigation,
        },
        None => KeyboardFocus::Navigation,
    }
}

/// The surface that draws the text cursor: the focused one, while it takes typed text.
pub open spec fn cursor_owner_of(preferred: Option<SurfaceId>, surfaces: SurfaceTree) -> Option<SurfaceId> {
    if keyboard_of(preferred, surfaces) == KeyboardFocus::TextInput {
        resolved(preferred, surfaces)
    } else {
        None
    }
}

/// The decisions a frame is painted by.
#[derive(Clone, Debug)]
pub struct FramePlan {
    /// The surfaces, bottom layer first.
    pub order: Vec<Surface>,
    /// The surface that holds focus, drawn with its focus treatment.
    pub focused: Option<SurfaceId>,
    /// The surface that places the terminal cursor, if any does.
    pub cursor_owner: Option<SurfaceId>,
}

/// Plans the frame `surfaces` describes under `focus`: what is painted in which order, which
/// surface is focused and which one owns the cursor. Both answers come from state and geometry
/// before any surface is drawn, so no draw call gets to decide them.
pub fn frame_plan(focus: Focus, surfaces: &SurfaceTree) -> (plan: FramePlan)
    ensures
        is_layered(plan.order@, surfaces.entries()),
        plan.focused == resolved(focus.preference(), *surfaces),
        plan.cursor_owner == cursor_owner_of(focus.preference(), *surfaces),
{
    let order = surfaces.layers();
    let focused = focus.resolve(surfaces);
    let cursor_owner = match focus.keyboard(surfaces) {
        KeyboardFocus::TextInput => focused,
        KeyboardFocus::Navigation => None,
    };
    FramePlan { order, focused, cursor_owner }
}

/// The narrowest terminal the workspace is drawn in.
pub const MIN_WIDTH: u16 = 48;

/// The shortest terminal the workspace is drawn in.
pub const MIN_HEIGHT: u16 = 12;

/// Whether a terminal of this size gets the notice instead of the workspace.
pub open spec fn too_small_at(width: u16, height: u16) -> bool {
    width < MIN_WIDTH || height < MIN_HEIGHT
}

/// Whether a terminal of this size gets the notice instead of the workspace: clipping the
/// workspace would show a layout that misrepresents both the agents and the controls.
pub fn too_small(width: u16, height: u16) -> (small: bool)
    ensures
        small == too_small_at(width, height),
{
    width < MIN_WIDTH || height < MIN_HEIGHT
}

/// `width x height.`, after `lead`.
pub open spec fn size_sentence(lead: Seq<char>, width: u16, height: u16) -> Seq<char> {
    lead + decimal(width as nat) + " x "@ + decimal(height as nat) + "."@
}

/// The one notice a too-small terminal shows, line by line: what is wrong, a blank line, what
/// the workspace needs and what it got.
pub open spec fn too_small_notice_of(width: u16, height: u16) -> Seq<(Seq<char>, Role)> {
    seq![
        ("Terminal too small"@, Role::ActionRequired),
        (Seq::<char>::empty(), Role::Plain),
        (size_sentence("Need at least "@, MIN_WIDTH, MIN_HEIGHT), Role::Body),
        (size_sentence("This one is "@, width, height), Role::Muted),
    ]
}

fn sentence(lead: &str, width: u16, height: u16) -> (text: String)
    ensures
        text@ == size_sentence(lead@, width, height),
{
    let mut out = chars_of(lead);
    push_decimal(width as u64, &mut out);
    let sep = chars_of(" x ");
    let ghost before = out@;
    let mut i: usize = 0;
    while i < sep.len()
        invariant
            i <= sep@.len(),
            out@ == before + sep@.take(i as int),
        decreases sep@.len() - i,
    {
        out.push(sep[i]);
        i += 1;
        assert(out@ =~= before + sep@.take(i as int));
    }
    assert(sep@.take(sep@.len() as int) =~= sep@);
    push_decimal(height as u64, &mut out);
    out.push('.');
    proof {
        reveal_strlit(".");
    }
    assert(out@ =~= size_sentence(lead@, width, height));
    string_of(out.as_slice())
}

/// The notice a terminal of this size shows in place of the workspace.
pub fn too_small_notice(width: u16, height: u16) -> (lines: Vec<(String, Role)>)
    ensures
        lines@.len() == 4,
        forall|i: int|
            0 <= i < 4 ==> (#[trigger] lines@[i]).0@ == too_small_notice_of(width, height)[i].0
                && lines@[i].1 == too_small_notice_of(width, height)[i].1,
{
    let mut lines: Vec<(String, Role)> = Vec::new();
    lines.push((string_of(chars_of("Terminal too small").as_slice()), Role::ActionRequired));
    lines.push((string_of(Vec::<char>::new().as_slice()), Role::Plain));
    lines.push((sentence("Need at least ", MIN_WIDTH, MIN_HEIGHT), Role::Body));
    lines.push((sentence("This one is ", width, height), Role::Muted));
    lines
}

/// What a frame shows: the notice, on a terminal too small for the workspace, or the workspace
/// painted by its plan.
#[derive(Debug)]
pub enum FrameDecision {
    TooSmall { lines: Vec<(String, Role)> },
    Workspace(FramePlan),
}

/// Decides the frame for a terminal `width` by `height` cells: too small, it shows only the
/// notice and no surface; otherwise the workspace, planned as `frame_plan` plans it.
pub fn decide_frame(width: u16, height: u16, focus: Focus, surfaces: &SurfaceTree) -> (d: FrameDecision)
    ensures
        (d is TooSmall) == too_small_at(width, height),
        d matches FrameDecision::TooSmall { lines } ==> lines@.len() == 4 && forall|i: int|
            0 <= i < 4 ==> (#[trigger] lines@[i]).0@ == too_small_notice_of(width, height)[i].0
                && lines@[i].1 == too_small_notice_of(width, height)[i].1,
        d matches FrameDecision::Workspace(plan) ==> {
            &&& is_layered(plan.order@, surfaces.entries())
            &&& plan.focused == resolved(focus.preference(), *surfaces)
            &&& plan.cursor_owner == cursor_owner_of(focus.preference(), *surfaces)
        },
{
    if too_small(width, height) {
        FrameDecision::TooSmall { lines: too_small_notice(width, height) }
    } else {
        FrameDecision::Workspace(frame_plan(focus, surfaces))
    }
}

} // verus!

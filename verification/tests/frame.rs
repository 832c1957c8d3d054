use plexmaton_tui::focus::Focus;
use plexmaton_tui::clip::Role;
use plexmaton_tui::frame::{decide_frame, frame_plan, too_small, too_small_notice, FrameDecision};
use plexmaton_tui::surface::{Rect, Surface, SurfaceId, SurfaceKind, SurfaceTree};

fn surface(id: SurfaceId, z_index: u16, kind: SurfaceKind) -> Surface {
    Surface { id, bounds: Rect::new(0, 0, 80, 10), z_index, kind, viewport: None }
}

fn workspace() -> SurfaceTree {
    let mut tree = SurfaceTree::new();
    tree.insert(surface(SurfaceId::Drawer, 2, SurfaceKind::Modal)).unwrap();
    tree.insert(surface(SurfaceId::Composer, 0, SurfaceKind::Composer)).unwrap();
    tree.insert(surface(SurfaceId::Status, 0, SurfaceKind::Chrome)).unwrap();
    tree.insert(surface(SurfaceId::Transcript, 0, SurfaceKind::Panel)).unwrap();
    tree.insert(surface(SurfaceId::Approval, 1, SurfaceKind::Panel)).unwrap();
    tree.insert(surface(SurfaceId::Agents, 0, SurfaceKind::Panel)).unwrap();
    tree
}

#[test]
fn the_bottom_layer_is_painted_first_and_identity_breaks_ties() {
    let plan = frame_plan(Focus::new(), &workspace());
    let order: Vec<SurfaceId> = plan.order.iter().map(|s| s.id).collect();
    assert_eq!(
        order,
        vec![
            SurfaceId::Agents,
            SurfaceId::Transcript,
            SurfaceId::Composer,
            SurfaceId::Status,
            SurfaceId::Approval,
            SurfaceId::Drawer,
        ]
    );
}

#[test]
fn the_cursor_belongs_to_a_focused_text_input_only() {
    let tree = workspace();
    let mut focus = Focus::new();
    focus.prefer(SurfaceId::Composer);
    let plan = frame_plan(focus, &tree);
    assert_eq!(plan.focused, Some(SurfaceId::Composer));
    assert_eq!(plan.cursor_owner, Some(SurfaceId::Composer));

    let mut focus = Focus::new();
    focus.prefer(SurfaceId::Transcript);
    let plan = frame_plan(focus, &tree);
    assert_eq!(plan.focused, Some(SurfaceId::Transcript));
    assert_eq!(plan.cursor_owner, None);
}

#[test]
fn an_unplaced_preference_falls_back_to_the_first_stop() {
    let tree = workspace();
    let mut focus = Focus::new();
    focus.prefer(SurfaceId::Inspector);
    let plan = frame_plan(focus, &tree);
    // The first focus stop in registration order is the Drawer; it takes no typed text.
    assert_eq!(plan.focused, Some(SurfaceId::Drawer));
    assert_eq!(plan.cursor_owner, None);
}

#[test]
fn an_empty_frame_paints_nothing() {
    let plan = frame_plan(Focus::new(), &SurfaceTree::new());
    assert!(plan.order.is_empty());
    assert_eq!(plan.focused, None);
    assert_eq!(plan.cursor_owner, None);
}

#[test]
fn a_too_small_terminal_gets_the_notice_and_no_workspace() {
    match decide_frame(40, 10, Focus::new(), &workspace()) {
        FrameDecision::TooSmall { lines } => {
            let text: Vec<&str> = lines.iter().map(|(t, _)| t.as_str()).collect();
            assert_eq!(text, vec!["Terminal too small", "", "Need at least 48 x 12.", "This one is 40 x 10."]);
            assert_eq!(lines[0].1, Role::ActionRequired);
            assert_eq!(lines[2].1, Role::Body);
            assert_eq!(lines[3].1, Role::Muted);
        }
        FrameDecision::Workspace(_) => panic!("a 40 x 10 terminal has no room for the workspace"),
    }
}

#[test]
fn the_workspace_needs_both_dimensions() {
    assert!(too_small(47, 40));
    assert!(too_small(200, 11));
    assert!(!too_small(48, 12));
    assert!(matches!(decide_frame(48, 12, Focus::new(), &workspace()), FrameDecision::Workspace(_)));
    assert_eq!(too_small_notice(120, 9)[3].0, "This one is 120 x 9.");
}

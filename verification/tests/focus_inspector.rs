use plexmaton_tui::focus::Focus;
use plexmaton_tui::ids::Identity;
use plexmaton_tui::inspector::Inspector;
use plexmaton_tui::surface::{Rect, Surface, SurfaceId, SurfaceKind, SurfaceTree};

fn tree_of(ids: &[SurfaceId]) -> SurfaceTree {
    let mut tree = SurfaceTree::default();
    for id in ids {
        tree.insert(Surface {
            id: *id,
            bounds: Rect::new(0, 0, 10, 10),
            z_index: 0,
            kind: SurfaceKind::Panel,
            viewport: None,
        })
        .unwrap_or_else(|error| panic!("fixture must insert: {error:?}"));
    }
    tree
}

/// Focus belongs to the surface, not to the frame that happened to draw it.
#[test]
fn focus_returns_to_a_surface_that_comes_back() {
    let full = tree_of(&[SurfaceId::Agents, SurfaceId::Transcript]);
    let reduced = tree_of(&[SurfaceId::Agents]);
    let mut focus = Focus::default();
    focus.point_at(&full, SurfaceId::Transcript);

    assert_eq!(
        focus.resolve(&reduced),
        Some(SurfaceId::Agents),
        "focus must never be delivered to a surface that is not on screen"
    );
    assert_eq!(
        focus.resolve(&full),
        Some(SurfaceId::Transcript),
        "and the preference must survive, or reopening loses where the user was"
    );
}

#[test]
fn focus_resolves_to_nothing_when_no_surface_is_registered() {
    assert_eq!(Focus::default().resolve(&SurfaceTree::default()), None);
}

#[test]
fn pointing_at_an_unfocusable_surface_reports_no_change() {
    let mut tree = tree_of(&[SurfaceId::Agents]);
    tree.insert(Surface {
        id: SurfaceId::Footer,
        bounds: Rect::new(0, 10, 10, 1),
        z_index: 0,
        kind: SurfaceKind::Chrome,
        viewport: None,
    })
    .unwrap_or_else(|error| panic!("fixture must insert: {error:?}"));
    let mut focus = Focus::default();

    assert!(
        !focus.point_at(&tree, SurfaceId::Footer),
        "reporting a change would cost a full repaint for nothing"
    );
    assert_eq!(focus.resolve(&tree), Some(SurfaceId::Agents));
}

fn agent(value: &str) -> Identity {
    Identity::new(value)
}

/// Presentation belongs to the window, not to what it is showing.
#[test]
fn the_presentation_survives_the_window_showing_another_agent() {
    let mut inspector = Inspector::default();
    inspector.toggle_maximized();
    inspector.set_rows(14);

    let view = inspector.view(agent("agent-b"));
    assert_eq!(view.agent, agent("agent-b"));
    assert!(view.maximized, "the presentation survives");
    assert_eq!(
        view.rows,
        Some(14),
        "and so does the height they dragged to"
    );
    assert!(
        !inspector.set_rows(14),
        "setting the height it already has changes nothing and must not force a repaint"
    );
}

/// Closing forgets everything, so a reopened window is the default one.
#[test]
fn resetting_forgets_the_presentation_and_the_grab() {
    let mut inspector = Inspector::default();
    inspector.toggle_maximized();
    inspector.set_rows(9);
    inspector.grab(Some(Rect::new(0, 4, 40, 10)), 13);
    assert!(inspector.is_grabbed());

    inspector.reset();

    assert_eq!(inspector, Inspector::default());
}

/// A drag resizes only when it began on the edge, or dragging the text would move the edge.
#[test]
fn only_a_press_on_the_bottom_edge_starts_a_resize() {
    let mut inspector = Inspector::default();
    let bounds = Rect::new(0, 4, 40, 10);

    inspector.grab(Some(bounds), 8);
    assert!(!inspector.is_grabbed(), "a press in the body is not a grab");

    inspector.grab(Some(bounds), bounds.bottom().saturating_sub(1));
    assert!(inspector.is_grabbed(), "the last row is the resize edge");

    inspector.grab(None, bounds.bottom().saturating_sub(1));
    assert!(
        !inspector.is_grabbed(),
        "a press on another surface clears the grab rather than leaving a stale one"
    );

    inspector.grab(Some(bounds), bounds.bottom().saturating_sub(1));
    inspector.release();
    assert!(!inspector.is_grabbed());
}

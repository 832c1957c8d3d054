use plexmaton_tui::input::TextIntent;
use plexmaton_tui::intent::{Direction, InspectorIntent, PointerIntent, ScrollDirection, TuiIntent};
use plexmaton_tui::router::{
    Event, Ignored, KeyCode, KeyEvent, KeyEventKind, KeyModifiers, MouseButton, MouseEvent,
    MouseEventKind, Routed, Router, RouterContext,
};
use plexmaton_tui::surface::{KeyboardFocus, Point, Rect, Surface, SurfaceId, SurfaceKind, SurfaceTree, Viewport};

// Two real identities in a covering arrangement. The router's grammar does not depend on which
// regions these are, only that one sits above the other.
const PANEL: SurfaceId = SurfaceId::Transcript;
const OVERLAY: SurfaceId = SurfaceId::Notices;

const NONE: KeyModifiers = KeyModifiers { shift: false, control: false, alt: false, other: false };
const SHIFT: KeyModifiers = KeyModifiers { shift: true, control: false, alt: false, other: false };
const CONTROL: KeyModifiers = KeyModifiers { shift: false, control: true, alt: false, other: false };
const CONTROL_SHIFT: KeyModifiers = KeyModifiers { shift: true, control: true, alt: false, other: false };

fn tree() -> SurfaceTree {
    let mut tree = SurfaceTree::default();
    for (id, bounds, z_index) in [
        (PANEL, Rect::new(0, 0, 40, 20), 1),
        (OVERLAY, Rect::new(10, 2, 10, 6), 2),
    ] {
        tree.insert(Surface {
            id,
            bounds,
            z_index,
            kind: SurfaceKind::Panel,
            viewport: Some(Viewport {
                content_rows: 100,
                content_width: bounds.width,
                visible_rows: bounds.height,
                offset: 0,
            }),
        })
        .unwrap_or_else(|error| panic!("fixture must insert: {error:?}"));
    }
    tree
}

/// Focus on the agent rail, which is where an arrow means "another agent".
fn context(surfaces: &SurfaceTree, focus: KeyboardFocus, dismissible: bool) -> RouterContext<'_> {
    focused_on(SurfaceId::Agents, surfaces, focus, dismissible)
}

fn focused_on(
    focused: SurfaceId,
    surfaces: &SurfaceTree,
    focus: KeyboardFocus,
    dismissible: bool,
) -> RouterContext<'_> {
    RouterContext {
        surfaces,
        focus,
        focused: Some(focused),
        dismissible,
        selecting: false,
        tree_open: false,
        tree_editing: false,
        tree_text_input: false,
    }
}

fn key(code: KeyCode, modifiers: KeyModifiers) -> Event {
    Event::Key(KeyEvent { code, modifiers, kind: KeyEventKind::Press })
}

fn mouse(kind: MouseEventKind, x: u16, y: u16) -> Event {
    Event::Mouse(MouseEvent { kind, column: x, row: y, modifiers: NONE })
}

fn press(x: u16, y: u16) -> Event {
    mouse(MouseEventKind::Down(MouseButton::Left), x, y)
}

/// A translation is either one intent or a named reason for none.
#[test]
fn every_terminal_event_is_translated_or_named_as_ignored() {
    let surfaces = tree();
    let context = context(&surfaces, KeyboardFocus::Navigation, false);
    let mut router = Router::default();

    let events = [
        key(KeyCode::Char('q'), NONE),
        key(KeyCode::F(7), NONE),
        Event::Resize(100, 40),
        Event::FocusGained,
        Event::Paste("pasted".to_owned()),
        press(1, 1),
        mouse(MouseEventKind::Moved, 1, 1),
        mouse(MouseEventKind::ScrollLeft, 1, 1),
    ];

    for event in events {
        match router.translate(&event, &context) {
            Routed::Intent(_) | Routed::Ignored(_) => {}
        }
    }
    assert_eq!(
        router.translate(&key(KeyCode::F(7), NONE), &context),
        Routed::Ignored(Ignored::Unbound)
    );
}

/// The same key is text or a command depending only on where the cursor is.
#[test]
fn printable_keys_follow_the_cursor() {
    let surfaces = tree();
    let mut router = Router::default();

    assert_eq!(
        router.translate(
            &key(KeyCode::Char('j'), NONE),
            &context(&surfaces, KeyboardFocus::TextInput, false)
        ),
        Routed::Intent(TuiIntent::Text(TextIntent::Insert('j')))
    );
    assert_eq!(
        router.translate(
            &key(KeyCode::Char('j'), NONE),
            &context(&surfaces, KeyboardFocus::Navigation, false)
        ),
        Routed::Intent(TuiIntent::MoveSelection(Direction::Forward))
    );
    assert_eq!(
        router.translate(
            &key(KeyCode::Char('J'), SHIFT),
            &context(&surfaces, KeyboardFocus::TextInput, false)
        ),
        Routed::Intent(TuiIntent::Text(TextIntent::Insert('J')))
    );
}

/// An arrow moves within whatever holds focus, and the wheel has a keyboard equivalent.
#[test]
fn an_arrow_moves_the_rail_and_scrolls_everything_else() {
    let surfaces = tree();
    let mut router = Router::default();
    let down = key(KeyCode::Down, NONE);

    assert_eq!(
        router.translate(&down, &context(&surfaces, KeyboardFocus::Navigation, false)),
        Routed::Intent(TuiIntent::MoveSelection(Direction::Forward)),
        "the rail is the one navigational surface made of choices"
    );
    assert_eq!(
        router.translate(
            &down,
            &focused_on(PANEL, &surfaces, KeyboardFocus::Navigation, false)
        ),
        Routed::Intent(TuiIntent::Scroll {
            surface: PANEL,
            direction: ScrollDirection::Down,
        }),
        "elsewhere an arrow is the wheel, addressed to where the user is"
    );
    assert_eq!(
        router.translate(
            &key(KeyCode::Char('k'), NONE),
            &focused_on(OVERLAY, &surfaces, KeyboardFocus::Navigation, false)
        ),
        Routed::Intent(TuiIntent::Scroll {
            surface: OVERLAY,
            direction: ScrollDirection::Up,
        }),
        "the vim keys mean exactly what the arrows mean"
    );
    assert_eq!(
        router.translate(
            &down,
            &focused_on(SurfaceId::Composer, &surfaces, KeyboardFocus::Navigation, false)
        ),
        Routed::Ignored(Ignored::NothingScrollable),
        "a surface with nowhere to scroll declines by name rather than moving the rail"
    );
}

/// Hover routing picks the topmost surface and cannot move focus.
#[test]
fn wheel_routes_by_hover_and_never_changes_focus() {
    let surfaces = tree();
    let context = context(&surfaces, KeyboardFocus::Navigation, false);
    let mut router = Router::default();

    assert_eq!(
        router.translate(&mouse(MouseEventKind::ScrollDown, 12, 4), &context),
        Routed::Intent(TuiIntent::Scroll {
            surface: OVERLAY,
            direction: ScrollDirection::Down,
        })
    );
    assert_eq!(
        router.translate(&mouse(MouseEventKind::ScrollUp, 2, 4), &context),
        Routed::Intent(TuiIntent::Scroll {
            surface: PANEL,
            direction: ScrollDirection::Up,
        })
    );
    assert_eq!(
        router.translate(&mouse(MouseEventKind::ScrollUp, 99, 99), &context),
        Routed::Ignored(Ignored::OutsideWorkspace)
    );
    assert_eq!(router.capture(), None, "hover must not take capture");
}

/// Eligibility is whether a viewport can move, not what is on top.
#[test]
fn the_wheel_falls_through_what_cannot_scroll_and_stops_at_what_is_merely_exhausted() {
    let mut surfaces = tree();
    let mut router = Router::default();
    let over_the_overlay = mouse(MouseEventKind::ScrollDown, 12, 4);

    surfaces.set_viewport(
        OVERLAY,
        Viewport {
            content_rows: 2,
            visible_rows: 6,
            offset: 0,
            ..Viewport::default()
        },
    );
    assert_eq!(
        router.translate(
            &over_the_overlay,
            &context(&surfaces, KeyboardFocus::Navigation, false)
        ),
        Routed::Intent(TuiIntent::Scroll {
            surface: PANEL,
            direction: ScrollDirection::Down,
        }),
        "the wheel reached the panel underneath"
    );

    surfaces.set_viewport(
        OVERLAY,
        Viewport {
            content_rows: 40,
            visible_rows: 6,
            offset: 34,
            ..Viewport::default()
        },
    );
    assert_eq!(
        router.translate(
            &over_the_overlay,
            &context(&surfaces, KeyboardFocus::Navigation, false)
        ),
        Routed::Intent(TuiIntent::Scroll {
            surface: OVERLAY,
            direction: ScrollDirection::Down,
        }),
        "an exhausted viewport consumes the wheel rather than passing it down"
    );
}

#[test]
fn a_wheel_over_the_workspace_with_nothing_to_scroll_says_so() {
    let mut surfaces = tree();
    for id in [PANEL, OVERLAY] {
        surfaces.set_viewport(
            id,
            Viewport {
                content_rows: 1,
                visible_rows: 6,
                offset: 0,
                ..Viewport::default()
            },
        );
    }
    let context = context(&surfaces, KeyboardFocus::Navigation, false);
    let mut router = Router::default();

    assert_eq!(
        router.translate(&mouse(MouseEventKind::ScrollDown, 12, 4), &context),
        Routed::Ignored(Ignored::NothingScrollable),
        "over the workspace, but nothing had anywhere to go"
    );
    assert_eq!(
        router.translate(&mouse(MouseEventKind::ScrollDown, 99, 99), &context),
        Routed::Ignored(Ignored::OutsideWorkspace),
        "and that is a different fact from being outside it"
    );
}

/// A drag stays on its surface even when the pointer leaves it.
#[test]
fn capture_keeps_the_drag_on_its_surface() {
    let surfaces = tree();
    let context = context(&surfaces, KeyboardFocus::Navigation, false);
    let mut router = Router::default();

    assert_eq!(
        router.translate(&press(12, 4), &context),
        Routed::Intent(TuiIntent::Pointer(PointerIntent::Press {
            surface: OVERLAY,
            at: Point { x: 12, y: 4 },
        }))
    );
    for (x, y) in [(2_u16, 18_u16), (200, 200)] {
        assert_eq!(
            router.translate(&mouse(MouseEventKind::Drag(MouseButton::Left), x, y), &context),
            Routed::Intent(TuiIntent::Pointer(PointerIntent::Drag {
                surface: OVERLAY,
                at: Point { x, y },
            }))
        );
    }
}

/// The wheel keeps hover routing while a drag is held.
#[test]
fn wheel_is_not_captured_by_a_drag() {
    let surfaces = tree();
    let context = context(&surfaces, KeyboardFocus::Navigation, false);
    let mut router = Router::default();
    router.translate(&press(12, 4), &context);

    assert_eq!(
        router.translate(&mouse(MouseEventKind::ScrollDown, 2, 18), &context),
        Routed::Intent(TuiIntent::Scroll {
            surface: PANEL,
            direction: ScrollDirection::Down,
        })
    );
    assert_eq!(router.capture(), Some(OVERLAY), "the drag is still held");
}

/// Releasing twice cannot produce two gestures.
#[test]
fn capture_is_released_exactly_once() {
    let surfaces = tree();
    let context = context(&surfaces, KeyboardFocus::Navigation, false);
    let mut router = Router::default();
    router.translate(&press(12, 4), &context);

    let release = mouse(MouseEventKind::Up(MouseButton::Left), 12, 5);
    assert_eq!(
        router.translate(&release, &context),
        Routed::Intent(TuiIntent::Pointer(PointerIntent::Release {
            surface: OVERLAY,
            at: Point { x: 12, y: 5 },
        }))
    );
    assert_eq!(router.translate(&release, &context), Routed::Ignored(Ignored::NoCapture));
    assert_eq!(
        router.translate(&mouse(MouseEventKind::Drag(MouseButton::Left), 12, 6), &context),
        Routed::Ignored(Ignored::NoCapture)
    );
}

/// One layer per press, and never a quit.
#[test]
fn escape_resolves_one_layer_per_press() {
    let surfaces = tree();
    let mut router = Router::default();
    let with_layer = context(&surfaces, KeyboardFocus::Navigation, true);
    router.translate(&press(12, 4), &with_layer);

    let escape = key(KeyCode::Esc, NONE);
    assert_eq!(
        router.translate(&escape, &with_layer),
        Routed::Intent(TuiIntent::Pointer(PointerIntent::Cancel { surface: OVERLAY })),
        "the drag is the topmost layer"
    );
    assert_eq!(
        router.translate(&escape, &with_layer),
        Routed::Intent(TuiIntent::Dismiss),
        "the dismissible layer is next, not both at once"
    );

    let bare = context(&surfaces, KeyboardFocus::Navigation, false);
    assert_eq!(router.translate(&escape, &bare), Routed::Ignored(Ignored::NothingToDismiss));
}

/// Every chord resolves the same way under both focus modes; `Enter` is the deliberate exception.
#[test]
fn the_inspector_grammar_is_the_same_under_both_focus_modes_except_enter() {
    let surfaces = tree();
    let mut router = Router::default();
    let chords = [
        (key(KeyCode::Char('f'), CONTROL), InspectorIntent::ToggleMaximize),
        (key(KeyCode::Down, CONTROL_SHIFT), InspectorIntent::Grow),
        (key(KeyCode::Up, CONTROL_SHIFT), InspectorIntent::Shrink),
    ];

    for focus in [KeyboardFocus::Navigation, KeyboardFocus::TextInput] {
        let context = context(&surfaces, focus, true);
        for (event, expected) in &chords {
            assert_eq!(
                router.translate(event, &context),
                Routed::Intent(TuiIntent::Inspector(*expected)),
                "{event:?} must mean the same thing under {focus:?}"
            );
        }
    }

    let navigation = context(&surfaces, KeyboardFocus::Navigation, false);
    let typing = context(&surfaces, KeyboardFocus::TextInput, false);
    let enter = key(KeyCode::Enter, NONE);
    assert_eq!(
        router.translate(&enter, &navigation),
        Routed::Intent(TuiIntent::Inspector(InspectorIntent::Open)),
        "opening is explicit, and there is no cursor to submit to"
    );
    assert_eq!(
        router.translate(&enter, &typing),
        Routed::Intent(TuiIntent::Text(TextIntent::Submit)),
        "the same key submits where a cursor exists"
    );
    assert_eq!(
        router.translate(&key(KeyCode::Down, NONE), &navigation),
        Routed::Intent(TuiIntent::MoveSelection(Direction::Forward))
    );
}

/// Quitting is deliberate, and a bare letter is never it.
#[test]
fn quit_is_explicit_and_unreachable_while_typing() {
    let surfaces = tree();
    let mut router = Router::default();

    assert_eq!(
        router.translate(
            &key(KeyCode::Char('c'), CONTROL),
            &context(&surfaces, KeyboardFocus::TextInput, true)
        ),
        Routed::Intent(TuiIntent::Quit)
    );
    assert_eq!(
        router.translate(
            &key(KeyCode::Char('q'), NONE),
            &context(&surfaces, KeyboardFocus::TextInput, false)
        ),
        Routed::Intent(TuiIntent::Text(TextIntent::Insert('q')))
    );
    for dismissible in [true, false] {
        assert_eq!(
            router.translate(
                &key(KeyCode::Char('q'), NONE),
                &context(&surfaces, KeyboardFocus::Navigation, dismissible)
            ),
            Routed::Ignored(Ignored::Unbound),
            "a bare letter is not a quit key, whatever is open"
        );
    }
}

/// `Shift` hands the gesture back to the terminal.
#[test]
fn shift_leaves_pointer_events_to_the_terminal() {
    let surfaces = tree();
    let context = context(&surfaces, KeyboardFocus::Navigation, false);
    let mut router = Router::default();

    let shifted = Event::Mouse(MouseEvent {
        kind: MouseEventKind::Down(MouseButton::Left),
        column: 12,
        row: 4,
        modifiers: SHIFT,
    });
    assert_eq!(
        router.translate(&shifted, &context),
        Routed::Ignored(Ignored::TerminalSelection)
    );
    assert_eq!(router.capture(), None, "capture must not be taken");
}

/// Geometry reaches the workspace as an intent like anything else.
#[test]
fn resize_is_an_intent() {
    let surfaces = tree();
    let context = context(&surfaces, KeyboardFocus::Navigation, false);
    let mut router = Router::default();

    assert_eq!(
        router.translate(&Event::Resize(132, 40), &context),
        Routed::Intent(TuiIntent::TerminalResized { width: 132, height: 40 })
    );
}

#[test]
fn key_releases_do_not_act_twice() {
    let surfaces = tree();
    let context = context(&surfaces, KeyboardFocus::Navigation, false);
    let mut router = Router::default();
    let release = Event::Key(KeyEvent {
        code: KeyCode::Char('q'),
        modifiers: NONE,
        kind: KeyEventKind::Release,
    });

    assert_eq!(router.translate(&release, &context), Routed::Ignored(Ignored::KeyRelease));
}

#[test]
fn tab_cycles_focus_from_either_side_of_the_cursor() {
    let surfaces = tree();
    let mut router = Router::default();

    for focus in [KeyboardFocus::Navigation, KeyboardFocus::TextInput] {
        let context = context(&surfaces, focus, false);
        assert_eq!(
            router.translate(&key(KeyCode::Tab, NONE), &context),
            Routed::Intent(TuiIntent::CycleFocus(Direction::Forward))
        );
        assert_eq!(
            router.translate(&key(KeyCode::BackTab, SHIFT), &context),
            Routed::Intent(TuiIntent::CycleFocus(Direction::Backward))
        );
    }
}

#[test]
fn enter_submits_and_shift_enter_breaks_the_line() {
    let surfaces = tree();
    let context = context(&surfaces, KeyboardFocus::TextInput, false);
    let mut router = Router::default();

    assert_eq!(
        router.translate(&key(KeyCode::Enter, NONE), &context),
        Routed::Intent(TuiIntent::Text(TextIntent::Submit))
    );
    assert_eq!(
        router.translate(&key(KeyCode::Enter, SHIFT), &context),
        Routed::Intent(TuiIntent::Text(TextIntent::Newline))
    );
}

#[test]
fn a_press_outside_every_surface_takes_no_capture() {
    let surfaces = SurfaceTree::default();
    let context = context(&surfaces, KeyboardFocus::Navigation, false);
    let mut router = Router::default();

    assert_eq!(router.translate(&press(4, 4), &context), Routed::Ignored(Ignored::OutsideWorkspace));
    assert_eq!(router.capture(), None);
}

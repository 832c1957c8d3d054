//! The single translator from terminal events to typed intents.
//!
//! Terminal events arrive here in the library's own vocabulary; whichever terminal backend reads
//! them converts at the edge. The router owns pointer capture and nothing else.
use vstd::prelude::*;

use crate::input::TextIntent;
use crate::intent::{
    AttentionIntent, Direction, InspectorIntent, PointerIntent, ScrollDirection, SelectionIntent,
    TreeIntent, TuiIntent,
};
use crate::surface::{KeyboardFocus, Point, SurfaceId, SurfaceTree};

verus! {

/// A key, as the terminal names it.
#[derive(Clone, Copy, Debug, PartialEq, Eq, Structural)]
pub enum KeyCode {
    Char(char),
    Enter,
    Esc,
    Tab,
    BackTab,
    Backspace,
    Delete,
    Up,
    Down,
    Left,
    Right,
    Home,
    End,
    PageUp,
    PageDown,
    F(u8),
    Other,
}

/// The modifiers held with a key or a pointer event.
#[derive(Clone, Copy, Debug, Default, PartialEq, Eq, Structural)]
pub struct KeyModifiers {
    pub shift: bool,
    pub control: bool,
    pub alt: bool,
    /// Super, hyper or meta: none of them is bound, all of them make a key a chord.
    pub other: bool,
}

impl KeyModifiers {
    /// Whether no modifier is held.
    pub open spec fn none_held(self) -> bool {
        !self.shift && !self.control && !self.alt && !self.other
    }

    /// No modifier.
    pub fn none() -> (m: Self)
        ensures
            m.none_held(),
    {
        KeyModifiers { shift: false, control: false, alt: false, other: false }
    }

    /// Whether no modifier is held.
    pub fn is_empty(&self) -> (empty: bool)
        ensures
            empty == self.none_held(),
    {
        !self.shift && !self.control && !self.alt && !self.other
    }
}

/// Whether a key frame is a press, a repeat of a held press, or a release.
#[derive(Clone, Copy, Debug, PartialEq, Eq, Structural)]
pub enum KeyEventKind {
    Press,
    Repeat,
    Release,
}

/// One key frame.
#[derive(Clone, Copy, Debug, PartialEq, Eq, Structural)]
pub struct KeyEvent {
    pub code: KeyCode,
    pub modifiers: KeyModifiers,
    pub kind: KeyEventKind,
}

/// A pointer button.
#[derive(Clone, Copy, Debug, PartialEq, Eq, Structural)]
pub enum MouseButton {
    Left,
    Right,
    Middle,
}

/// What the pointer did.
#[derive(Clone, Copy, Debug, PartialEq, Eq, Structural)]
pub enum MouseEventKind {
    Down(MouseButton),
    Up(MouseButton),
    Drag(MouseButton),
    Moved,
    ScrollUp,
    ScrollDown,
    ScrollLeft,
    ScrollRight,
}

/// One pointer event.
#[derive(Clone, Copy, Debug, PartialEq, Eq, Structural)]
pub struct MouseEvent {
    pub kind: MouseEventKind,
    pub column: u16,
    pub row: u16,
    pub modifiers: KeyModifiers,
}

/// One terminal event.
#[derive(Clone, Debug, PartialEq, Eq)]
pub enum Event {
    Key(KeyEvent),
    Mouse(MouseEvent),
    Resize(u16, u16),
    FocusGained,
    FocusLost,
    Paste(String),
}

/// Read-only view facts the router reads but does not own.
#[derive(Clone, Copy, Debug)]
pub struct RouterContext<'a> {
    /// Geometry and z-order the renderer laid out.
    pub surfaces: &'a SurfaceTree,
    /// Where typed text would go right now.
    pub focus: KeyboardFocus,
    /// Which surface holds keyboard focus, resolved against the frame that was drawn.
    pub focused: Option<SurfaceId>,
    /// Whether a dismissible layer is open above the workspace.
    pub dismissible: bool,
    /// Whether the user has a selection, which is a rung of the `Escape` ladder.
    pub selecting: bool,
    /// Whether the conversation tree is open and takes the keyboard.
    pub tree_open: bool,
    /// Whether the tree is editing a name or a label.
    pub tree_editing: bool,
    /// Whether that edit has a text input holding the cursor.
    pub tree_text_input: bool,
}

/// Why a terminal event produced no intent.
#[derive(Clone, Copy, Debug, PartialEq, Eq, Structural)]
pub enum Ignored {
    /// A key release.
    KeyRelease,
    /// The input has no binding in the current focus.
    Unbound,
    /// The pointer was over no registered surface.
    OutsideWorkspace,
    /// A drag or release arrived with no capture held.
    NoCapture,
    /// `Escape` with no drag to cancel and nothing dismissible.
    NothingToDismiss,
    /// The surface addressed by the wheel or by an arrow had nowhere to scroll.
    NothingScrollable,
    /// The modifier escape hatch: this event belongs to the terminal's own selection.
    TerminalSelection,
}

/// Outcome of translating one terminal event.
#[derive(Clone, Debug, PartialEq, Eq)]
pub enum Routed {
    /// The event asked the workspace for something.
    Intent(TuiIntent),
    /// The event asked for nothing, for the named reason.
    Ignored(Ignored),
}

/// What a key addressed to the one visible cursor means.
pub open spec fn text_key_spec(key: KeyEvent) -> Routed {
    let commanded = key.modifiers.control || key.modifiers.alt;
    match key.code {
        KeyCode::Char(c) if !commanded => Routed::Intent(TuiIntent::Text(TextIntent::Insert(c))),
        KeyCode::Backspace if !commanded => Routed::Intent(
            TuiIntent::Text(TextIntent::DeleteBackward),
        ),
        KeyCode::Enter if key.modifiers.shift || key.modifiers.alt => Routed::Intent(
            TuiIntent::Text(TextIntent::Newline),
        ),
        KeyCode::Enter => Routed::Intent(TuiIntent::Text(TextIntent::Submit)),
        _ => Routed::Ignored(Ignored::Unbound),
    }
}

/// What a second-window chord means, if the key is one.
pub open spec fn inspector_chord_spec(key: KeyEvent) -> Option<TuiIntent> {
    let control = key.modifiers.control;
    let shift = key.modifiers.shift;
    match key.code {
        KeyCode::Char('f') if control && !shift => Some(
            TuiIntent::Inspector(InspectorIntent::ToggleMaximize),
        ),
        KeyCode::Down if control && shift => Some(TuiIntent::Inspector(InspectorIntent::Grow)),
        KeyCode::Up if control && shift => Some(TuiIntent::Inspector(InspectorIntent::Shrink)),
        _ => None,
    }
}

/// What a selection chord means, if the key is one.
pub open spec fn selection_chord_spec(key: KeyEvent) -> Option<TuiIntent> {
    let control = key.modifiers.control;
    let shift = key.modifiers.shift;
    match key.code {
        KeyCode::Down if shift && !control => Some(
            TuiIntent::Selection(SelectionIntent::Extend(Direction::Forward)),
        ),
        KeyCode::Up if shift && !control => Some(
            TuiIntent::Selection(SelectionIntent::Extend(Direction::Backward)),
        ),
        KeyCode::Char('y') if control && !shift => Some(TuiIntent::Selection(SelectionIntent::Copy)),
        _ => None,
    }
}

/// What one step down or up means inside the focused surface.
pub open spec fn step_spec(
    list: Direction,
    wheel: ScrollDirection,
    focused: Option<SurfaceId>,
    surfaces: SurfaceTree,
) -> Routed {
    match focused {
        Some(SurfaceId::Agents) => Routed::Intent(TuiIntent::MoveSelection(list)),
        Some(SurfaceId::Attention) => Routed::Intent(
            TuiIntent::Attention(AttentionIntent::Move(list)),
        ),
        Some(surface) => if (surfaces.find(surface) matches Some(s) && (s.viewport matches Some(
            v,
        ) && v.can_scroll())) {
            Routed::Intent(TuiIntent::Scroll { surface, direction: wheel })
        } else {
            Routed::Ignored(Ignored::NothingScrollable)
        },
        None => Routed::Ignored(Ignored::Unbound),
    }
}

/// What a key addressed to a navigational surface means.
pub open spec fn navigation_key_spec(
    key: KeyEvent,
    focused: Option<SurfaceId>,
    surfaces: SurfaceTree,
) -> Routed {
    if !key.modifiers.none_held() {
        Routed::Ignored(Ignored::Unbound)
    } else {
        match key.code {
            KeyCode::Enter => if focused == Some(SurfaceId::Attention) {
                Routed::Intent(TuiIntent::Attention(AttentionIntent::GoTo))
            } else {
                Routed::Intent(TuiIntent::Inspector(InspectorIntent::Open))
            },
            KeyCode::Down | KeyCode::Char('j') => step_spec(
                Direction::Forward,
                ScrollDirection::Down,
                focused,
                surfaces,
            ),
            KeyCode::Up | KeyCode::Char('k') => step_spec(
                Direction::Backward,
                ScrollDirection::Up,
                focused,
                surfaces,
            ),
            _ => Routed::Ignored(Ignored::Unbound),
        }
    }
}

/// What the wheel at `at` means: the topmost surface there that can scroll, or a named reason.
pub open spec fn scroll_spec(at: Point, direction: ScrollDirection, surfaces: SurfaceTree) -> Routed {
    if exists|i: int|
        is_topmost_wheel(surfaces, i, at) {
        Routed::Intent(
            TuiIntent::Scroll {
                surface: surfaces.entries()[choose|i: int| is_topmost_wheel(surfaces, i, at)].id,
                direction,
            },
        )
    } else if exists|i: int| 0 <= i < surfaces.entries().len() && surfaces.entries()[i].bounds.holds(at) {
        Routed::Ignored(Ignored::NothingScrollable)
    } else {
        Routed::Ignored(Ignored::OutsideWorkspace)
    }
}

/// Whether entry `i` is the topmost surface at `at` that the wheel can move.
pub open spec fn is_topmost_wheel(surfaces: SurfaceTree, i: int, at: Point) -> bool {
    crate::surface::is_topmost(surfaces.entries(), i, crate::surface::wheel_catches(at))
}

/// What a key means to the open conversation tree.
pub open spec fn tree_key_spec(key: KeyEvent, capture: Option<SurfaceId>, context: RouterContext) -> Routed {
    let plain = key.modifiers.none_held();
    let pressed = key.kind is Press;
    if key.code is Esc {
        if capture is Some {
            Routed::Intent(TuiIntent::Pointer(PointerIntent::Cancel { surface: capture->0 }))
        } else if context.tree_editing {
            Routed::Intent(TuiIntent::Tree(TreeIntent::CancelEdit))
        } else {
            Routed::Intent(TuiIntent::Tree(TreeIntent::Close))
        }
    } else if context.surfaces.find(SurfaceId::ConversationTree) is None {
        Routed::Ignored(Ignored::Unbound)
    } else if context.tree_editing {
        if key.code is Enter {
            if plain && pressed {
                Routed::Intent(TuiIntent::Tree(TreeIntent::SubmitEdit))
            } else {
                Routed::Ignored(Ignored::Unbound)
            }
        } else if context.tree_text_input {
            match text_key_spec(key) {
                Routed::Intent(TuiIntent::Text(intent)) => Routed::Intent(
                    TuiIntent::Tree(TreeIntent::EditInput(intent)),
                ),
                _ => Routed::Ignored(Ignored::Unbound),
            }
        } else {
            Routed::Ignored(Ignored::Unbound)
        }
    } else {
        match key.code {
            KeyCode::Up if plain => Routed::Intent(
                TuiIntent::Tree(TreeIntent::Move(Direction::Backward)),
            ),
            KeyCode::Char('k') if plain => Routed::Intent(
                TuiIntent::Tree(TreeIntent::Move(Direction::Backward)),
            ),
            KeyCode::Down if plain => Routed::Intent(
                TuiIntent::Tree(TreeIntent::Move(Direction::Forward)),
            ),
            KeyCode::Char('j') if plain => Routed::Intent(
                TuiIntent::Tree(TreeIntent::Move(Direction::Forward)),
            ),
            KeyCode::Home if plain => Routed::Intent(TuiIntent::Tree(TreeIntent::Home)),
            KeyCode::End if plain => Routed::Intent(TuiIntent::Tree(TreeIntent::End)),
            KeyCode::Enter if plain && pressed => Routed::Intent(TuiIntent::Tree(TreeIntent::Navigate)),
            KeyCode::Char('b') if plain && pressed => Routed::Intent(
                TuiIntent::Tree(TreeIntent::ToggleBranches),
            ),
            KeyCode::Char('f') if plain && pressed => Routed::Intent(
                TuiIntent::Tree(TreeIntent::ToggleFold),
            ),
            KeyCode::Char('r') if plain && pressed => Routed::Intent(
                TuiIntent::Tree(TreeIntent::Refresh),
            ),
            KeyCode::Char('y') if pressed && (plain || (key.modifiers.control
                && !key.modifiers.shift && !key.modifiers.alt && !key.modifiers.other)) => Routed::Intent(
                TuiIntent::Tree(TreeIntent::CopySource),
            ),
            KeyCode::Char('n') if plain && pressed => Routed::Intent(
                TuiIntent::Tree(TreeIntent::RenameHead),
            ),
            KeyCode::Char('l') if plain && pressed => Routed::Intent(
                TuiIntent::Tree(TreeIntent::EditLabel),
            ),
            KeyCode::Char('x') if plain && pressed => Routed::Intent(
                TuiIntent::Tree(TreeIntent::AbandonHead),
            ),
            _ => Routed::Ignored(Ignored::Unbound),
        }
    }
}

/// What `Escape` resolves, and the capture left behind: a drag, then a dismissible layer or a
/// selection, then nothing.
pub open spec fn escape_spec(capture: Option<SurfaceId>, context: RouterContext) -> (Option<SurfaceId>, Routed) {
    match capture {
        Some(surface) => (None, Routed::Intent(TuiIntent::Pointer(PointerIntent::Cancel { surface }))),
        None => if context.selecting || context.dismissible {
            (None, Routed::Intent(TuiIntent::Dismiss))
        } else {
            (None, Routed::Ignored(Ignored::NothingToDismiss))
        },
    }
}

/// What a key frame means, and the capture left behind.
pub open spec fn key_spec(capture: Option<SurfaceId>, key: KeyEvent, context: RouterContext) -> (Option<SurfaceId>, Routed) {
    if key.kind is Release {
        (capture, Routed::Ignored(Ignored::KeyRelease))
    } else if key.code == KeyCode::Char('c') && key.modifiers.control {
        (capture, Routed::Intent(TuiIntent::Quit))
    } else if context.tree_open {
        if key.code is Esc && capture is Some {
            (None, tree_key_spec(key, capture, context))
        } else {
            (capture, tree_key_spec(key, capture, context))
        }
    } else if inspector_chord_spec(key) is Some {
        (capture, Routed::Intent(inspector_chord_spec(key)->0))
    } else if selection_chord_spec(key) is Some {
        (capture, Routed::Intent(selection_chord_spec(key)->0))
    } else {
        match key.code {
            KeyCode::Esc => escape_spec(capture, context),
            KeyCode::BackTab => (capture, Routed::Intent(TuiIntent::CycleFocus(Direction::Backward))),
            KeyCode::Tab => if key.modifiers.shift {
                (capture, Routed::Intent(TuiIntent::CycleFocus(Direction::Backward)))
            } else {
                (capture, Routed::Intent(TuiIntent::CycleFocus(Direction::Forward)))
            },
            _ => match context.focus {
                KeyboardFocus::TextInput => (capture, text_key_spec(key)),
                KeyboardFocus::Navigation => (
                    capture,
                    navigation_key_spec(key, context.focused, *context.surfaces),
                ),
            },
        }
    }
}

/// What a pointer event means, and the capture left behind.
pub open spec fn mouse_spec(capture: Option<SurfaceId>, mouse: MouseEvent, context: RouterContext) -> (Option<SurfaceId>, Routed) {
    let at = Point { x: mouse.column, y: mouse.row };
    let surfaces = *context.surfaces;
    if mouse.modifiers.shift {
        (capture, Routed::Ignored(Ignored::TerminalSelection))
    } else {
        match mouse.kind {
            MouseEventKind::Down(MouseButton::Left) => if exists|i: int|
                crate::surface::is_topmost(surfaces.entries(), i, crate::surface::covers(at)) {
                let hit = surfaces.entries()[choose|i: int|
                    crate::surface::is_topmost(surfaces.entries(), i, crate::surface::covers(at))].id;
                (Some(hit), Routed::Intent(TuiIntent::Pointer(PointerIntent::Press { surface: hit, at })))
            } else {
                (capture, Routed::Ignored(Ignored::OutsideWorkspace))
            },
            MouseEventKind::Drag(MouseButton::Left) => match capture {
                Some(surface) => (capture, Routed::Intent(TuiIntent::Pointer(PointerIntent::Drag { surface, at }))),
                None => (capture, Routed::Ignored(Ignored::NoCapture)),
            },
            MouseEventKind::Up(MouseButton::Left) => match capture {
                Some(surface) => (None, Routed::Intent(TuiIntent::Pointer(PointerIntent::Release { surface, at }))),
                None => (capture, Routed::Ignored(Ignored::NoCapture)),
            },
            MouseEventKind::ScrollUp => (capture, scroll_spec(at, ScrollDirection::Up, surfaces)),
            MouseEventKind::ScrollDown => (capture, scroll_spec(at, ScrollDirection::Down, surfaces)),
            _ => (capture, Routed::Ignored(Ignored::Unbound)),
        }
    }
}

/// Owns pointer capture and nothing else.
#[derive(Clone, Copy, Debug, Default, PartialEq, Eq, Structural)]
pub struct Router {
    capture: Option<SurfaceId>,
}

/// Keys addressed to the one visible cursor.
pub fn text_key(key: KeyEvent) -> (routed: Routed)
    ensures
        routed == text_key_spec(key),
{
    let commanded = key.modifiers.control || key.modifiers.alt;
    match key.code {
        KeyCode::Char(character) if !commanded => Routed::Intent(
            TuiIntent::Text(TextIntent::Insert(character)),
        ),
        KeyCode::Backspace if !commanded => Routed::Intent(
            TuiIntent::Text(TextIntent::DeleteBackward),
        ),
        KeyCode::Enter if key.modifiers.shift || key.modifiers.alt => Routed::Intent(
            TuiIntent::Text(TextIntent::Newline),
        ),
        KeyCode::Enter => Routed::Intent(TuiIntent::Text(TextIntent::Submit)),
        _ => Routed::Ignored(Ignored::Unbound),
    }
}

/// Second-window chords, which resolve before keyboard focus is consulted.
fn inspector_chord(key: KeyEvent) -> (intent: Option<TuiIntent>)
    ensures
        intent == inspector_chord_spec(key),
{
    let control = key.modifiers.control;
    let shift = key.modifiers.shift;
    match key.code {
        KeyCode::Char('f') if control && !shift => Some(
            TuiIntent::Inspector(InspectorIntent::ToggleMaximize),
        ),
        KeyCode::Down if control && shift => Some(TuiIntent::Inspector(InspectorIntent::Grow)),
        KeyCode::Up if control && shift => Some(TuiIntent::Inspector(InspectorIntent::Shrink)),
        _ => None,
    }
}

/// Selection chords, which resolve before keyboard focus is consulted.
fn selection_chord(key: KeyEvent) -> (intent: Option<TuiIntent>)
    ensures
        intent == selection_chord_spec(key),
{
    let control = key.modifiers.control;
    let shift = key.modifiers.shift;
    match key.code {
        KeyCode::Down if shift && !control => Some(
            TuiIntent::Selection(SelectionIntent::Extend(Direction::Forward)),
        ),
        KeyCode::Up if shift && !control => Some(
            TuiIntent::Selection(SelectionIntent::Extend(Direction::Backward)),
        ),
        KeyCode::Char('y') if control && !shift => Some(TuiIntent::Selection(SelectionIntent::Copy)),
        _ => None,
    }
}

/// One step down or up, meaning whatever "down" means inside the surface that holds focus: the
/// rail and the queue move a choice; everywhere else an arrow is the wheel.
pub fn step(list: Direction, wheel: ScrollDirection, context: &RouterContext<'_>) -> (routed: Routed)
    ensures
        routed == step_spec(list, wheel, context.focused, *context.surfaces),
{
    match context.focused {
        Some(SurfaceId::Agents) => Routed::Intent(TuiIntent::MoveSelection(list)),
        Some(SurfaceId::Attention) => Routed::Intent(
            TuiIntent::Attention(AttentionIntent::Move(list)),
        ),
        Some(surface) => {
            let scrollable = match context.surfaces.viewport(surface) {
                Some(viewport) => viewport.is_scrollable(),
                None => false,
            };
            if scrollable {
                Routed::Intent(TuiIntent::Scroll { surface, direction: wheel })
            } else {
                Routed::Ignored(Ignored::NothingScrollable)
            }
        },
        None => Routed::Ignored(Ignored::Unbound),
    }
}

/// Keys addressed to a navigational surface, where no cursor exists.
fn navigation_key(key: KeyEvent, context: &RouterContext<'_>) -> (routed: Routed)
    ensures
        routed == navigation_key_spec(key, context.focused, *context.surfaces),
{
    if !key.modifiers.is_empty() {
        return Routed::Ignored(Ignored::Unbound);
    }
    match key.code {
        KeyCode::Enter => {
            let on_queue = match context.focused {
                Some(SurfaceId::Attention) => true,
                _ => false,
            };
            if on_queue {
                Routed::Intent(TuiIntent::Attention(AttentionIntent::GoTo))
            } else {
                Routed::Intent(TuiIntent::Inspector(InspectorIntent::Open))
            }
        },
        KeyCode::Down | KeyCode::Char('j') => step(
            Direction::Forward,
            ScrollDirection::Down,
            context,
        ),
        KeyCode::Up | KeyCode::Char('k') => step(Direction::Backward, ScrollDirection::Up, context),
        _ => Routed::Ignored(Ignored::Unbound),
    }
}

/// Resolves a wheel event against viewports rather than against geometry: the wheel falls through
/// a surface with nothing to scroll, and stops at one merely at its end.
pub fn scroll(at: Point, direction: ScrollDirection, context: &RouterContext<'_>) -> (routed: Routed)
    ensures
        routed == scroll_spec(at, direction, *context.surfaces),
{
    let surfaces = context.surfaces;
    match surfaces.wheel_target(at) {
        Some(surface) => {
            proof {
                let i = choose|i: int|
                    crate::surface::is_topmost(surfaces.entries(), i, crate::surface::wheel_catches(at))
                        && surfaces.entries()[i].id == surface;
                assert(is_topmost_wheel(*surfaces, i, at));
                let w = choose|i: int| is_topmost_wheel(*surfaces, i, at);
                lemma_topmost_unique(*surfaces, i, w, crate::surface::wheel_catches(at));
            }
            Routed::Intent(TuiIntent::Scroll { surface, direction })
        },
        None => {
            proof {
                if exists|i: int| is_topmost_wheel(*surfaces, i, at) {
                    let i = choose|i: int| is_topmost_wheel(*surfaces, i, at);
                    assert(crate::surface::wheel_catches(at)(surfaces.entries()[i]));
                }
            }
            match surfaces.hit_test(at) {
                None => Routed::Ignored(Ignored::OutsideWorkspace),
                Some(_) => {
                    proof {
                        let i = choose|i: int|
                            crate::surface::is_topmost(surfaces.entries(), i, crate::surface::covers(at));
                        assert(crate::surface::covers(at)(surfaces.entries()[i]));
                    }
                    Routed::Ignored(Ignored::NothingScrollable)
                },
            }
        },
    }
}

/// Two topmost entries for one predicate are the same entry.
proof fn lemma_topmost_unique(
    surfaces: SurfaceTree,
    i: int,
    j: int,
    pred: spec_fn(crate::surface::Surface) -> bool,
)
    requires
        crate::surface::is_topmost(surfaces.entries(), i, pred),
        crate::surface::is_topmost(surfaces.entries(), j, pred),
    ensures
        i == j,
{
    assert(pred(surfaces.entries()[i]));
    assert(pred(surfaces.entries()[j]));
}

/// The paste reaches the tree's editor when it holds the cursor, and nothing else.
pub fn paste(text: &str, context: &RouterContext<'_>) -> (routed: Routed)
    ensures
        (context.tree_text_input && context.focused == Some(SurfaceId::ConversationTree)) ==> (
        routed matches Routed::Intent(TuiIntent::Tree(TreeIntent::EditInput(TextIntent::Paste(s))))
            && s@ == text@),
        !(context.tree_text_input && context.focused == Some(SurfaceId::ConversationTree))
            ==> routed == Routed::Ignored(Ignored::Unbound),
{
    let on_tree = match context.focused {
        Some(SurfaceId::ConversationTree) => true,
        _ => false,
    };
    if context.tree_text_input && on_tree {
        Routed::Intent(TuiIntent::Tree(TreeIntent::EditInput(TextIntent::Paste(text.to_owned()))))
    } else {
        Routed::Ignored(Ignored::Unbound)
    }
}

impl Router {
    /// The surface holding pointer capture.
    pub closed spec fn held(self) -> Option<SurfaceId> {
        self.capture
    }

    /// No capture held.
    pub fn new() -> (router: Self)
        ensures
            router.held() is None,
    {
        Router { capture: None }
    }

    /// Returns the surface currently holding pointer capture, if any.
    pub fn capture(&self) -> (capture: Option<SurfaceId>)
        ensures
            capture == self.held(),
    {
        self.capture
    }

    /// Translates one terminal event into at most one intent.
    pub fn translate(&mut self, event: &Event, context: &RouterContext<'_>) -> (routed: Routed)
        ensures
            match *event {
                Event::Key(key) => (final(self).held(), routed) == key_spec(
                    old(self).held(),
                    key,
                    *context,
                ),
                Event::Mouse(mouse) => (final(self).held(), routed) == mouse_spec(
                    old(self).held(),
                    mouse,
                    *context,
                ),
                Event::Resize(width, height) => final(self).held() == old(self).held() && routed
                    == Routed::Intent(TuiIntent::TerminalResized { width, height }),
                Event::FocusGained | Event::FocusLost => final(self).held() == old(self).held()
                    && routed == Routed::Ignored(Ignored::Unbound),
                Event::Paste(text) => final(self).held() == old(self).held() && (
                (context.tree_text_input && context.focused == Some(SurfaceId::ConversationTree))
                    ==> (routed matches Routed::Intent(
                    TuiIntent::Tree(TreeIntent::EditInput(TextIntent::Paste(s))),
                ) && s@ == text@)) && (!(context.tree_text_input && context.focused == Some(
                    SurfaceId::ConversationTree,
                )) ==> routed == Routed::Ignored(Ignored::Unbound)),
            },
    {
        match event {
            Event::Key(key) => self.on_key(*key, context),
            Event::Mouse(mouse) => self.on_mouse(*mouse, context),
            Event::Resize(width, height) => Routed::Intent(
                TuiIntent::TerminalResized { width: *width, height: *height },
            ),
            Event::FocusGained | Event::FocusLost => Routed::Ignored(Ignored::Unbound),
            Event::Paste(text) => paste(text.as_str(), context),
        }
    }

    fn on_key(&mut self, key: KeyEvent, context: &RouterContext<'_>) -> (routed: Routed)
        ensures
            (final(self).held(), routed) == key_spec(old(self).held(), key, *context),
    {
        if key.kind == KeyEventKind::Release {
            return Routed::Ignored(Ignored::KeyRelease);
        }
        if key.code == KeyCode::Char('c') && key.modifiers.control {
            return Routed::Intent(TuiIntent::Quit);
        }
        if context.tree_open {
            return self.tree_key(key, context);
        }
        if let Some(intent) = inspector_chord(key) {
            return Routed::Intent(intent);
        }
        if let Some(intent) = selection_chord(key) {
            return Routed::Intent(intent);
        }
        match key.code {
            KeyCode::Esc => self.escape(context),
            KeyCode::BackTab => Routed::Intent(TuiIntent::CycleFocus(Direction::Backward)),
            KeyCode::Tab => if key.modifiers.shift {
                Routed::Intent(TuiIntent::CycleFocus(Direction::Backward))
            } else {
                Routed::Intent(TuiIntent::CycleFocus(Direction::Forward))
            },
            _ => match context.focus {
                KeyboardFocus::TextInput => text_key(key),
                KeyboardFocus::Navigation => navigation_key(key, context),
            },
        }
    }

    /// Resolves exactly one layer per press: an active drag, then a dismissible layer, then
    /// nothing. `Escape` never quits.
    pub fn escape(&mut self, context: &RouterContext<'_>) -> (routed: Routed)
        ensures
            (final(self).held(), routed) == escape_spec(old(self).held(), *context),
    {
        if let Some(surface) = self.capture {
            self.capture = None;
            return Routed::Intent(TuiIntent::Pointer(PointerIntent::Cancel { surface }));
        }
        if context.selecting || context.dismissible {
            return Routed::Intent(TuiIntent::Dismiss);
        }
        Routed::Ignored(Ignored::NothingToDismiss)
    }

    fn on_mouse(&mut self, mouse: MouseEvent, context: &RouterContext<'_>) -> (routed: Routed)
        ensures
            (final(self).held(), routed) == mouse_spec(old(self).held(), mouse, *context),
    {
        if mouse.modifiers.shift {
            return Routed::Ignored(Ignored::TerminalSelection);
        }
        let at = Point { x: mouse.column, y: mouse.row };
        match mouse.kind {
            MouseEventKind::Down(MouseButton::Left) => self.press(at, context),
            MouseEventKind::Drag(MouseButton::Left) => match self.capture {
                Some(surface) => Routed::Intent(TuiIntent::Pointer(PointerIntent::Drag { surface, at })),
                None => Routed::Ignored(Ignored::NoCapture),
            },
            MouseEventKind::Up(MouseButton::Left) => match self.capture {
                Some(surface) => {
                    self.capture = None;
                    Routed::Intent(TuiIntent::Pointer(PointerIntent::Release { surface, at }))
                },
                None => Routed::Ignored(Ignored::NoCapture),
            },
            MouseEventKind::ScrollUp => scroll(at, ScrollDirection::Up, context),
            MouseEventKind::ScrollDown => scroll(at, ScrollDirection::Down, context),
            _ => Routed::Ignored(Ignored::Unbound),
        }
    }

    /// A press takes capture on the topmost surface under it, or nothing outside the workspace.
    pub fn press(&mut self, at: Point, context: &RouterContext<'_>) -> (routed: Routed)
        ensures
            (final(self).held(), routed) == mouse_spec(
                old(self).held(),
                MouseEvent {
                    kind: MouseEventKind::Down(MouseButton::Left),
                    column: at.x,
                    row: at.y,
                    modifiers: KeyModifiers { shift: false, control: false, alt: false, other: false },
                },
                *context,
            ),
    {
        let surfaces = context.surfaces;
        match surfaces.hit_test(at) {
            Some(surface) => {
                proof {
                    let i = choose|i: int|
                        crate::surface::is_topmost(surfaces.entries(), i, crate::surface::covers(at))
                            && surfaces.entries()[i].id == surface;
                    let w = choose|i: int|
                        crate::surface::is_topmost(surfaces.entries(), i, crate::surface::covers(at));
                    lemma_topmost_unique(*surfaces, i, w, crate::surface::covers(at));
                }
                self.capture = Some(surface);
                Routed::Intent(TuiIntent::Pointer(PointerIntent::Press { surface, at }))
            },
            None => {
                proof {
                    if exists|i: int|
                        crate::surface::is_topmost(surfaces.entries(), i, crate::surface::covers(at)) {
                        let i = choose|i: int|
                            crate::surface::is_topmost(surfaces.entries(), i, crate::surface::covers(at));
                        assert(crate::surface::covers(at)(surfaces.entries()[i]));
                    }
                }
                Routed::Ignored(Ignored::OutsideWorkspace)
            },
        }
    }

    /// The conversation tree's blocking grammar, which shares the one capture owner.
    fn tree_key(&mut self, key: KeyEvent, context: &RouterContext<'_>) -> (routed: Routed)
        requires
            key.kind != KeyEventKind::Release,
        ensures
            routed == tree_key_spec(key, old(self).held(), *context),
            final(self).held() == if key.code is Esc && old(self).held() is Some {
                None
            } else {
                old(self).held()
            },
    {
        if key.code == KeyCode::Esc {
            if let Some(surface) = self.capture {
                self.capture = None;
                return Routed::Intent(TuiIntent::Pointer(PointerIntent::Cancel { surface }));
            }
            return Routed::Intent(
                TuiIntent::Tree(
                    if context.tree_editing {
                        TreeIntent::CancelEdit
                    } else {
                        TreeIntent::Close
                    },
                ),
            );
        }
        if context.surfaces.get(SurfaceId::ConversationTree).is_none() {
            return Routed::Ignored(Ignored::Unbound);
        }
        let pressed = key.kind == KeyEventKind::Press;
        let plain = key.modifiers.is_empty();
        if context.tree_editing {
            if key.code == KeyCode::Enter {
                return if plain && pressed {
                    Routed::Intent(TuiIntent::Tree(TreeIntent::SubmitEdit))
                } else {
                    Routed::Ignored(Ignored::Unbound)
                };
            }
            return if context.tree_text_input {
                match text_key(key) {
                    Routed::Intent(TuiIntent::Text(intent)) => Routed::Intent(
                        TuiIntent::Tree(TreeIntent::EditInput(intent)),
                    ),
                    _ => Routed::Ignored(Ignored::Unbound),
                }
            } else {
                Routed::Ignored(Ignored::Unbound)
            };
        }
        let control_only = key.modifiers.control && !key.modifiers.shift && !key.modifiers.alt
            && !key.modifiers.other;
        let intent = match key.code {
            KeyCode::Up if plain => TreeIntent::Move(Direction::Backward),
            KeyCode::Char('k') if plain => TreeIntent::Move(Direction::Backward),
            KeyCode::Down if plain => TreeIntent::Move(Direction::Forward),
            KeyCode::Char('j') if plain => TreeIntent::Move(Direction::Forward),
            KeyCode::Home if plain => TreeIntent::Home,
            KeyCode::End if plain => TreeIntent::End,
            KeyCode::Enter if plain && pressed => TreeIntent::Navigate,
            KeyCode::Char('b') if plain && pressed => TreeIntent::ToggleBranches,
            KeyCode::Char('f') if plain && pressed => TreeIntent::ToggleFold,
            KeyCode::Char('r') if plain && pressed => TreeIntent::Refresh,
            KeyCode::Char('y') if pressed && (plain || control_only) => TreeIntent::CopySource,
            KeyCode::Char('n') if plain && pressed => TreeIntent::RenameHead,
            KeyCode::Char('l') if plain && pressed => TreeIntent::EditLabel,
            KeyCode::Char('x') if plain && pressed => TreeIntent::AbandonHead,
            _ => {
                return Routed::Ignored(Ignored::Unbound);
            },
        };
        Routed::Intent(TuiIntent::Tree(intent))
    }
}

/// Releasing twice cannot produce two gestures: after a release, a second release and a drag
/// both find no capture.
pub proof fn law_capture_released_once(capture: Option<SurfaceId>, release: MouseEvent, drag: MouseEvent, context: RouterContext)
    requires
        release.kind == MouseEventKind::Up(MouseButton::Left),
        !release.modifiers.shift,
        drag.kind == MouseEventKind::Drag(MouseButton::Left),
        !drag.modifiers.shift,
    ensures
        ({
            let (after, _) = mouse_spec(capture, release, context);
            &&& after is None
            &&& mouse_spec(after, release, context).1 == Routed::Ignored(Ignored::NoCapture)
            &&& mouse_spec(after, drag, context).1 == Routed::Ignored(Ignored::NoCapture)
        }),
{
}

/// The wheel never takes or drops capture, and a drag stays on the surface that captured it
/// wherever the pointer goes.
pub proof fn law_capture_follows_the_drag(capture: SurfaceId, wheel: MouseEvent, drag: MouseEvent, context: RouterContext)
    requires
        wheel.kind is ScrollUp || wheel.kind is ScrollDown,
        drag.kind == MouseEventKind::Drag(MouseButton::Left),
        !drag.modifiers.shift,
    ensures
        mouse_spec(Some(capture), wheel, context).0 == Some(capture),
        mouse_spec(Some(capture), drag, context) == (
            Some(capture),
            Routed::Intent(TuiIntent::Pointer(PointerIntent::Drag {
                surface: capture,
                at: Point { x: drag.column, y: drag.row },
            })),
        ),
{
}

/// `Escape` resolves exactly one layer per press and never quits: with a drag held it cancels
/// the drag and nothing else; the next press dismisses; with nothing left it says so.
pub proof fn law_escape_one_layer(capture: SurfaceId, context: RouterContext)
    ensures
        escape_spec(Some(capture), context) == (
            None::<SurfaceId>,
            Routed::Intent(TuiIntent::Pointer(PointerIntent::Cancel { surface: capture })),
        ),
        (context.dismissible || context.selecting) ==> escape_spec(None, context).1
            == Routed::Intent(TuiIntent::Dismiss),
        !(context.dismissible || context.selecting) ==> escape_spec(None, context).1
            == Routed::Ignored(Ignored::NothingToDismiss),
        escape_spec(None, context).1 != Routed::Intent(TuiIntent::Quit),
{
}

/// The same key is text or a command depending only on where the cursor is: a plain printable
/// key is inserted under text focus, whatever else is open.
pub proof fn law_printable_keys_follow_the_cursor(capture: Option<SurfaceId>, key: KeyEvent, c: char, context: RouterContext)
    requires
        key.kind is Press,
        key.code == KeyCode::Char(c),
        key.modifiers.none_held(),
        context.focus is TextInput,
        !context.tree_open,
    ensures
        key_spec(capture, key, context) == (capture, Routed::Intent(TuiIntent::Text(TextIntent::Insert(c)))),
{
}

} // verus!

verus! {

/// Pointer capture. Shift-held events belong to the terminal's own selection and wheel events
/// scroll by hover: neither moves the capture. A left press takes the capture for the topmost
/// surface under it, and a press outside every surface leaves the capture as it was. While a
/// surface holds the capture, a left drag anywhere is addressed to it; a left release lets go.
pub proof fn law_pointer_capture(capture: Option<SurfaceId>, mouse: MouseEvent, context: RouterContext)
    ensures
        ({
            let (held, routed) = mouse_spec(capture, mouse, context);
            let at = Point { x: mouse.column, y: mouse.row };
            let entries = context.surfaces.entries();
            let unshifted = !mouse.modifiers.shift;
            &&& (mouse.modifiers.shift || mouse.kind is ScrollUp || mouse.kind is ScrollDown) ==> held
                == capture
            &&& (unshifted && mouse.kind == MouseEventKind::Down(MouseButton::Left)) ==> (forall|i: int|
                #[trigger] crate::surface::is_topmost(entries, i, crate::surface::covers(at)) ==> held
                    == Some(entries[i].id))
            &&& (unshifted && mouse.kind == MouseEventKind::Down(MouseButton::Left) && (forall|j: int|
                0 <= j < entries.len() ==> !(#[trigger] entries[j]).bounds.holds(at))) ==> held == capture
            &&& (unshifted && mouse.kind == MouseEventKind::Up(MouseButton::Left)) ==> held is None
            &&& (unshifted && mouse.kind == MouseEventKind::Drag(MouseButton::Left)) ==> held == capture
            &&& (unshifted && mouse.kind == MouseEventKind::Drag(MouseButton::Left)) ==> (
            capture matches Some(s) ==> routed == Routed::Intent(
                TuiIntent::Pointer(PointerIntent::Drag { surface: s, at }),
            ))
        }),
{
    let at = Point { x: mouse.column, y: mouse.row };
    let entries = context.surfaces.entries();
    let pred = crate::surface::covers(at);
    assert forall|i: int, k: int|
        crate::surface::is_topmost(entries, i, pred) && crate::surface::is_topmost(
            entries,
            k,
            pred,
        ) implies i == k by {
        assert(pred(entries[k]) && pred(entries[i]));
    };
    if forall|j: int| 0 <= j < entries.len() ==> !(#[trigger] entries[j]).bounds.holds(at) {
        assert forall|i: int| !crate::surface::is_topmost(entries, i, pred) by {
            if 0 <= i < entries.len() {
                assert(!entries[i].bounds.holds(at));
            }
        };
    }
}

} // verus!

verus! {

/// Shift with an arrow extends the selection the way the arrow alone moves: down is forward and
/// up is backward, wherever the keyboard is, outside the conversation tree. The plain arrow steps
/// in that same direction.
pub proof fn law_shift_arrows_extend_the_selection_the_way_the_arrow_moves(
    capture: Option<SurfaceId>,
    key: KeyEvent,
    context: RouterContext,
)
    requires
        !(key.kind is Release),
        !context.tree_open,
        key.modifiers.shift,
        !key.modifiers.control,
        key.code is Down || key.code is Up,
    ensures
        ({
            let forward = key.code is Down;
            let direction = if forward { Direction::Forward } else { Direction::Backward };
            let plain = KeyEvent {
                modifiers: KeyModifiers { shift: false, control: false, alt: false, other: false },
                ..key
            };
            &&& key_spec(capture, key, context) == (capture, Routed::Intent(
                TuiIntent::Selection(SelectionIntent::Extend(direction)),
            ))
            &&& navigation_key_spec(plain, context.focused, *context.surfaces) == step_spec(
                direction,
                if forward { ScrollDirection::Down } else { ScrollDirection::Up },
                context.focused,
                *context.surfaces,
            )
        }),
{
}

} // verus!

//! The frame's registered surfaces: where each one is, how it stacks, and what it can scroll.
use vstd::prelude::*;

verus! {

/// One region of the workspace, by identity rather than by position.
#[derive(Clone, Copy, Debug, PartialEq, Eq, Structural)]
pub enum SurfaceId {
    Agents,
    Transcript,
    Composer,
    ComposerMenu,
    Inspector,
    Attention,
    Approval,
    Drawer,
    Notices,
    Status,
    Footer,
    CommandInspection,
    ConversationTree,
}

/// A cell position on the terminal.
#[derive(Clone, Copy, Debug, PartialEq, Eq, Structural)]
pub struct Point {
    pub x: u16,
    pub y: u16,
}

/// A rectangle of cells.
#[derive(Clone, Copy, Debug, PartialEq, Eq, Structural)]
pub struct Rect {
    pub x: u16,
    pub y: u16,
    pub width: u16,
    pub height: u16,
}

/// `a + b`, held at `u16::MAX`.
pub open spec fn sat_add(a: u16, b: u16) -> u16 {
    if a + b > u16::MAX {
        u16::MAX
    } else {
        (a + b) as u16
    }
}

/// Whether the rectangle's right and bottom edges are cells a terminal can address: what
/// `ratatui` keeps true of every rectangle it makes.
pub open spec fn on_screen(r: Rect) -> bool {
    r.x + r.width <= u16::MAX && r.y + r.height <= u16::MAX
}

/// `a - b`, held at zero.
pub open spec fn sat_sub(a: u16, b: u16) -> u16 {
    if a >= b {
        (a - b) as u16
    } else {
        0
    }
}

impl Rect {
    /// The column after the last one the rectangle holds.
    pub open spec fn right_edge(self) -> u16 {
        sat_add(self.x, self.width)
    }

    /// The row after the last one the rectangle holds.
    pub open spec fn bottom_edge(self) -> u16 {
        sat_add(self.y, self.height)
    }

    /// Whether the rectangle holds the cell at `at`.
    pub open spec fn holds(self, at: Point) -> bool {
        self.x <= at.x < self.right_edge() && self.y <= at.y < self.bottom_edge()
    }

    /// A rectangle of cells.
    pub fn new(x: u16, y: u16, width: u16, height: u16) -> (r: Rect)
        ensures
            r == (Rect { x, y, width, height }),
    {
        Rect { x, y, width, height }
    }

    /// The column after the last one the rectangle holds.
    pub fn right(&self) -> (edge: u16)
        ensures
            edge == self.right_edge(),
    {
        self.x.saturating_add(self.width)
    }

    /// The row after the last one the rectangle holds.
    pub fn bottom(&self) -> (edge: u16)
        ensures
            edge == self.bottom_edge(),
    {
        self.y.saturating_add(self.height)
    }

    /// Whether the rectangle holds the cell at `at`.
    pub fn contains(&self, at: Point) -> (inside: bool)
        ensures
            inside == self.holds(at),
    {
        self.x <= at.x && at.x < self.right() && self.y <= at.y && at.y < self.bottom()
    }
}

/// What a scrollable surface measured this frame.
#[derive(Clone, Copy, Debug, Default, PartialEq, Eq, Structural)]
pub struct Viewport {
    /// Rows the content needs at this width.
    pub content_rows: usize,
    /// Columns the content was laid out in.
    pub content_width: u16,
    /// Rows the surface shows.
    pub visible_rows: u16,
    /// Rows scrolled past at the top.
    pub offset: usize,
}

impl Viewport {
    /// Whether the content is taller than the surface, so it has somewhere to move.
    pub open spec fn can_scroll(self) -> bool {
        self.content_rows > self.visible_rows
    }

    /// The deepest row offset the content allows.
    pub open spec fn deepest(self) -> usize {
        if self.content_rows > self.visible_rows {
            (self.content_rows - self.visible_rows) as usize
        } else {
            0
        }
    }

    /// Whether the content is taller than the surface, so it has somewhere to move.
    pub fn is_scrollable(&self) -> (scrollable: bool)
        ensures
            scrollable == self.can_scroll(),
    {
        self.content_rows > self.visible_rows as usize
    }

    /// The deepest row offset the content allows.
    pub fn max_offset(&self) -> (deepest: usize)
        ensures
            deepest == self.deepest(),
    {
        self.content_rows.saturating_sub(self.visible_rows as usize)
    }
}

/// What a surface is, which decides whether it takes focus and where typed text goes.
#[derive(Clone, Copy, Debug, PartialEq, Eq, Structural)]
pub enum SurfaceKind {
    /// A navigated region: arrows move inside it.
    Panel,
    /// A text input that holds the cursor while focused.
    Composer,
    /// A layer above the workspace that takes the keyboard while open.
    Modal,
    /// Decoration and hints: routed to, never focused.
    Chrome,
}

/// Where typed text would go.
#[derive(Clone, Copy, Debug, Default, PartialEq, Eq, Structural)]
pub enum KeyboardFocus {
    /// No cursor: keys navigate.
    #[default]
    Navigation,
    /// A cursor: printable keys are text.
    TextInput,
}

impl SurfaceKind {
    /// Whether a surface of this kind is a stop on the focus ring.
    pub open spec fn takes_focus(self) -> bool {
        !(self is Chrome)
    }

    /// Where typed text goes while a surface of this kind holds focus.
    pub open spec fn typing(self) -> KeyboardFocus {
        match self {
            SurfaceKind::Composer => KeyboardFocus::TextInput,
            _ => KeyboardFocus::Navigation,
        }
    }

    /// Whether a surface of this kind is a stop on the focus ring.
    pub fn is_focusable(self) -> (focusable: bool)
        ensures
            focusable == self.takes_focus(),
    {
        match self {
            SurfaceKind::Chrome => false,
            _ => true,
        }
    }

    /// Where typed text goes while a surface of this kind holds focus.
    pub fn keyboard_focus(self) -> (focus: KeyboardFocus)
        ensures
            focus == self.typing(),
    {
        match self {
            SurfaceKind::Composer => KeyboardFocus::TextInput,
            _ => KeyboardFocus::Navigation,
        }
    }
}

/// One registered surface of the frame.
#[derive(Clone, Copy, Debug, PartialEq, Eq, Structural)]
pub struct Surface {
    pub id: SurfaceId,
    pub bounds: Rect,
    /// Higher is drawn above lower.
    pub z_index: u16,
    pub kind: SurfaceKind,
    /// What it measured, when it scrolls.
    pub viewport: Option<Viewport>,
}

/// Why a surface could not be registered.
#[derive(Clone, Copy, Debug, PartialEq, Eq, Structural)]
pub enum SurfaceError {
    /// A surface with this identity is already registered this frame.
    Duplicate(SurfaceId),
}

/// Whether surface `i` of `s` is the topmost of those `pred` accepts: nothing accepted is drawn
/// above it, and of equal height the later registration is on top.
pub open spec fn is_topmost(s: Seq<Surface>, i: int, pred: spec_fn(Surface) -> bool) -> bool {
    &&& 0 <= i < s.len()
    &&& pred(s[i])
    &&& forall|j: int|
        0 <= j < s.len() && #[trigger] pred(s[j]) ==> (s[j].z_index < s[i].z_index || (s[j].z_index
            == s[i].z_index && j <= i))
}

/// Whether the surface covers the cell.
pub open spec fn covers(at: Point) -> spec_fn(Surface) -> bool {
    |s: Surface| s.bounds.holds(at)
}

/// Whether the surface covers the cell and can scroll there.
pub open spec fn wheel_catches(at: Point) -> spec_fn(Surface) -> bool {
    |s: Surface|
        s.bounds.holds(at) && (s.viewport matches Some(v) && v.can_scroll())
}

/// The identities of the focusable surfaces, in registration order.
pub open spec fn ring_of(s: Seq<Surface>) -> Seq<SurfaceId>
    decreases s.len(),
{
    if s.len() == 0 {
        Seq::empty()
    } else if s.last().kind.takes_focus() {
        ring_of(s.drop_last()).push(s.last().id)
    } else {
        ring_of(s.drop_last())
    }
}

/// The frame's surfaces, in the order they were registered.
#[derive(Debug)]
pub struct SurfaceTree {
    surfaces: Vec<Surface>,
}

impl Default for SurfaceTree {
    /// A frame with nothing registered.
    fn default() -> (tree: Self)
        ensures
            tree.entries() == Seq::<Surface>::empty(),
    {
        SurfaceTree { surfaces: Vec::new() }
    }
}

impl SurfaceTree {
    #[verifier::type_invariant]
    spec fn registered_once(self) -> bool {
        forall|i: int, j: int|
            0 <= i < j < self.surfaces@.len() ==> #[trigger] self.surfaces@[i].id
                != #[trigger] self.surfaces@[j].id
    }

    /// The registered surfaces, in registration order.
    pub closed spec fn entries(self) -> Seq<Surface> {
        self.surfaces@
    }

    /// No identity is registered twice.
    pub open spec fn unique(self) -> bool {
        forall|i: int, j: int|
            0 <= i < j < self.entries().len() ==> #[trigger] self.entries()[i].id
                != #[trigger] self.entries()[j].id
    }

    /// The registered surface with identity `id`, if any.
    pub open spec fn find(self, id: SurfaceId) -> Option<Surface> {
        if exists|i: int| 0 <= i < self.entries().len() && self.entries()[i].id == id {
            Some(
                self.entries()[choose|i: int|
                    0 <= i < self.entries().len() && self.entries()[i].id == id],
            )
        } else {
            None
        }
    }

    /// A frame with nothing registered.
    pub fn new() -> (tree: Self)
        ensures
            tree.entries() == Seq::<Surface>::empty(),
    {
        SurfaceTree { surfaces: Vec::new() }
    }

    fn index_of(&self, id: SurfaceId) -> (found: Option<usize>)
        ensures
            found matches Some(i) ==> i < self.entries().len() && self.entries()[i as int].id == id,
            found is None ==> forall|i: int|
                0 <= i < self.entries().len() ==> self.entries()[i].id != id,
            self.unique() ==> (found matches Some(i) ==> forall|j: int|
                0 <= j < self.entries().len() && self.entries()[j].id == id ==> j == i),
    {
        let mut i: usize = 0;
        while i < self.surfaces.len()
            invariant
                i <= self.surfaces@.len(),
                forall|j: int| 0 <= j < i ==> self.surfaces@[j].id != id,
            decreases self.surfaces@.len() - i,
        {
            if self.surfaces[i].id == id {
                return Some(i);
            }
            i = i + 1;
        }
        None
    }

    /// Registers one surface; an identity already registered this frame is refused.
    pub fn insert(&mut self, surface: Surface) -> (result: Result<(), SurfaceError>)
        ensures
            (exists|i: int|
                0 <= i < old(self).entries().len() && old(self).entries()[i].id == surface.id)
                ==> result == Err::<(), SurfaceError>(SurfaceError::Duplicate(surface.id))
                && final(self).entries() == old(self).entries(),
            (forall|i: int|
                0 <= i < old(self).entries().len() ==> old(self).entries()[i].id != surface.id)
                ==> result is Ok && final(self).entries() == old(self).entries().push(surface),
    {
        proof {
            use_type_invariant(&*self);
        }
        if self.index_of(surface.id).is_some() {
            return Err(SurfaceError::Duplicate(surface.id));
        }
        let mut surfaces = self.surfaces.clone();
        assert(surfaces@ =~= self.surfaces@);
        surfaces.push(surface);
        *self = SurfaceTree { surfaces };
        Ok(())
    }

    /// The surface registered as `id`.
    pub fn get(&self, id: SurfaceId) -> (found: Option<Surface>)
        ensures
            found == self.find(id),
    {
        proof {
            use_type_invariant(self);
        }
        match self.index_of(id) {
            Some(i) => Some(self.surfaces[i]),
            None => None,
        }
    }

    /// What the surface registered as `id` measured, if it scrolls.
    pub fn viewport(&self, id: SurfaceId) -> (found: Option<Viewport>)
        ensures
            found == (match self.find(id) {
                Some(s) => s.viewport,
                None => None,
            }),
    {
        match self.get(id) {
            Some(surface) => surface.viewport,
            None => None,
        }
    }

    /// Records what the surface registered as `id` measured; reports whether it is registered.
    pub fn set_viewport(&mut self, id: SurfaceId, viewport: Viewport) -> (registered: bool)
        ensures
            registered == (old(self).find(id) is Some),
            final(self).entries().len() == old(self).entries().len(),
            forall|i: int|
                0 <= i < old(self).entries().len() ==> #[trigger] final(self).entries()[i] == if old(
                    self,
                ).entries()[i].id == id {
                    Surface { viewport: Some(viewport), ..old(self).entries()[i] }
                } else {
                    old(self).entries()[i]
                },
    {
        proof {
            use_type_invariant(&*self);
        }
        let ghost before = self.surfaces@;
        let mut surfaces: Vec<Surface> = Vec::new();
        let mut found = false;
        let mut i: usize = 0;
        while i < self.surfaces.len()
            invariant
                i <= self.surfaces@.len() == before.len(),
                before == self.surfaces@,
                surfaces@.len() == i,
                forall|j: int|
                    0 <= j < i ==> #[trigger] surfaces@[j] == if before[j].id == id {
                        Surface { viewport: Some(viewport), ..before[j] }
                    } else {
                        before[j]
                    },
                found == exists|j: int| 0 <= j < i && before[j].id == id,
            decreases before.len() - i,
        {
            let mut surface = self.surfaces[i];
            if surface.id == id {
                surface.viewport = Some(viewport);
                found = true;
            }
            surfaces.push(surface);
            i = i + 1;
        }
        *self = SurfaceTree { surfaces };
        proof {
            if found {
                assert(old(self).find(id) is Some);
            }
        }
        found
    }

    fn topmost(&self, at: Point, wheel: bool) -> (found: Option<usize>)
        ensures
            !wheel ==> (found matches Some(i) ==> is_topmost(self.entries(), i as int, covers(at))),
            !wheel ==> (found is None ==> forall|j: int|
                0 <= j < self.entries().len() ==> !covers(at)(#[trigger] self.entries()[j])),
            wheel ==> (found matches Some(i) ==> is_topmost(
                self.entries(),
                i as int,
                wheel_catches(at),
            )),
            wheel ==> (found is None ==> forall|j: int|
                0 <= j < self.entries().len() ==> !wheel_catches(at)(#[trigger] self.entries()[j])),
    {
        let ghost pred = if wheel {
            wheel_catches(at)
        } else {
            covers(at)
        };
        let mut best: Option<usize> = None;
        let mut i: usize = 0;
        while i < self.surfaces.len()
            invariant
                i <= self.surfaces@.len(),
                pred == (if wheel {
                    wheel_catches(at)
                } else {
                    covers(at)
                }),
                best matches Some(b) ==> b < i && is_topmost(self.surfaces@.subrange(0, i as int), b as int, pred),
                best is None ==> forall|j: int| 0 <= j < i ==> !pred(#[trigger] self.surfaces@[j]),
            decreases self.surfaces@.len() - i,
        {
            let surface = self.surfaces[i];
            let eligible = if wheel {
                surface.bounds.contains(at) && match surface.viewport {
                    Some(v) => v.is_scrollable(),
                    None => false,
                }
            } else {
                surface.bounds.contains(at)
            };
            assert(eligible == pred(self.surfaces@[i as int]));
            let ghost prefix = self.surfaces@.subrange(0, i as int);
            let ghost next = self.surfaces@.subrange(0, i + 1);
            if eligible {
                match best {
                    Some(b) => {
                        if surface.z_index >= self.surfaces[b].z_index {
                            best = Some(i);
                            assert forall|j: int|
                                0 <= j < next.len() && #[trigger] pred(next[j]) implies (next[j].z_index
                                < next[i as int].z_index || (next[j].z_index == next[i as int].z_index
                                && j <= i)) by {
                                if j < i {
                                    assert(next[j] == prefix[j]);
                                }
                            }
                        } else {
                            assert forall|j: int|
                                0 <= j < next.len() && #[trigger] pred(next[j]) implies (next[j].z_index
                                < next[b as int].z_index || (next[j].z_index == next[b as int].z_index
                                && j <= b)) by {
                                if j < i {
                                    assert(next[j] == prefix[j]);
                                }
                            }
                        }
                    },
                    None => {
                        best = Some(i);
                        assert forall|j: int|
                            0 <= j < next.len() && #[trigger] pred(next[j]) implies (next[j].z_index
                            < next[i as int].z_index || (next[j].z_index == next[i as int].z_index
                            && j <= i)) by {
                            if j < i {
                                assert(next[j] == self.surfaces@[j]);
                            }
                        }
                    },
                }
            } else {
                match best {
                    Some(b) => {
                        assert forall|j: int|
                            0 <= j < next.len() && #[trigger] pred(next[j]) implies (next[j].z_index
                            < next[b as int].z_index || (next[j].z_index == next[b as int].z_index
                            && j <= b)) by {
                            if j < i {
                                assert(next[j] == prefix[j]);
                            }
                        }
                    },
                    None => {},
                }
            }
            i = i + 1;
        }
        assert(self.surfaces@.subrange(0, i as int) =~= self.surfaces@);
        best
    }

    /// The topmost surface under the cell, if any.
    pub fn hit_test(&self, at: Point) -> (found: Option<SurfaceId>)
        ensures
            found is None <==> forall|j: int|
                0 <= j < self.entries().len() ==> !self.entries()[j].bounds.holds(at),
            found matches Some(id) ==> exists|i: int|
                is_topmost(self.entries(), i, covers(at)) && self.entries()[i].id == id,
    {
        match self.topmost(at, false) {
            Some(i) => {
                assert(covers(at)(self.surfaces@[i as int]));
                Some(self.surfaces[i].id)
            },
            None => {
                assert forall|j: int| 0 <= j < self.entries().len() implies !self.entries()[j].bounds.holds(at) by {
                    assert(!covers(at)(self.entries()[j]));
                }
                None
            },
        }
    }

    /// The topmost surface under the cell whose viewport can move, if any.
    ///
    /// A surface with nothing to scroll is transparent to the wheel; one merely at its end is not.
    pub fn wheel_target(&self, at: Point) -> (found: Option<SurfaceId>)
        ensures
            found is None <==> forall|j: int|
                0 <= j < self.entries().len() ==> !wheel_catches(at)(self.entries()[j]),
            found matches Some(id) ==> exists|i: int|
                is_topmost(self.entries(), i, wheel_catches(at)) && self.entries()[i].id == id,
    {
        match self.topmost(at, true) {
            Some(i) => {
                assert(wheel_catches(at)(self.surfaces@[i as int]));
                Some(self.surfaces[i].id)
            },
            None => None,
        }
    }

    /// The focusable surfaces, in registration order.
    pub fn focus_ring(&self) -> (ring: Vec<SurfaceId>)
        ensures
            ring@ == ring_of(self.entries()),
    {
        let mut ring: Vec<SurfaceId> = Vec::new();
        let mut i: usize = 0;
        while i < self.surfaces.len()
            invariant
                i <= self.surfaces@.len(),
                ring@ == ring_of(self.surfaces@.subrange(0, i as int)),
            decreases self.surfaces@.len() - i,
        {
            let surface = self.surfaces[i];
            proof {
                assert(self.surfaces@.subrange(0, i + 1).drop_last() =~= self.surfaces@.subrange(
                    0,
                    i as int,
                ));
            }
            if surface.kind.is_focusable() {
                ring.push(surface.id);
            }
            i = i + 1;
        }
        assert(self.surfaces@.subrange(0, i as int) =~= self.surfaces@);
        ring
    }
}

} // verus!

verus! {

/// The first position of `id` in `ring`, if it is there.
pub open spec fn ring_position(ring: Seq<SurfaceId>, id: SurfaceId) -> Option<int> {
    if exists|k: int| 0 <= k < ring.len() && ring[k] == id {
        Some(choose|k: int| 0 <= k < ring.len() && ring[k] == id && forall|m: int| 0 <= m < k ==> ring[m] != id)
    } else {
        None
    }
}

/// The stop after (or before) `current` on `ring`, wrapping at the ends; from a surface that is
/// not on the ring, the first (or last) stop.
pub open spec fn ring_step(ring: Seq<SurfaceId>, current: Option<SurfaceId>, direction: crate::intent::Direction) -> Option<SurfaceId> {
    let n = ring.len() as int;
    if n == 0 {
        None
    } else {
        let at = match current {
            Some(c) => ring_position(ring, c),
            None => None,
        };
        match (at, direction) {
            (Some(k), crate::intent::Direction::Forward) => Some(ring[(k + 1) % n]),
            (Some(k), crate::intent::Direction::Backward) => Some(ring[(k + n - 1) % n]),
            (None, crate::intent::Direction::Forward) => Some(ring[0]),
            (None, crate::intent::Direction::Backward) => Some(ring[n - 1]),
        }
    }
}

fn position_in(ring: &Vec<SurfaceId>, c: SurfaceId) -> (at: Option<usize>)
    ensures
        at matches Some(k) ==> k < ring@.len() && ring_position(ring@, c) == Some(k as int),
        at is None ==> ring_position(ring@, c) is None,
{
    let mut k: usize = 0;
    while k < ring.len()
        invariant
            k <= ring@.len(),
            forall|m: int| 0 <= m < k ==> ring@[m] != c,
        decreases ring@.len() - k,
    {
        if ring[k] == c {
            proof {
                let w = choose|j: int|
                    0 <= j < ring@.len() && ring@[j] == c && forall|m: int| 0 <= m < j ==> ring@[m] != c;
                assert(0 <= k < ring@.len() && ring@[k as int] == c && forall|m: int| 0 <= m < k ==> ring@[m] != c);
                if w < k {
                } else if w > k {
                }
            }
            return Some(k);
        }
        k = k + 1;
    }
    None
}

impl SurfaceTree {
    /// The focus stop one step from `current` around the ring.
    pub fn next_focus(&self, current: Option<SurfaceId>, direction: crate::intent::Direction) -> (next: Option<SurfaceId>)
        ensures
            next == ring_step(ring_of(self.entries()), current, direction),
    {
        let ring = self.focus_ring();
        let n = ring.len();
        if n == 0 {
            return None;
        }
        let at = match current {
            Some(c) => position_in(&ring, c),
            None => None,
        };
        match (at, direction) {
            (Some(k), crate::intent::Direction::Forward) => {
                let next = if k + 1 == n {
                    0
                } else {
                    k + 1
                };
                assert(next as int == (k + 1) % (n as int)) by (nonlinear_arith)
                    requires
                        k < n,
                        next == if k + 1 == n {
                            0
                        } else {
                            k + 1
                        },
                ;
                Some(ring[next])
            },
            (Some(k), crate::intent::Direction::Backward) => {
                let next = if k == 0 {
                    n - 1
                } else {
                    k - 1
                };
                assert(next as int == (k + n - 1) % (n as int)) by (nonlinear_arith)
                    requires
                        k < n,
                        next == if k == 0 {
                            n - 1
                        } else {
                            k - 1
                        },
                ;
                Some(ring[next])
            },
            (None, crate::intent::Direction::Forward) => Some(ring[0]),
            (None, crate::intent::Direction::Backward) => Some(ring[n - 1]),
        }
    }
}


} // verus!

verus! {

/// Where an identity falls among surfaces drawn at the same height: declaration order.
pub open spec fn id_rank(id: SurfaceId) -> int {
    match id {
        SurfaceId::Agents => 0,
        SurfaceId::Transcript => 1,
        SurfaceId::Composer => 2,
        SurfaceId::ComposerMenu => 3,
        SurfaceId::Inspector => 4,
        SurfaceId::Attention => 5,
        SurfaceId::Approval => 6,
        SurfaceId::Drawer => 7,
        SurfaceId::Notices => 8,
        SurfaceId::Status => 9,
        SurfaceId::Footer => 10,
        SurfaceId::CommandInspection => 11,
        SurfaceId::ConversationTree => 12,
    }
}

/// Whether `a` is painted before (beneath) `b`: by height, then by identity.
pub open spec fn paints_below(a: Surface, b: Surface) -> bool {
    a.z_index < b.z_index || (a.z_index == b.z_index && id_rank(a.id) < id_rank(b.id))
}

/// `order` holds exactly the surfaces of `entries`, bottom layer first: by height, and by
/// identity among equals.
pub open spec fn is_layered(order: Seq<Surface>, entries: Seq<Surface>) -> bool {
    &&& order.len() == entries.len()
    &&& forall|i: int, j: int|
        0 <= i < j < order.len() ==> paints_below(#[trigger] order[i], #[trigger] order[j])
    &&& forall|k: int| 0 <= k < order.len() ==> entries.contains(#[trigger] order[k])
    &&& forall|k: int| 0 <= k < entries.len() ==> order.contains(#[trigger] entries[k])
}

fn rank(id: SurfaceId) -> (r: u8)
    ensures
        r == id_rank(id),
{
    match id {
        SurfaceId::Agents => 0,
        SurfaceId::Transcript => 1,
        SurfaceId::Composer => 2,
        SurfaceId::ComposerMenu => 3,
        SurfaceId::Inspector => 4,
        SurfaceId::Attention => 5,
        SurfaceId::Approval => 6,
        SurfaceId::Drawer => 7,
        SurfaceId::Notices => 8,
        SurfaceId::Status => 9,
        SurfaceId::Footer => 10,
        SurfaceId::CommandInspection => 11,
        SurfaceId::ConversationTree => 12,
    }
}

fn below(a: Surface, b: Surface) -> (r: bool)
    ensures
        r == paints_below(a, b),
{
    a.z_index < b.z_index || (a.z_index == b.z_index && rank(a.id) < rank(b.id))
}

impl SurfaceTree {
    /// The registered surfaces in the order they are painted: bottom layer first, so a surface
    /// above another covers it; among surfaces at one height, by identity.
    pub fn layers(&self) -> (order: Vec<Surface>)
        ensures
            is_layered(order@, self.entries()),
    {
        proof {
            use_type_invariant(self);
        }
        let ghost all = self.surfaces@;
        let mut order: Vec<Surface> = Vec::new();
        let mut i: usize = 0;
        while i < self.surfaces.len()
            invariant
                all == self.surfaces@,
                i <= all.len(),
                order@.len() == i,
                forall|a: int, b: int|
                    0 <= a < b < all.len() ==> #[trigger] all[a].id != #[trigger] all[b].id,
                forall|a: int, b: int|
                    0 <= a < b < order@.len() ==> paints_below(
                        #[trigger] order@[a],
                        #[trigger] order@[b],
                    ),
                forall|k: int|
                    0 <= k < order@.len() ==> exists|j: int|
                        0 <= j < i && all[j] == #[trigger] order@[k],
                forall|j: int| 0 <= j < i ==> order@.contains(#[trigger] all[j]),
            decreases all.len() - i,
        {
            let s = self.surfaces[i];
            let mut p: usize = 0;
            while p < order.len() && !below(s, order[p])
                invariant
                    p <= order@.len(),
                    forall|k: int| 0 <= k < p ==> !paints_below(s, #[trigger] order@[k]),
                decreases order@.len() - p,
            {
                p = p + 1;
            }
            let ghost before = order@;
            proof {
                assert forall|k: int| 0 <= k < before.len() implies (#[trigger] before[k]).id != s.id by {
                    let j = choose|j: int| 0 <= j < i && all[j] == before[k];
                    assert(all[j].id != all[i as int].id);
                }
                assert forall|b: int| p <= b < before.len() implies paints_below(
                    s,
                    #[trigger] before[b],
                ) by {
                    if b > p {
                        assert(paints_below(before[p as int], before[b]));
                    }
                };
            }
            order.insert(p, s);
            proof {
                let after = order@;
                assert(after == before.insert(p as int, s));
                assert forall|a: int, b: int| 0 <= a < b < after.len() implies paints_below(
                    #[trigger] after[a],
                    #[trigger] after[b],
                ) by {
                    if b < p {
                        assert(after[a] == before[a] && after[b] == before[b]);
                    } else if b == p {
                        assert(after[a] == before[a]);
                        assert(!paints_below(s, before[a]));
                        assert(before[a].id != s.id);
                        assert(id_rank(before[a].id) != id_rank(s.id));
                    } else if a == p {
                        assert(after[b] == before[b - 1]);
                        if b - 1 > p {
                            assert(paints_below(before[p as int], before[b - 1]));
                        }
                    } else if a < p {
                        assert(after[a] == before[a] && after[b] == before[b - 1]);
                        assert(!paints_below(s, before[a]));
                        assert(before[a].id != s.id);
                        assert(id_rank(before[a].id) != id_rank(s.id));
                        if b - 1 > p {
                            assert(paints_below(before[p as int], before[b - 1]));
                        }
                        assert(paints_below(s, before[b - 1]));
                    } else {
                        assert(after[a] == before[a - 1] && after[b] == before[b - 1]);
                    }
                };
                assert forall|k: int| 0 <= k < after.len() implies exists|j: int|
                    0 <= j < i + 1 && all[j] == #[trigger] after[k] by {
                    if k < p {
                        assert(after[k] == before[k]);
                        let j = choose|j: int| 0 <= j < i && all[j] == before[k];
                        assert(all[j] == after[k]);
                    } else if k == p {
                        assert(all[i as int] == after[k]);
                    } else {
                        assert(after[k] == before[k - 1]);
                        let j = choose|j: int| 0 <= j < i && all[j] == before[k - 1];
                        assert(all[j] == after[k]);
                    }
                };
                assert forall|j: int| 0 <= j < i + 1 implies after.contains(#[trigger] all[j]) by {
                    if j < i {
                        assert(before.contains(all[j]));
                        let k = choose|k: int| 0 <= k < before.len() && before[k] == all[j];
                        if k < p {
                            assert(after[k] == all[j]);
                        } else {
                            assert(after[k + 1] == all[j]);
                        }
                    } else {
                        assert(after[p as int] == all[j]);
                    }
                };
            }
            i = i + 1;
        }
        proof {
            assert forall|k: int| 0 <= k < order@.len() implies all.contains(#[trigger] order@[k]) by {
                let j = choose|j: int| 0 <= j < i && all[j] == order@[k];
            };
        }
        order
    }
}

} // verus!

verus! {

proof fn lemma_ordered_alike(a: Seq<Surface>, b: Seq<Surface>)
    requires
        forall|i: int, j: int| 0 <= i < j < a.len() ==> paints_below(#[trigger] a[i], #[trigger] a[j]),
        forall|i: int, j: int| 0 <= i < j < b.len() ==> paints_below(#[trigger] b[i], #[trigger] b[j]),
        forall|x: Surface| a.contains(x) <==> b.contains(x),
    ensures
        a == b,
    decreases a.len(),
{
    if a.len() == 0 {
        if b.len() > 0 {
            assert(b.contains(b[0]));
        }
        assert(a =~= b);
    } else {
        assert(a.contains(a[0]));
        let k = choose|k: int| 0 <= k < b.len() && b[k] == a[0];
        assert(b.contains(b[0]));
        let m = choose|m: int| 0 <= m < a.len() && a[m] == b[0];
        if k > 0 {
            assert(paints_below(b[0], b[k]));
            if m > 0 {
                assert(paints_below(a[0], a[m]));
            }
        }
        assert(a[0] == b[0]);
        let ta = a.drop_first();
        let tb = b.drop_first();
        assert forall|x: Surface| ta.contains(x) implies tb.contains(x) by {
            let j = choose|j: int| 0 <= j < ta.len() && ta[j] == x;
            assert(a[j + 1] == x);
            assert(paints_below(a[0], a[j + 1]));
            assert(a.contains(x));
            let q = choose|q: int| 0 <= q < b.len() && b[q] == x;
            assert(q != 0);
            assert(tb[q - 1] == x);
        };
        assert forall|x: Surface| tb.contains(x) implies ta.contains(x) by {
            let j = choose|j: int| 0 <= j < tb.len() && tb[j] == x;
            assert(b[j + 1] == x);
            assert(paints_below(b[0], b[j + 1]));
            assert(b.contains(x));
            let q = choose|q: int| 0 <= q < a.len() && a[q] == x;
            assert(q != 0);
            assert(ta[q - 1] == x);
        };
        assert forall|i: int, j: int| 0 <= i < j < ta.len() implies paints_below(
            #[trigger] ta[i],
            #[trigger] ta[j],
        ) by {
            assert(ta[i] == a[i + 1] && ta[j] == a[j + 1]);
        };
        assert forall|i: int, j: int| 0 <= i < j < tb.len() implies paints_below(
            #[trigger] tb[i],
            #[trigger] tb[j],
        ) by {
            assert(tb[i] == b[i + 1] && tb[j] == b[j + 1]);
        };
        lemma_ordered_alike(ta, tb);
        assert(a.len() == b.len());
        assert forall|i: int| 0 <= i < a.len() implies a[i] == b[i] by {
            if i > 0 {
                assert(a[i] == ta[i - 1] && b[i] == tb[i - 1]);
            }
        };
        assert(a =~= b);
    }
}

/// A frame has one paint order: any two orders that layer the same surfaces are the same order.
pub proof fn law_one_paint_order(entries: Seq<Surface>, a: Seq<Surface>, b: Seq<Surface>)
    requires
        is_layered(a, entries),
        is_layered(b, entries),
    ensures
        a == b,
{
    assert forall|x: Surface| a.contains(x) implies b.contains(x) by {
        let k = choose|k: int| 0 <= k < a.len() && a[k] == x;
        assert(entries.contains(a[k]));
        let j = choose|j: int| 0 <= j < entries.len() && entries[j] == x;
        assert(b.contains(entries[j]));
    };
    assert forall|x: Surface| b.contains(x) implies a.contains(x) by {
        let k = choose|k: int| 0 <= k < b.len() && b[k] == x;
        assert(entries.contains(b[k]));
        let j = choose|j: int| 0 <= j < entries.len() && entries[j] == x;
        assert(a.contains(entries[j]));
    };
    lemma_ordered_alike(a, b);
}

} // verus!

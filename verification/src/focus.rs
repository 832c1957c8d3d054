//! Which surface the keyboard is addressing.
//!
//! A preference rather than an assertion: the surface tree is rebuilt every frame, so the stored
//! identity may name a surface that is not on screen right now. It is resolved against each frame
//! instead of being repaired, so a surface that comes back gets its focus back.
use vstd::prelude::*;

use crate::intent::Direction;
use crate::surface::{KeyboardFocus, SurfaceId, SurfaceTree, ring_of, ring_step};

verus! {

/// Whether the frame registers `id` as a focus stop.
pub open spec fn is_stop(surfaces: SurfaceTree, id: SurfaceId) -> bool {
    surfaces.find(id) matches Some(s) && s.kind.takes_focus()
}

/// The surface that holds focus in `surfaces` for the preference `preferred`.
pub open spec fn resolved(preferred: Option<SurfaceId>, surfaces: SurfaceTree) -> Option<SurfaceId> {
    match preferred {
        Some(p) if is_stop(surfaces, p) => Some(p),
        _ => {
            let ring = ring_of(surfaces.entries());
            if ring.len() > 0 {
                Some(ring[0])
            } else {
                None
            }
        },
    }
}

/// The user's focus preference.
#[derive(Clone, Copy, Debug, Default, PartialEq, Eq, Structural)]
pub struct Focus {
    preferred: Option<SurfaceId>,
}

impl Focus {
    /// The stored preference.
    pub closed spec fn preference(self) -> Option<SurfaceId> {
        self.preferred
    }

    /// No preference yet.
    pub fn new() -> (focus: Self)
        ensures
            focus.preference() is None,
    {
        Focus { preferred: None }
    }

    /// Resolves the surface that holds focus for the frame `surfaces` describes: the preference
    /// while it is a stop, else the ring's first stop.
    pub fn resolve(self, surfaces: &SurfaceTree) -> (focused: Option<SurfaceId>)
        ensures
            focused == resolved(self.preference(), *surfaces),
    {
        if let Some(id) = self.preferred {
            if let Some(surface) = surfaces.get(id) {
                if surface.kind.is_focusable() {
                    return Some(id);
                }
            }
        }
        let ring = surfaces.focus_ring();
        if ring.len() > 0 {
            Some(ring[0])
        } else {
            None
        }
    }

    /// Where typed text would go, from the focused surface's kind alone.
    pub fn keyboard(self, surfaces: &SurfaceTree) -> (focus: KeyboardFocus)
        ensures
            focus == (match resolved(self.preference(), *surfaces) {
                Some(id) => match surfaces.find(id) {
                    Some(s) => s.kind.typing(),
                    None => KeyboardFocus::Navigation,
                },
                None => KeyboardFocus::Navigation,
            }),
    {
        match self.resolve(surfaces) {
            Some(id) => match surfaces.get(id) {
                Some(surface) => surface.kind.keyboard_focus(),
                None => KeyboardFocus::Navigation,
            },
            None => KeyboardFocus::Navigation,
        }
    }

    /// Moves focus one stop around the ring. Returns whether anything visible changed.
    pub fn cycle(&mut self, surfaces: &SurfaceTree, direction: Direction) -> (changed: bool)
        ensures
            ({
                let next = ring_step(
                    ring_of(surfaces.entries()),
                    resolved(old(self).preference(), *surfaces),
                    direction,
                );
                &&& changed == (next is Some && next != old(self).preference())
                &&& final(self).preference() == if changed {
                    next
                } else {
                    old(self).preference()
                }
            }),
    {
        let next = surfaces.next_focus(self.resolve(surfaces), direction);
        self.set(next)
    }

    /// Focuses the surface a press landed on, if that surface is a stop.
    pub fn point_at(&mut self, surfaces: &SurfaceTree, surface_id: SurfaceId) -> (changed: bool)
        ensures
            changed == (is_stop(*surfaces, surface_id) && old(self).preference() != Some(
                surface_id,
            )),
            final(self).preference() == if changed {
                Some(surface_id)
            } else {
                old(self).preference()
            },
    {
        if let Some(surface) = surfaces.get(surface_id) {
            if surface.kind.is_focusable() {
                return self.set(Some(surface_id));
            }
        }
        false
    }

    /// Whether the stored preference names this surface.
    pub fn prefers(self, surface_id: SurfaceId) -> (prefers: bool)
        ensures
            prefers == (self.preference() == Some(surface_id)),
    {
        match self.preferred {
            Some(p) => p == surface_id,
            None => false,
        }
    }

    /// Prefers a surface that the next frame will register. Returns whether it changed.
    pub fn prefer(&mut self, surface_id: SurfaceId) -> (changed: bool)
        ensures
            changed == (old(self).preference() != Some(surface_id)),
            final(self).preference() == Some(surface_id),
    {
        self.set(Some(surface_id))
    }

    fn set(&mut self, next: Option<SurfaceId>) -> (changed: bool)
        ensures
            changed == (next is Some && next != old(self).preference()),
            final(self).preference() == if changed {
                next
            } else {
                old(self).preference()
            },
    {
        let same = match (next, self.preferred) {
            (Some(a), Some(b)) => a == b,
            (None, None) => true,
            _ => false,
        };
        if next.is_none() || same {
            return false;
        }
        self.preferred = next;
        true
    }
}

proof fn lemma_ring_members_are_stops(s: Seq<crate::surface::Surface>, k: int)
    requires
        0 <= k < ring_of(s).len(),
    ensures
        exists|i: int| 0 <= i < s.len() && s[i].id == ring_of(s)[k] && s[i].kind.takes_focus(),
    decreases s.len(),
{
    let rest = s.drop_last();
    if s.last().kind.takes_focus() {
        if k < ring_of(rest).len() {
            lemma_ring_members_are_stops(rest, k);
            let i = choose|i: int| 0 <= i < rest.len() && rest[i].id == ring_of(rest)[k] && rest[i].kind.takes_focus();
            assert(s[i] == rest[i]);
        } else {
            assert(s[s.len() - 1].id == ring_of(s)[k]);
        }
    } else {
        lemma_ring_members_are_stops(rest, k);
        let i = choose|i: int| 0 <= i < rest.len() && rest[i].id == ring_of(rest)[k] && rest[i].kind.takes_focus();
        assert(s[i] == rest[i]);
    }
}

/// Focus is never delivered to a surface the frame does not register as a stop.
pub proof fn law_focus_lands_on_a_stop(focus: Focus, surfaces: SurfaceTree)
    requires
        surfaces.unique(),
    ensures
        resolved(focus.preference(), surfaces) matches Some(id) ==> is_stop(surfaces, id),
{
    if let Some(id) = resolved(focus.preference(), surfaces) {
        if !(focus.preference() matches Some(p) && is_stop(surfaces, p)) {
            lemma_ring_members_are_stops(surfaces.entries(), 0);
            let i = choose|i: int|
                0 <= i < surfaces.entries().len() && surfaces.entries()[i].id == id
                    && surfaces.entries()[i].kind.takes_focus();
            let j = choose|j: int| 0 <= j < surfaces.entries().len() && surfaces.entries()[j].id == id;
            if i < j {
                assert(surfaces.entries()[i].id != surfaces.entries()[j].id);
            } else if j < i {
                assert(surfaces.entries()[j].id != surfaces.entries()[i].id);
            }
        }
    }
}

/// Focus belongs to the surface, not to the frame that drew it: whatever frames came between,
/// a preference is resolved to its surface by any frame that registers that surface as a stop.
pub proof fn law_focus_returns(focus: Focus, surfaces: SurfaceTree)
    requires
        focus.preference() matches Some(p) && is_stop(surfaces, p),
    ensures
        resolved(focus.preference(), surfaces) == focus.preference(),
{
}

} // verus!

//! One user's retained conversation-tree session: the snapshot shown, the cursor over entries or
//! branch heads, the folds, and a write admitted and not yet acknowledged.
//!
//! A pending write stays represented even when the overlay is closed, so closing never claims
//! to undo an admitted change. Folds and the cursor name identities, so they survive a refresh
//! that still holds them.
use vstd::prelude::*;

use crate::conversation_tree::{sanitize_message, sanitized};
use crate::ids::Identity;
use crate::input::{edit_facts, splice, TextInput, TextIntent};
use crate::surface::SurfaceId;
use crate::text::{chars_of, same_text, string_of, trim, trimmed};
use crate::tree_presentation::{
    identity_views, ids_unique, rooted, Presentation, TreeRefusal, TreeRewindEligibility, TreeRow,
};

verus! {

/// Which conversation and revision a snapshot was taken of.
#[derive(Clone, Debug, PartialEq, Eq)]
pub struct TreeOrigin {
    pub conversation_id: Identity,
    pub agent_id: Identity,
    pub selected_head: Identity,
    pub revision: u64,
}

impl TreeOrigin {
    /// The same origin, as a separate value.
    pub fn duplicate(&self) -> (copy: Self)
        ensures
            copy.conversation_id@ == self.conversation_id@,
            copy.agent_id@ == self.agent_id@,
            copy.selected_head@ == self.selected_head@,
            copy.revision == self.revision,
    {
        TreeOrigin {
            conversation_id: self.conversation_id.duplicate(),
            agent_id: self.agent_id.duplicate(),
            selected_head: self.selected_head.duplicate(),
            revision: self.revision,
        }
    }
}

/// A named branch head and the entry it points at.
#[derive(Clone, Debug, PartialEq, Eq)]
pub struct TreeHead {
    pub name: Identity,
    pub target: Option<Identity>,
}

/// One snapshot of a conversation's tree.
#[derive(Clone, Debug, PartialEq, Eq)]
pub struct TreeSnapshot {
    pub origin: TreeOrigin,
    pub heads: Vec<TreeHead>,
    pub rows: Vec<TreeRow>,
}

/// Which stable identity the cursor selects.
#[derive(Clone, Copy, Debug, PartialEq, Eq, Structural)]
pub enum TreeMode {
    Entries,
    Heads,
}

/// The kind of an admitted, still unacknowledged tree write.
#[derive(Clone, Copy, Debug, PartialEq, Eq, Structural)]
pub enum TreePending {
    Navigation,
    Edit,
}

/// Where a navigation goes.
#[derive(Debug, PartialEq, Eq)]
pub enum TreeNavigationTarget {
    Rewind(Identity),
    SelectHead(Identity),
}

/// A navigation request, tied to the snapshot it was made from.
#[derive(Debug, PartialEq, Eq)]
pub struct TreeNavigation {
    pub origin: TreeOrigin,
    pub target: TreeNavigationTarget,
}

/// Whether row `r`'s identity is among `folded`.
pub open spec fn row_folded(ids: Seq<Seq<char>>, folded: Seq<Seq<char>>, r: int) -> bool {
    folded.contains(ids[r])
}

/// Whether the row drawn at `k` is hidden: it hangs from a row that is folded or hidden.
pub open spec fn hidden_at(
    parents: Seq<Option<usize>>,
    positions: Seq<usize>,
    order: Seq<usize>,
    ids: Seq<Seq<char>>,
    folded: Seq<Seq<char>>,
    k: int,
) -> bool
    decreases k,
{
    if k < 0 {
        false
    } else {
        match parents[order[k] as int] {
            None => false,
            Some(p) => {
                let at = positions[p as int] as int;
                if 0 <= at < k {
                    row_folded(ids, folded, p as int) || hidden_at(parents, positions, order, ids, folded, at)
                } else {
                    false
                }
            },
        }
    }
}

/// The rows drawn at the first `m` positions that are not hidden, in drawing order.
pub open spec fn visible_upto(
    parents: Seq<Option<usize>>,
    positions: Seq<usize>,
    order: Seq<usize>,
    ids: Seq<Seq<char>>,
    folded: Seq<Seq<char>>,
    m: int,
) -> Seq<usize>
    decreases m,
{
    if m <= 0 {
        Seq::empty()
    } else {
        visible_upto(parents, positions, order, ids, folded, m - 1) + if hidden_at(
            parents,
            positions,
            order,
            ids,
            folded,
            m - 1,
        ) {
            Seq::empty()
        } else {
            seq![order[m - 1]]
        }
    }
}

/// The rows a drawing shows under these folds, in drawing order.
pub open spec fn visible_rows(p: Presentation, folded: Seq<Seq<char>>) -> Seq<usize> {
    visible_upto(
        p.parents_view(),
        p.positions_view(),
        p.order_view(),
        p.ids_view(),
        folded,
        p.order_view().len() as int,
    )
}

/// One user's retained tree browsing session.
pub struct ConversationTree {
    agent: Identity,
    snapshot: Option<TreeSnapshot>,
    presentation: Presentation,
    unavailable: Option<String>,
    return_focus: SurfaceId,
    open: bool,
    pending: Option<TreePending>,
    mode: TreeMode,
    selected_entry: Option<Identity>,
    selected_head: Option<Identity>,
    folded: Vec<Identity>,
    notice: Option<String>,
    entry_offset: usize,
    head_offset: usize,
    editor: Option<TreeEditor>,
}

impl ConversationTree {
    /// The drawing is always that of the rows last presented, and those are the snapshot's rows
    /// while there is one.
    #[verifier::type_invariant]
    closed spec fn consistent(&self) -> bool {
        self.snapshot matches Some(s) ==> s.rows@ == self.presentation.rows_view() && ids_unique(
            s.rows@,
        ) && s.rows@.len() == self.presentation.ids_view().len()
    }

    /// The snapshot shown, if any.
    pub closed spec fn snapshot_view(&self) -> Option<TreeSnapshot> {
        self.snapshot
    }

    /// The drawing of the rows last presented.
    pub closed spec fn presentation_view(&self) -> Presentation {
        self.presentation
    }

    /// The folded identities.
    pub closed spec fn folded_view(&self) -> Seq<Seq<char>> {
        identity_views(self.folded@)
    }

    /// The rows shown, in drawing order: none while no snapshot is shown.
    pub open spec fn visible_view(&self) -> Seq<usize> {
        if self.snapshot_view() is Some {
            visible_rows(self.presentation_view(), self.folded_view())
        } else {
            Seq::empty()
        }
    }

    /// Whether each drawn row is folded, by row.
    fn folded_flags(&self) -> (flags: Vec<bool>)
        ensures
            flags@.len() == self.presentation_view().ids_view().len(),
            forall|r: int|
                0 <= r < flags@.len() ==> #[trigger] flags@[r] == row_folded(
                    self.presentation_view().ids_view(),
                    self.folded_view(),
                    r,
                ),
    {
        let n = self.presentation.len();
        let mut flags: Vec<bool> = Vec::new();
        let mut r: usize = 0;
        while r < n
            invariant
                n == self.presentation_view().ids_view().len(),
                r <= n,
                flags@.len() == r,
                forall|q: int|
                    0 <= q < r ==> #[trigger] flags@[q] == row_folded(
                        self.presentation_view().ids_view(),
                        self.folded_view(),
                        q,
                    ),
            decreases n - r,
        {
            flags.push(self.presentation.is_row_among(r, &self.folded));
            r += 1;
        }
        flags
    }
}

impl ConversationTree {
    /// The rows shown, in drawing order: a row is hidden when it hangs from a folded or hidden
    /// row, and nothing is shown without a snapshot.
    pub fn visible_entries(&self) -> (visible: Vec<usize>)
        ensures
            visible@ == self.visible_view(),
            forall|i: int|
                0 <= i < visible@.len() ==> #[trigger] visible@[i] < self.presentation_view().ids_view().len(),
    {
        proof {
            use_type_invariant(self);
        }
        if self.snapshot.is_none() {
            return Vec::new();
        }
        let ghost rows = self.presentation.rows_view();
        let ghost p = self.presentation;
        let flags = self.folded_flags();
        let order = self.presentation.order();
        let n = self.presentation.len();
        let mut hid: Vec<bool> = Vec::new();
        let mut visible: Vec<usize> = Vec::new();
        let mut k: usize = 0;
        while k < order.len()
            invariant
                p == self.presentation,
                p.presents(rows),
                n == rows.len(),
                order@ == p.order_view(),
                flags@.len() == n,
                forall|r: int|
                    0 <= r < n ==> #[trigger] flags@[r] == row_folded(p.ids_view(), self.folded_view(), r),
                k <= order@.len(),
                hid@.len() == k,
                forall|j: int|
                    0 <= j < k ==> #[trigger] hid@[j] == hidden_at(
                        p.parents_view(),
                        p.positions_view(),
                        p.order_view(),
                        p.ids_view(),
                        self.folded_view(),
                        j,
                    ),
                visible@ == visible_upto(
                    p.parents_view(),
                    p.positions_view(),
                    p.order_view(),
                    p.ids_view(),
                    self.folded_view(),
                    k as int,
                ),
            decreases order@.len() - k,
        {
            let row = order[k];
            proof {
                assert(row < n);
            }
            let hidden = match self.presentation.parent(row) {
                None => false,
                Some(parent) => {
                    proof {
                        assert(parent < n);
                    }
                    match self.presentation.position(parent) {
                        Some(at) => if at < k {
                            flags[parent] || hid[at]
                        } else {
                            false
                        },
                        None => false,
                    }
                },
            };
            proof {
                match p.parents_view()[row as int] {
                    None => {},
                    Some(q) => {
                        assert(p.drawn_view()[q as int]);
                    },
                }
            }
            hid.push(hidden);
            if !hidden {
                visible.push(row);
            }
            k += 1;
        }
        proof {
            lemma_visible_bounded(p, rows, self.folded_view(), p.order_view().len() as int);
        }
        visible
    }
}

/// The first row whose identity is `id`, if any.
pub open spec fn row_named(ids: Seq<Seq<char>>, id: Seq<char>) -> Option<usize> {
    if exists|r: int| 0 <= r < ids.len() && ids[r] == id {
        Some(choose|r: usize| r < ids.len() && ids[r as int] == id && forall|q: int| 0 <= q < r ==> ids[q] != id)
    } else {
        None
    }
}

/// From `x` up through the parents of drawn rows, the first row among `visible`, looking at most
/// `fuel` rows.
pub open spec fn climb(p: Presentation, visible: Seq<usize>, x: usize, fuel: nat) -> Option<usize>
    decreases fuel,
{
    if fuel == 0 {
        None
    } else if visible.contains(x) {
        Some(x)
    } else {
        match (if x < p.parents_view().len() {
            p.parents_view()[x as int]
        } else {
            None
        }) {
            None => None,
            Some(q) => climb(p, visible, q, (fuel - 1) as nat),
        }
    }
}

/// The nearest visible row at or above `row`'s anchor.
pub open spec fn visible_ancestor_of(p: Presentation, visible: Seq<usize>, row: usize) -> Option<
    usize,
> {
    match (if row < p.anchors_view().len() {
        p.anchors_view()[row as int]
    } else {
        None
    }) {
        None => None,
        Some(a) => climb(p, visible, a, (p.order_view().len() + 1) as nat),
    }
}

/// Whether `rows[r]` carries the head `head`.
pub open spec fn carries_head(rows: Seq<TreeRow>, r: int, head: Seq<char>) -> bool {
    identity_views(rows[r].head_markers@).contains(head)
}

/// The first row that carries the head `head`, if any.
pub open spec fn first_carrying(rows: Seq<TreeRow>, head: Seq<char>) -> Option<usize> {
    if exists|r: int| 0 <= r < rows.len() && carries_head(rows, r, head) {
        Some(choose|r: usize| r < rows.len() && carries_head(rows, r as int, head) && forall|q: int|
            0 <= q < r ==> !carries_head(rows, q, head))
    } else {
        None
    }
}

/// Whether some visible row has identity `id`.
pub open spec fn shows_identity(ids: Seq<Seq<char>>, visible: Seq<usize>, id: Seq<char>) -> bool {
    exists|i: int| 0 <= i < visible.len() && ids[visible[i] as int] == id
}

/// The entry the cursor lands on after the visible rows change: the selected one while it is
/// visible; otherwise its nearest visible ancestor, else the row carrying the active head or its
/// nearest visible ancestor, else the first visible row.
pub open spec fn reconciled_entry(
    p: Presentation,
    visible: Seq<usize>,
    active: Option<(Seq<TreeRow>, Seq<char>)>,
    selected: Option<Seq<char>>,
) -> Option<Seq<char>> {
    let ids = p.ids_view();
    if selected matches Some(id) && shows_identity(ids, visible, id) {
        selected
    } else {
        let ancestor = match selected {
            Some(id) => match row_named(ids, id) {
                Some(r) => visible_ancestor_of(p, visible, r),
                None => None,
            },
            None => None,
        };
        let target = match active {
            Some((rows, head)) => match first_carrying(rows, head) {
                Some(t) => if visible.contains(t) {
                    Some(t)
                } else {
                    visible_ancestor_of(p, visible, t)
                },
                None => None,
            },
            None => None,
        };
        let chosen = if ancestor is Some {
            ancestor
        } else if target is Some {
            target
        } else if visible.len() > 0 {
            Some(visible[0])
        } else {
            None
        };
        match chosen {
            Some(r) => Some(ids[r as int]),
            None => None,
        }
    }
}

/// The head the cursor lands on after the heads change: the selected one while it exists;
/// otherwise the active head, else the first head.
pub open spec fn reconciled_head(
    heads: Seq<Seq<char>>,
    active: Option<Seq<char>>,
    selected: Option<Seq<char>>,
) -> Option<Seq<char>> {
    if selected matches Some(name) && heads.contains(name) {
        selected
    } else {
        match active {
            Some(head) => if heads.contains(head) {
                Some(head)
            } else if heads.len() > 0 {
                Some(heads[0])
            } else {
                None
            },
            None => None,
        }
    }
}

/// The names of `heads`.
pub open spec fn head_names(heads: Seq<TreeHead>) -> Seq<Seq<char>> {
    heads.map_values(|head: TreeHead| head.name@)
}

/// Whether `list` holds `x`.
fn holds(list: &Vec<usize>, x: usize) -> (found: bool)
    ensures
        found == list@.contains(x),
{
    let mut i: usize = 0;
    while i < list.len()
        invariant
            i <= list@.len(),
            forall|q: int| 0 <= q < i ==> list@[q] != x,
        decreases list@.len() - i,
    {
        if list[i] == x {
            return true;
        }
        i += 1;
    }
    false
}

/// The first row that carries the head `head`, if any.
fn first_carrying_row(rows: &Vec<TreeRow>, head: &Identity) -> (found: Option<usize>)
    ensures
        found == first_carrying(rows@, head@),
{
    let mut r: usize = 0;
    while r < rows.len()
        invariant
            r <= rows@.len(),
            forall|q: int| 0 <= q < r ==> !carries_head(rows@, q, head@),
        decreases rows@.len() - r,
    {
        let markers = &rows[r].head_markers;
        let mut h: usize = 0;
        while h < markers.len()
            invariant
                r < rows@.len(),
                forall|q: int| 0 <= q < r ==> !carries_head(rows@, q, head@),
                markers@ == rows@[r as int].head_markers@,
                h <= markers@.len(),
                forall|q: int| 0 <= q < h ==> markers@[q]@ != head@,
            decreases markers@.len() - h,
        {
            if markers[h].same(head) {
                proof {
                    assert(identity_views(markers@)[h as int] == head@);
                    assert(carries_head(rows@, r as int, head@));
                    let c = choose|c: usize| c < rows@.len() && carries_head(rows@, c as int, head@) && forall|q: int|
                        0 <= q < c ==> !carries_head(rows@, q, head@);
                    assert(c == r) by {
                        if c < r {
                            assert(!carries_head(rows@, c as int, head@));
                        }
                        if r < c {
                            assert(!carries_head(rows@, r as int, head@));
                        }
                    }
                }
                return Some(r);
            }
            h += 1;
        }
        proof {
            if carries_head(rows@, r as int, head@) {
                let q = choose|q: int| 0 <= q < identity_views(markers@).len() && identity_views(markers@)[q] == head@;
                assert(markers@[q]@ == head@);
            }
        }
        r += 1;
    }
    None
}

impl ConversationTree {
    /// The nearest visible row at or above `row`'s anchor.
    fn visible_ancestor(&self, row: usize, visible: &Vec<usize>) -> (found: Option<usize>)
        ensures
            found == visible_ancestor_of(self.presentation_view(), visible@, row),
    {
        let mut remaining = self.presentation.order().len();
        let ghost p = self.presentation;
        let start = match self.presentation.anchor(row) {
            Some(a) => a,
            None => {
                return None;
            },
        };
        let mut current = start;
        while true
            invariant
                p == self.presentation,
                p.presents(p.rows_view()),
                visible_ancestor_of(p, visible@, row) == climb(p, visible@, current, (remaining + 1) as nat),
            decreases remaining,
        {
            if holds(visible, current) {
                return Some(current);
            }
            proof {
                assert(p.parents_view().len() == p.drawn_view().len());
            }
            match self.presentation.parent(current) {
                None => {
                    return None;
                },
                Some(q) => {
                    if remaining == 0 {
                        proof {
                            assert(climb(p, visible@, q, 0) is None);
                        }
                        return None;
                    }
                    current = q;
                    remaining -= 1;
                },
            }
        }
        None
    }

    /// Whether some visible row has identity `id`.
    fn shows(&self, visible: &Vec<usize>, id: &Identity) -> (found: bool)
        requires
            forall|i: int| 0 <= i < visible@.len() ==> #[trigger] visible@[i] < self.presentation_view().ids_view().len(),
        ensures
            found == shows_identity(self.presentation_view().ids_view(), visible@, id@),
    {
        let mut i: usize = 0;
        while i < visible.len()
            invariant
                i <= visible@.len(),
                forall|q: int| 0 <= q < visible@.len() ==> #[trigger] visible@[q] < self.presentation_view().ids_view().len(),
                forall|q: int| 0 <= q < i ==> self.presentation_view().ids_view()[#[trigger] visible@[q] as int] != id@,
            decreases visible@.len() - i,
        {
            if self.presentation.is_row_named(visible[i], id) {
                return true;
            }
            i += 1;
        }
        false
    }
}

/// An optional identity, by its view.
pub open spec fn id_view(id: Option<Identity>) -> Option<Seq<char>> {
    match id {
        Some(i) => Some(i@),
        None => None,
    }
}

/// An optional text, by its view.
pub open spec fn text_view(text: Option<String>) -> Option<Seq<char>> {
    match text {
        Some(t) => Some(t@),
        None => None,
    }
}

/// The rows and active head a snapshot offers for choosing a cursor.
pub open spec fn active_of(snapshot: Option<TreeSnapshot>) -> Option<(Seq<TreeRow>, Seq<char>)> {
    match snapshot {
        Some(s) => Some((s.rows@, s.origin.selected_head@)),
        None => None,
    }
}

impl ConversationTree {
    /// The conversation's agent.
    pub closed spec fn agent_view(&self) -> Seq<char> {
        self.agent@
    }

    /// Why no snapshot is shown, if one is not.
    pub closed spec fn unavailable_view(&self) -> Option<Seq<char>> {
        text_view(self.unavailable)
    }

    /// Where focus returns when the tree closes.
    pub closed spec fn return_focus_view(&self) -> SurfaceId {
        self.return_focus
    }

    /// Whether the overlay is open.
    pub closed spec fn open_view(&self) -> bool {
        self.open
    }

    /// The admitted write still unacknowledged, if any.
    pub closed spec fn pending_view(&self) -> Option<TreePending> {
        self.pending
    }

    /// Whether entries or heads are browsed.
    pub closed spec fn mode_view(&self) -> TreeMode {
        self.mode
    }

    /// The selected entry's identity.
    pub closed spec fn selected_entry_view(&self) -> Option<Seq<char>> {
        id_view(self.selected_entry)
    }

    /// The selected head's name.
    pub closed spec fn selected_head_view(&self) -> Option<Seq<char>> {
        id_view(self.selected_head)
    }

    /// The notice shown, if any.
    pub closed spec fn notice_view(&self) -> Option<Seq<char>> {
        text_view(self.notice)
    }

    /// The first entry shown.
    pub closed spec fn entry_offset_view(&self) -> usize {
        self.entry_offset
    }

    /// The first head shown.
    pub closed spec fn head_offset_view(&self) -> usize {
        self.head_offset
    }

    /// The names of the snapshot's heads: none without a snapshot.
    pub open spec fn heads_view(&self) -> Seq<Seq<char>> {
        match self.snapshot_view() {
            Some(s) => head_names(s.heads@),
            None => Seq::empty(),
        }
    }

    /// The active head's name, if a snapshot is shown.
    pub open spec fn active_head_view(&self) -> Option<Seq<char>> {
        match self.snapshot_view() {
            Some(s) => Some(s.origin.selected_head@),
            None => None,
        }
    }
}

/// Whether two sessions agree on everything but the cursor and the scroll offsets.
pub open spec fn same_but_cursor(a: &ConversationTree, b: &ConversationTree) -> bool {
    &&& a.agent_view() == b.agent_view()
    &&& a.snapshot_view() == b.snapshot_view()
    &&& a.presentation_view() == b.presentation_view()
    &&& a.folded_view() == b.folded_view()
    &&& a.unavailable_view() == b.unavailable_view()
    &&& a.return_focus_view() == b.return_focus_view()
    &&& a.open_view() == b.open_view()
    &&& a.pending_view() == b.pending_view()
    &&& a.mode_view() == b.mode_view()
    &&& a.notice_view() == b.notice_view()
    &&& a.editor_view() == b.editor_view()
}

impl ConversationTree {
    /// Moves the entry cursor off rows that are no longer visible.
    fn reconcile_entries(&mut self)
        ensures
            same_but_cursor(&*old(self), &*final(self)),
            final(self).selected_head_view() == old(self).selected_head_view(),
            final(self).head_offset_view() == old(self).head_offset_view(),
            final(self).selected_entry_view() == reconciled_entry(
                old(self).presentation_view(),
                old(self).visible_view(),
                active_of(old(self).snapshot_view()),
                old(self).selected_entry_view(),
            ),
            final(self).entry_offset_view() == if old(self).selected_entry_view() matches Some(id)
                && shows_identity(old(self).presentation_view().ids_view(), old(self).visible_view(), id) {
                old(self).entry_offset_view()
            } else {
                0
            },
    {
        proof {
            use_type_invariant(&*self);
        }
        let visible = self.visible_entries();
        let ghost p = self.presentation;
        let keep = match &self.selected_entry {
            Some(id) => self.shows(&visible, id),
            None => false,
        };
        if keep {
            return;
        }
        let ancestor = match &self.selected_entry {
            Some(id) => match self.presentation.row_of(id) {
                Some(r) => {
                    proof {
                        lemma_row_named_first(p.ids_view(), id@, r);
                    }
                    proof {
                        lemma_visible_ancestor_visible(p, visible@, r);
                    }
                    self.visible_ancestor(r, &visible)
                },
                None => None,
            },
            None => None,
        };
        let target = match &self.snapshot {
            Some(s) => match first_carrying_row(&s.rows, &s.origin.selected_head) {
                Some(t) => if holds(&visible, t) {
                    Some(t)
                } else {
                    proof {
                        lemma_visible_ancestor_visible(p, visible@, t);
                    }
                    self.visible_ancestor(t, &visible)
                },
                None => None,
            },
            None => None,
        };
        let chosen = if ancestor.is_some() {
            ancestor
        } else if target.is_some() {
            target
        } else if visible.len() > 0 {
            Some(visible[0])
        } else {
            None
        };
        let picked = match chosen {
            Some(r) => {
                proof {
                    assert(visible@.contains(r));
                }
                Some(self.presentation.identity(r))
            },
            None => None,
        };
        self.selected_entry = picked;
        self.entry_offset = 0;
    }
}

/// Every visible row is a row of the snapshot.
proof fn lemma_visible_bounded(p: Presentation, rows: Seq<TreeRow>, folded: Seq<Seq<char>>, m: int)
    requires
        p.presents(rows),
        0 <= m <= p.order_view().len(),
    ensures
        forall|i: int|
            0 <= i < visible_upto(
                p.parents_view(),
                p.positions_view(),
                p.order_view(),
                p.ids_view(),
                folded,
                m,
            ).len() ==> #[trigger] visible_upto(
                p.parents_view(),
                p.positions_view(),
                p.order_view(),
                p.ids_view(),
                folded,
                m,
            )[i] < p.ids_view().len(),
    decreases m,
{
    if m > 0 {
        lemma_visible_bounded(p, rows, folded, m - 1);
        let prev = visible_upto(p.parents_view(), p.positions_view(), p.order_view(), p.ids_view(), folded, m - 1);
        let cur = visible_upto(p.parents_view(), p.positions_view(), p.order_view(), p.ids_view(), folded, m);
        assert(p.ids_view().len() == rows.len());
        assert(p.order_view()[m - 1] < rows.len());
        assert forall|i: int| 0 <= i < cur.len() implies #[trigger] cur[i] < p.ids_view().len() by {
            if i < prev.len() {
                assert(cur[i] == prev[i]);
            } else {
                assert(cur[i] == p.order_view()[m - 1]);
            }
        }
    }
}

/// A visible ancestor is visible.
proof fn lemma_visible_ancestor_visible(p: Presentation, visible: Seq<usize>, row: usize)
    ensures
        visible_ancestor_of(p, visible, row) matches Some(y) ==> visible.contains(y),
{
    match (if row < p.anchors_view().len() {
        p.anchors_view()[row as int]
    } else {
        None
    }) {
        None => {},
        Some(a) => lemma_climb_visible(p, visible, a, (p.order_view().len() + 1) as nat),
    }
}

/// A row found by climbing is visible.
proof fn lemma_climb_visible(p: Presentation, visible: Seq<usize>, x: usize, fuel: nat)
    ensures
        climb(p, visible, x, fuel) matches Some(y) ==> visible.contains(y),
    decreases fuel,
{
    if fuel > 0 && !visible.contains(x) {
        match (if x < p.parents_view().len() {
            p.parents_view()[x as int]
        } else {
            None
        }) {
            None => {},
            Some(q) => lemma_climb_visible(p, visible, q, (fuel - 1) as nat),
        }
    }
}

/// The first row with an identity is the one `row_named` names.
proof fn lemma_row_named_first(ids: Seq<Seq<char>>, id: Seq<char>, r: usize)
    requires
        r < ids.len(),
        ids[r as int] == id,
        forall|q: int| 0 <= q < r ==> ids[q] != id,
    ensures
        row_named(ids, id) == Some(r),
{
    let c = choose|c: usize| c < ids.len() && ids[c as int] == id && forall|q: int| 0 <= q < c ==> ids[q] != id;
    if c < r {
        assert(ids[c as int] != id);
    }
    if r < c {
        assert(ids[r as int] != id);
    }
}

/// Whether the row named `id` has a drawn row hanging from it, so that it can be folded.
pub open spec fn has_children_named(p: Presentation, id: Seq<char>) -> bool {
    match row_named(p.ids_view(), id) {
        Some(r) => exists|y: int|
            0 <= y < p.parents_view().len() && #[trigger] p.parents_view()[y] == Some(r),
        None => false,
    }
}

/// `folds` without `id`.
pub open spec fn without_fold(folds: Seq<Seq<char>>, id: Seq<char>) -> Seq<Seq<char>>
    decreases folds.len(),
{
    if folds.len() == 0 {
        folds
    } else {
        without_fold(folds.drop_last(), id) + if folds.last() == id {
            Seq::empty()
        } else {
            seq![folds.last()]
        }
    }
}

/// The folds of `folds` that still name a row with children.
pub open spec fn folds_kept(p: Presentation, folds: Seq<Seq<char>>) -> Seq<Seq<char>>
    decreases folds.len(),
{
    if folds.len() == 0 {
        folds
    } else {
        folds_kept(p, folds.drop_last()) + if has_children_named(p, folds.last()) {
            seq![folds.last()]
        } else {
            Seq::empty()
        }
    }
}

impl ConversationTree {
    /// Moves the head cursor off heads that no longer exist.
    fn reconcile_heads(&mut self)
        ensures
            same_but_cursor(&*old(self), &*final(self)),
            final(self).selected_entry_view() == old(self).selected_entry_view(),
            final(self).entry_offset_view() == old(self).entry_offset_view(),
            final(self).selected_head_view() == reconciled_head(
                old(self).heads_view(),
                old(self).active_head_view(),
                old(self).selected_head_view(),
            ),
            final(self).head_offset_view() == if old(self).selected_head_view() matches Some(name)
                && old(self).heads_view().contains(name) {
                old(self).head_offset_view()
            } else {
                0
            },
    {
        proof {
            use_type_invariant(&*self);
        }
        let picked = match &self.snapshot {
            None => None,
            Some(s) => {
                let heads = &s.heads;
                let mut kept = false;
                let mut found: Option<usize> = None;
                let mut i: usize = 0;
                while i < heads.len()
                    invariant
                        i <= heads@.len(),
                        kept == (self.selected_head matches Some(name) && exists|q: int|
                            0 <= q < i && heads@[q].name@ == name@),
                        match found {
                            Some(f) => f < i && heads@[f as int].name@ == s.origin.selected_head@,
                            None => forall|q: int| 0 <= q < i ==> heads@[q].name@ != s.origin.selected_head@,
                        },
                    decreases heads@.len() - i,
                {
                    match &self.selected_head {
                        Some(name) => {
                            if heads[i].name.same(name) {
                                kept = true;
                            }
                        },
                        None => {},
                    }
                    if found.is_none() && heads[i].name.same(&s.origin.selected_head) {
                        found = Some(i);
                    }
                    i += 1;
                }
                proof {
                    let names = head_names(heads@);
                    if self.selected_head is Some {
                        let name = self.selected_head->0;
                        if names.contains(name@) {
                            let q = choose|q: int| 0 <= q < names.len() && names[q] == name@;
                            assert(heads@[q].name@ == name@);
                        }
                        if kept {
                            let q = choose|q: int| 0 <= q < i && heads@[q].name@ == name@;
                            assert(names[q] == name@);
                        }
                    }
                    match found {
                        Some(f) => {
                            assert(names[f as int] == s.origin.selected_head@);
                        },
                        None => {
                            if names.contains(s.origin.selected_head@) {
                                let q = choose|q: int| 0 <= q < names.len() && names[q] == s.origin.selected_head@;
                                assert(heads@[q].name@ == s.origin.selected_head@);
                            }
                        },
                    }
                }
                if kept {
                    return;
                }
                match found {
                    Some(f) => Some(heads[f].name.duplicate()),
                    None => if heads.len() > 0 {
                        Some(heads[0].name.duplicate())
                    } else {
                        None
                    },
                }
            },
        };
        proof {
            if self.snapshot is None {
                assert(self.heads_view() =~= Seq::empty());
            }
        }
        self.selected_head = picked;
        self.head_offset = 0;
    }
}

/// `folds` with `id` folded or unfolded.
pub open spec fn toggled_fold(folds: Seq<Seq<char>>, id: Seq<char>) -> Seq<Seq<char>> {
    if folds.contains(id) {
        without_fold(folds, id)
    } else {
        folds.push(id)
    }
}

/// The rows shown for a drawing under these folds, where a snapshot is shown.
pub open spec fn visible_with(shown: bool, p: Presentation, folds: Seq<Seq<char>>) -> Seq<usize> {
    if shown {
        visible_rows(p, folds)
    } else {
        Seq::empty()
    }
}

impl ConversationTree {
    /// Whether the row named `id` has a drawn row hanging from it.
    pub fn has_children(&self, id: &Identity) -> (has: bool)
        ensures
            has == has_children_named(self.presentation_view(), id@),
    {
        match self.presentation.row_of(id) {
            Some(r) => {
                proof {
                    lemma_row_named_first(self.presentation_view().ids_view(), id@, r);
                }
                self.presentation.has_children(r)
            },
            None => {
                proof {
                    assert(!(exists|r: int|
                        0 <= r < self.presentation_view().ids_view().len()
                            && self.presentation_view().ids_view()[r] == id@));
                }
                false
            },
        }
    }

    /// Whether the row named `id` is folded.
    pub fn is_folded(&self, id: &Identity) -> (folded: bool)
        ensures
            folded == self.folded_view().contains(id@),
    {
        let mut i: usize = 0;
        while i < self.folded.len()
            invariant
                i <= self.folded@.len(),
                forall|q: int| 0 <= q < i ==> #[trigger] self.folded@[q]@ != id@,
            decreases self.folded@.len() - i,
        {
            if self.folded[i].same(id) {
                proof {
                    assert(self.folded_view()[i as int] == id@);
                }
                return true;
            }
            i += 1;
        }
        proof {
            if self.folded_view().contains(id@) {
                let q = choose|q: int| 0 <= q < self.folded_view().len() && self.folded_view()[q] == id@;
                assert(self.folded@[q]@ == id@);
            }
        }
        false
    }

    /// Folds or unfolds the entry named `id`, while entries are browsed and it has children, then
    /// moves the cursor off rows the fold hid.
    pub fn toggle_fold(&mut self, id: &Identity) -> (changed: bool)
        ensures
            changed == (old(self).mode_view() == TreeMode::Entries && has_children_named(
                old(self).presentation_view(),
                id@,
            )),
            !changed ==> same_but_cursor(&*old(self), &*final(self))
                && final(self).selected_entry_view() == old(self).selected_entry_view()
                && final(self).entry_offset_view() == old(self).entry_offset_view(),
            changed ==> {
                let folds = toggled_fold(old(self).folded_view(), id@);
                let visible = visible_with(
                    old(self).snapshot_view() is Some,
                    old(self).presentation_view(),
                    folds,
                );
                &&& final(self).folded_view() == folds
                &&& final(self).selected_entry_view() == reconciled_entry(
                    old(self).presentation_view(),
                    visible,
                    active_of(old(self).snapshot_view()),
                    old(self).selected_entry_view(),
                )
                &&& final(self).entry_offset_view() == if old(self).selected_entry_view() matches Some(s)
                    && shows_identity(old(self).presentation_view().ids_view(), visible, s) {
                    old(self).entry_offset_view()
                } else {
                    0
                }
            },
            final(self).agent_view() == old(self).agent_view(),
            final(self).snapshot_view() == old(self).snapshot_view(),
            final(self).presentation_view() == old(self).presentation_view(),
            final(self).unavailable_view() == old(self).unavailable_view(),
            final(self).return_focus_view() == old(self).return_focus_view(),
            final(self).open_view() == old(self).open_view(),
            final(self).pending_view() == old(self).pending_view(),
            final(self).mode_view() == old(self).mode_view(),
            final(self).notice_view() == old(self).notice_view(),
            final(self).selected_head_view() == old(self).selected_head_view(),
            final(self).head_offset_view() == old(self).head_offset_view(),
    {
        proof {
            use_type_invariant(&*self);
        }
        if self.mode != TreeMode::Entries || !self.has_children(id) {
            return false;
        }
        let mut folds: Vec<Identity> = Vec::new();
        let mut had = false;
        let mut i: usize = 0;
        while i < self.folded.len()
            invariant
                i <= self.folded@.len(),
                identity_views(folds@) == without_fold(identity_views(self.folded@.take(i as int)), id@),
                had == identity_views(self.folded@.take(i as int)).contains(id@),
            decreases self.folded@.len() - i,
        {
            let ghost before = folds@;
            proof {
                assert(identity_views(self.folded@.take(i + 1)).drop_last() =~= identity_views(self.folded@.take(i as int)));
                assert(identity_views(self.folded@.take(i + 1)).last() == self.folded@[i as int]@);
                assert(identity_views(self.folded@.take(i + 1)) =~= identity_views(self.folded@.take(i as int)).push(self.folded@[i as int]@));
            }
            if self.folded[i].same(id) {
                had = true;
            } else {
                let copy = self.folded[i].duplicate();
                folds.push(copy);
                proof {
                    assert(identity_views(folds@) =~= identity_views(before).push(copy@));
                }
            }
            i += 1;
        }
        proof {
            assert(self.folded@.take(self.folded@.len() as int) =~= self.folded@);
        }
        if !had {
            let ghost before = folds@;
            let copy = id.duplicate();
            folds.push(copy);
            proof {
                lemma_without_absent(self.folded_view(), id@);
                assert(identity_views(folds@) =~= identity_views(before).push(copy@));
            }
        }
        self.folded = folds;
        self.reconcile_entries();
        true
    }
}

/// Taking out what is absent changes nothing.
proof fn lemma_without_absent(folds: Seq<Seq<char>>, id: Seq<char>)
    requires
        !folds.contains(id),
    ensures
        without_fold(folds, id) == folds,
    decreases folds.len(),
{
    if folds.len() > 0 {
        assert(!folds.drop_last().contains(id)) by {
            if folds.drop_last().contains(id) {
                let q = choose|q: int| 0 <= q < folds.drop_last().len() && folds.drop_last()[q] == id;
                assert(folds[q] == id);
            }
        }
        lemma_without_absent(folds.drop_last(), id);
        assert(folds.last() != id);
        assert(folds.drop_last().push(folds.last()) =~= folds);
    }
}

/// What the tree says when it cannot draw a snapshot whose identities are `unique` or not.
pub open spec fn refusal_text(unique: bool) -> Seq<char> {
    if unique {
        "History contains disconnected branch ancestry."@
    } else {
        "History contains repeated branch identities."@
    }
}

/// What the tree says of a snapshot taken of another conversation.
pub open spec fn foreign_text() -> Seq<char> {
    "This snapshot belongs to a different conversation."@
}

impl ConversationTree {
    /// Shows a new snapshot, or why there is none. A snapshot of this conversation that draws
    /// replaces the drawing, clears the notice, keeps the folds that still name a row with
    /// children, and moves the cursors off rows and heads that are gone. One that cannot be drawn
    /// leaves an empty drawing and says why; one of another conversation, or a failure, keeps the
    /// drawing and says why. Both scroll offsets return to the top.
    pub fn refresh(&mut self, snapshot: Result<TreeSnapshot, String>)
        ensures
            final(self).agent_view() == old(self).agent_view(),
            final(self).return_focus_view() == old(self).return_focus_view(),
            final(self).open_view() == old(self).open_view(),
            final(self).pending_view() == old(self).pending_view(),
            final(self).mode_view() == old(self).mode_view(),
            final(self).entry_offset_view() == 0,
            final(self).head_offset_view() == 0,
            match snapshot {
                Ok(s) => if s.origin.agent_id@ == old(self).agent_view() {
                    if ids_unique(s.rows@) && rooted(s.rows@) {
                        let p = final(self).presentation_view();
                        &&& final(self).snapshot_view() == Some(s)
                        &&& p.presents(s.rows@)
                        &&& final(self).unavailable_view() is None
                        &&& final(self).notice_view() is None
                        &&& final(self).folded_view() == folds_kept(p, old(self).folded_view())
                        &&& final(self).selected_entry_view() == reconciled_entry(
                            p,
                            visible_rows(p, final(self).folded_view()),
                            Some((s.rows@, s.origin.selected_head@)),
                            old(self).selected_entry_view(),
                        )
                        &&& final(self).selected_head_view() == reconciled_head(
                            head_names(s.heads@),
                            Some(s.origin.selected_head@),
                            old(self).selected_head_view(),
                        )
                    } else {
                        &&& final(self).snapshot_view() is None
                        &&& final(self).presentation_view().presents(Seq::empty())
                        &&& final(self).unavailable_view() == Some(refusal_text(ids_unique(s.rows@)))
                        &&& final(self).notice_view() == old(self).notice_view()
                        &&& final(self).folded_view() == old(self).folded_view()
                        &&& final(self).selected_entry_view() == old(self).selected_entry_view()
                        &&& final(self).selected_head_view() == old(self).selected_head_view()
                    }
                } else {
                    &&& final(self).snapshot_view() is None
                    &&& final(self).presentation_view() == old(self).presentation_view()
                    &&& final(self).unavailable_view() == Some(foreign_text())
                    &&& final(self).notice_view() == old(self).notice_view()
                    &&& final(self).folded_view() == old(self).folded_view()
                    &&& final(self).selected_entry_view() == old(self).selected_entry_view()
                    &&& final(self).selected_head_view() == old(self).selected_head_view()
                },
                Err(message) => {
                    &&& final(self).snapshot_view() is None
                    &&& final(self).presentation_view() == old(self).presentation_view()
                    &&& final(self).unavailable_view() == Some(sanitized(message@))
                    &&& final(self).notice_view() == old(self).notice_view()
                    &&& final(self).folded_view() == old(self).folded_view()
                    &&& final(self).selected_entry_view() == old(self).selected_entry_view()
                    &&& final(self).selected_head_view() == old(self).selected_head_view()
                },
            },
    {
        proof {
            use_type_invariant(&*self);
        }
        match snapshot {
            Ok(s) => {
                if s.origin.agent_id.same(&self.agent) {
                    match Presentation::new(&s.rows) {
                        Err(refusal) => {
                            self.snapshot = None;
                            self.presentation = Presentation::empty();
                            proof {
                                reveal_strlit("History contains disconnected branch ancestry.");
                                reveal_strlit("History contains repeated branch identities.");
                            }
                            self.unavailable = Some(refusal.message().to_owned());
                        },
                        Ok(drawing) => {
                            self.snapshot = None;
                            self.presentation = drawing;
                            self.snapshot = Some(s);
                            self.unavailable = None;
                            self.notice = None;
                            let ghost p = self.presentation;
                            let mut kept: Vec<Identity> = Vec::new();
                            let mut i: usize = 0;
                            while i < self.folded.len()
                                invariant
                                    p == self.presentation,
                                    i <= self.folded@.len(),
                                    identity_views(kept@) == folds_kept(p, identity_views(self.folded@.take(i as int))),
                                decreases self.folded@.len() - i,
                            {
                                let ghost before = kept@;
                                proof {
                                    assert(identity_views(self.folded@.take(i + 1)).drop_last() =~= identity_views(self.folded@.take(i as int)));
                                    assert(identity_views(self.folded@.take(i + 1)).last() == self.folded@[i as int]@);
                                }
                                if self.has_children(&self.folded[i]) {
                                    let copy = self.folded[i].duplicate();
                                    kept.push(copy);
                                    proof {
                                        assert(identity_views(kept@) =~= identity_views(before).push(copy@));
                                    }
                                }
                                i += 1;
                            }
                            proof {
                                assert(self.folded@.take(self.folded@.len() as int) =~= self.folded@);
                            }
                            self.folded = kept;
                            self.reconcile_entries();
                            self.reconcile_heads();
                        },
                    }
                } else {
                    self.snapshot = None;
                    proof {
                        reveal_strlit("This snapshot belongs to a different conversation.");
                    }
                    self.unavailable = Some("This snapshot belongs to a different conversation.".to_owned());
                }
            },
            Err(message) => {
                self.snapshot = None;
                self.unavailable = Some(sanitize_message(message.as_str()));
            },
        }
        self.entry_offset = 0;
        self.head_offset = 0;
    }
}

impl ConversationTree {
    /// A session for `agent`'s conversation, open, browsing entries, showing `snapshot` or why
    /// there is none.
    pub fn new(agent: Identity, snapshot: Result<TreeSnapshot, String>, return_focus: SurfaceId) -> (tree: Self)
        ensures
            tree.agent_view() == agent@,
            tree.return_focus_view() == return_focus,
            tree.open_view(),
            tree.pending_view() is None,
            tree.mode_view() == TreeMode::Entries,
            tree.entry_offset_view() == 0,
            tree.head_offset_view() == 0,
            tree.folded_view() == Seq::<Seq<char>>::empty(),
            match snapshot {
                Ok(s) => if s.origin.agent_id@ == agent@ {
                    if ids_unique(s.rows@) && rooted(s.rows@) {
                        let p = tree.presentation_view();
                        &&& tree.snapshot_view() == Some(s)
                        &&& p.presents(s.rows@)
                        &&& tree.unavailable_view() is None
                        &&& tree.notice_view() is None
                        &&& tree.selected_entry_view() == reconciled_entry(
                            p,
                            visible_rows(p, Seq::empty()),
                            Some((s.rows@, s.origin.selected_head@)),
                            None,
                        )
                        &&& tree.selected_head_view() == reconciled_head(
                            head_names(s.heads@),
                            Some(s.origin.selected_head@),
                            None,
                        )
                    } else {
                        &&& tree.snapshot_view() is None
                        &&& tree.presentation_view().presents(Seq::empty())
                        &&& tree.unavailable_view() == Some(refusal_text(ids_unique(s.rows@)))
                        &&& tree.notice_view() is None
                        &&& tree.selected_entry_view() is None
                        &&& tree.selected_head_view() is None
                    }
                } else {
                    &&& tree.snapshot_view() is None
                    &&& tree.presentation_view().presents(Seq::empty())
                    &&& tree.unavailable_view() == Some(foreign_text())
                    &&& tree.notice_view() is None
                    &&& tree.selected_entry_view() is None
                    &&& tree.selected_head_view() is None
                },
                Err(message) => {
                    &&& tree.snapshot_view() is None
                    &&& tree.presentation_view().presents(Seq::empty())
                    &&& tree.unavailable_view() == Some(sanitized(message@))
                    &&& tree.notice_view() is None
                    &&& tree.selected_entry_view() is None
                    &&& tree.selected_head_view() is None
                },
            },
    {
        let mut tree = ConversationTree {
            agent,
            snapshot: None,
            presentation: Presentation::empty(),
            unavailable: None,
            return_focus,
            open: true,
            pending: None,
            mode: TreeMode::Entries,
            selected_entry: None,
            selected_head: None,
            folded: Vec::new(),
            notice: None,
            entry_offset: 0,
            head_offset: 0,
            editor: None,
        };
        proof {
            assert(tree.folded_view() =~= Seq::<Seq<char>>::empty());
            assert(folds_kept(tree.presentation_view(), Seq::empty()) == Seq::<Seq<char>>::empty());
        }
        let ghost given = snapshot;
        tree.refresh(snapshot);
        proof {
            match given {
                Ok(s) => {
                    if s.origin.agent_id@ == agent@ && ids_unique(s.rows@) && rooted(s.rows@) {
                        assert(folds_kept(tree.presentation_view(), Seq::empty()) =~= Seq::<Seq<char>>::empty());
                    }
                },
                Err(_) => {},
            }
        }
        tree
    }

    /// The conversation's agent.
    pub fn agent(&self) -> (agent: &Identity)
        ensures
            agent@ == self.agent_view(),
    {
        &self.agent
    }

    /// Where focus returns when the tree closes.
    pub fn return_focus(&self) -> (focus: SurfaceId)
        ensures
            focus == self.return_focus_view(),
    {
        self.return_focus
    }

    /// Whether the overlay is open.
    pub fn is_open(&self) -> (open: bool)
        ensures
            open == self.open_view(),
    {
        self.open
    }

    /// Whether an admitted write awaits its acknowledgment.
    pub fn is_pending(&self) -> (pending: bool)
        ensures
            pending == self.pending_view() is Some,
    {
        self.pending.is_some()
    }

    /// The admitted write awaiting its acknowledgment, if any.
    pub fn pending(&self) -> (pending: Option<TreePending>)
        ensures
            pending == self.pending_view(),
    {
        self.pending
    }

    /// Whether entries or heads are browsed.
    pub fn mode(&self) -> (mode: TreeMode)
        ensures
            mode == self.mode_view(),
    {
        self.mode
    }

    /// Why no snapshot is shown, if one is not.
    pub fn unavailable(&self) -> (why: Option<&str>)
        ensures
            match why {
                Some(text) => self.unavailable_view() == Some(text@),
                None => self.unavailable_view() is None,
            },
    {
        match &self.unavailable {
            Some(text) => Some(text.as_str()),
            None => None,
        }
    }

    /// The notice shown, if any.
    pub fn notice(&self) -> (notice: Option<&str>)
        ensures
            match notice {
                Some(text) => self.notice_view() == Some(text@),
                None => self.notice_view() is None,
            },
    {
        match &self.notice {
            Some(text) => Some(text.as_str()),
            None => None,
        }
    }

    /// The selected entry's identity.
    pub fn selected_entry(&self) -> (id: Option<&Identity>)
        ensures
            match id {
                Some(i) => self.selected_entry_view() == Some(i@),
                None => self.selected_entry_view() is None,
            },
    {
        self.selected_entry.as_ref()
    }

    /// The selected head's name.
    pub fn selected_head(&self) -> (name: Option<&Identity>)
        ensures
            match name {
                Some(n) => self.selected_head_view() == Some(n@),
                None => self.selected_head_view() is None,
            },
    {
        self.selected_head.as_ref()
    }

    /// The active head's name: empty without a snapshot.
    pub fn active_head_name(&self) -> (name: &str)
        ensures
            name@ == match self.active_head_view() {
                Some(head) => head,
                None => Seq::empty(),
            },
    {
        match &self.snapshot {
            Some(s) => s.origin.selected_head.as_str(),
            None => {
                proof {
                    reveal_strlit("");
                }
                ""
            },
        }
    }

    /// The snapshot's rows: none without a snapshot.
    pub fn rows(&self) -> (rows: &[TreeRow])
        ensures
            rows@ == match self.snapshot_view() {
                Some(s) => s.rows@,
                None => Seq::empty(),
            },
    {
        match &self.snapshot {
            Some(s) => s.rows.as_slice(),
            None => {
                let none: &[TreeRow] = &[];
                assert(none@ =~= Seq::<TreeRow>::empty());
                none
            },
        }
    }

    /// The snapshot's heads: none without a snapshot.
    pub fn heads(&self) -> (heads: &[TreeHead])
        ensures
            head_names(heads@) == self.heads_view(),
    {
        match &self.snapshot {
            Some(s) => s.heads.as_slice(),
            None => {
                let none: &[TreeHead] = &[];
                assert(head_names(none@) =~= Seq::<Seq<char>>::empty());
                none
            },
        }
    }

    /// How many entries are shown.
    pub fn entries_count(&self) -> (count: usize)
        ensures
            count == self.visible_view().len(),
    {
        self.visible_entries().len()
    }

    /// How many heads the snapshot has.
    pub fn heads_count(&self) -> (count: usize)
        ensures
            count == self.heads_view().len(),
    {
        self.heads().len()
    }

    /// The first entry or head shown, for the mode browsed.
    pub fn scroll_offset(&self) -> (offset: usize)
        ensures
            offset == match self.mode_view() {
                TreeMode::Entries => self.entry_offset_view(),
                TreeMode::Heads => self.head_offset_view(),
            },
    {
        match self.mode {
            TreeMode::Entries => self.entry_offset,
            TreeMode::Heads => self.head_offset,
        }
    }
}

/// The first index of `visible` whose row has identity `id`.
pub open spec fn first_shown(ids: Seq<Seq<char>>, visible: Seq<usize>, id: Seq<char>) -> Option<usize> {
    if exists|i: int| 0 <= i < visible.len() && ids[visible[i] as int] == id {
        Some(choose|i: usize| i < visible.len() && ids[visible[i as int] as int] == id && forall|q: int|
            0 <= q < i ==> ids[visible[q] as int] != id)
    } else {
        None
    }
}

/// The first index of `heads` named `name`.
pub open spec fn first_head(heads: Seq<Seq<char>>, name: Seq<char>) -> Option<usize> {
    if exists|i: int| 0 <= i < heads.len() && heads[i] == name {
        Some(choose|i: usize| i < heads.len() && heads[i as int] == name && forall|q: int| 0 <= q < i ==> heads[q] != name)
    } else {
        None
    }
}

/// The scroll offset that brings `index` into a window of `rows` rows (at least one) over
/// `count` items, moving as little as it can and never past the last full window.
pub open spec fn scrolled(offset: usize, index: usize, count: usize, rows: usize) -> usize {
    let rows = if rows < 1 { 1usize } else { rows };
    let moved = if index < offset {
        index
    } else if index >= offset.saturating_add(rows) {
        index.saturating_add(1).saturating_sub(rows)
    } else {
        offset
    };
    let last = count.saturating_sub(rows);
    if moved < last {
        moved
    } else {
        last
    }
}

impl ConversationTree {
    /// Where the cursor stands among the entries shown, or among the heads.
    pub open spec fn selected_index_view(&self) -> Option<usize> {
        match self.mode_view() {
            TreeMode::Entries => match self.selected_entry_view() {
                Some(id) => first_shown(self.presentation_view().ids_view(), self.visible_view(), id),
                None => None,
            },
            TreeMode::Heads => match self.selected_head_view() {
                Some(name) => first_head(self.heads_view(), name),
                None => None,
            },
        }
    }

    /// How many entries or heads the mode browses.
    pub open spec fn count_view(&self) -> usize {
        match self.mode_view() {
            TreeMode::Entries => self.visible_view().len() as usize,
            TreeMode::Heads => self.heads_view().len() as usize,
        }
    }

    /// The visible row the cursor stands on, in entry terms.
    pub open spec fn selected_row_view(&self) -> Option<usize> {
        match self.selected_entry_view() {
            Some(id) => match first_shown(self.presentation_view().ids_view(), self.visible_view(), id) {
                Some(i) => Some(self.visible_view()[i as int]),
                None => None,
            },
            None => None,
        }
    }

    /// Where the cursor stands among the entries shown, or among the heads.
    pub fn selected_index(&self) -> (index: Option<usize>)
        ensures
            index == self.selected_index_view(),
    {
        match self.mode {
            TreeMode::Entries => match &self.selected_entry {
                Some(id) => {
                    let visible = self.visible_entries();
                    self.first_shown_index(&visible, id)
                },
                None => None,
            },
            TreeMode::Heads => match &self.selected_head {
                Some(name) => first_head_index(self.heads(), name),
                None => None,
            },
        }
    }

    /// The first index of `visible` whose row has identity `id`.
    fn first_shown_index(&self, visible: &Vec<usize>, id: &Identity) -> (index: Option<usize>)
        requires
            visible@ == self.visible_view(),
            forall|i: int|
                0 <= i < visible@.len() ==> #[trigger] visible@[i] < self.presentation_view().ids_view().len(),
        ensures
            index == first_shown(self.presentation_view().ids_view(), visible@, id@),
    {
        let ghost ids = self.presentation_view().ids_view();
        let mut i: usize = 0;
        while i < visible.len()
            invariant
                ids == self.presentation_view().ids_view(),
                forall|q: int| 0 <= q < visible@.len() ==> #[trigger] visible@[q] < ids.len(),
                i <= visible@.len(),
                forall|q: int| 0 <= q < i ==> ids[#[trigger] visible@[q] as int] != id@,
            decreases visible@.len() - i,
        {
            if self.presentation.is_row_named(visible[i], id) {
                proof {
                    lemma_first_shown(ids, visible@, id@, i);
                }
                return Some(i);
            }
            i += 1;
        }
        None
    }
}

/// The first index of `heads` named `name`.
fn first_head_index(heads: &[TreeHead], name: &Identity) -> (index: Option<usize>)
    ensures
        index == first_head(head_names(heads@), name@),
{
    let ghost names = head_names(heads@);
    let mut i: usize = 0;
    while i < heads.len()
        invariant
            names == head_names(heads@),
            i <= heads@.len(),
            forall|q: int| 0 <= q < i ==> names[q] != name@,
        decreases heads@.len() - i,
    {
        if heads[i].name.same(name) {
            proof {
                lemma_first_head(names, name@, i);
            }
            return Some(i);
        }
        i += 1;
    }
    None
}

/// What a first index found is.
proof fn lemma_first_found(ids: Seq<Seq<char>>, visible: Seq<usize>, id: Seq<char>, names: Seq<Seq<char>>, name: Seq<char>)
    requires
        visible.len() <= usize::MAX,
        names.len() <= usize::MAX,
    ensures
        first_shown(ids, visible, id) matches Some(i) ==> i < visible.len() && ids[visible[i as int] as int] == id,
        first_head(names, name) matches Some(i) ==> i < names.len() && names[i as int] == name,
{
    if exists|i: int| 0 <= i < visible.len() && ids[visible[i] as int] == id {
        let w = choose|i: int| 0 <= i < visible.len() && ids[visible[i] as int] == id;
        lemma_least_shown(ids, visible, id, w);
    }
    if exists|i: int| 0 <= i < names.len() && names[i] == name {
        let w = choose|i: int| 0 <= i < names.len() && names[i] == name;
        lemma_least_head(names, name, w);
    }
}

/// Where some index holds `id`, a first one does.
proof fn lemma_least_shown(ids: Seq<Seq<char>>, visible: Seq<usize>, id: Seq<char>, w: int)
    requires
        visible.len() <= usize::MAX,
        0 <= w < visible.len(),
        ids[visible[w] as int] == id,
    ensures
        exists|i: usize| i < visible.len() && ids[visible[i as int] as int] == id && forall|q: int|
            0 <= q < i ==> ids[visible[q] as int] != id,
    decreases w,
{
    if exists|q: int| 0 <= q < w && ids[visible[q] as int] == id {
        let q = choose|q: int| 0 <= q < w && ids[visible[q] as int] == id;
        lemma_least_shown(ids, visible, id, q);
    } else {
        let i = w as usize;
        assert(forall|q: int| 0 <= q < i ==> ids[visible[q] as int] != id);
    }
}

/// Where some head is named `name`, a first one is.
proof fn lemma_least_head(names: Seq<Seq<char>>, name: Seq<char>, w: int)
    requires
        names.len() <= usize::MAX,
        0 <= w < names.len(),
        names[w] == name,
    ensures
        exists|i: usize| i < names.len() && names[i as int] == name && forall|q: int| 0 <= q < i ==> names[q] != name,
    decreases w,
{
    if exists|q: int| 0 <= q < w && names[q] == name {
        let q = choose|q: int| 0 <= q < w && names[q] == name;
        lemma_least_head(names, name, q);
    } else {
        let i = w as usize;
        assert(forall|q: int| 0 <= q < i ==> names[q] != name);
    }
}

proof fn lemma_first_shown(ids: Seq<Seq<char>>, visible: Seq<usize>, id: Seq<char>, i: usize)
    requires
        i < visible.len(),
        ids[visible[i as int] as int] == id,
        forall|q: int| 0 <= q < i ==> ids[#[trigger] visible[q] as int] != id,
    ensures
        first_shown(ids, visible, id) == Some(i),
{
    let c = choose|c: usize| c < visible.len() && ids[visible[c as int] as int] == id && forall|q: int|
        0 <= q < c ==> ids[visible[q] as int] != id;
    if c < i {
        assert(ids[visible[c as int] as int] != id);
    }
    if i < c {
        assert(ids[visible[i as int] as int] != id);
    }
}

proof fn lemma_first_head(names: Seq<Seq<char>>, name: Seq<char>, i: usize)
    requires
        i < names.len(),
        names[i as int] == name,
        forall|q: int| 0 <= q < i ==> names[q] != name,
    ensures
        first_head(names, name) == Some(i),
{
    let c = choose|c: usize| c < names.len() && names[c as int] == name && forall|q: int| 0 <= q < c ==> names[q] != name;
    if c < i {
        assert(names[c as int] != name);
    }
    if i < c {
        assert(names[i as int] != name);
    }
}

/// Whether two sessions agree on everything.
pub open spec fn same_session(a: &ConversationTree, b: &ConversationTree) -> bool {
    &&& same_but_cursor(a, b)
    &&& a.selected_entry_view() == b.selected_entry_view()
    &&& a.selected_head_view() == b.selected_head_view()
    &&& a.entry_offset_view() == b.entry_offset_view()
    &&& a.head_offset_view() == b.head_offset_view()
}

impl ConversationTree {
    /// The entry or head the cursor names after selecting `index`: the one there, where there is
    /// one, else the current one.
    pub open spec fn chosen_at(&self, index: usize) -> Option<Seq<char>> {
        match self.mode_view() {
            TreeMode::Entries => if index < self.visible_view().len() {
                Some(self.presentation_view().ids_view()[self.visible_view()[index as int] as int])
            } else {
                self.selected_entry_view()
            },
            TreeMode::Heads => if index < self.heads_view().len() {
                Some(self.heads_view()[index as int])
            } else {
                self.selected_head_view()
            },
        }
    }

    /// Where the cursor then stands.
    pub open spec fn index_of_choice(&self, index: usize) -> Option<usize> {
        match self.chosen_at(index) {
            Some(id) => match self.mode_view() {
                TreeMode::Entries => first_shown(self.presentation_view().ids_view(), self.visible_view(), id),
                TreeMode::Heads => first_head(self.heads_view(), id),
            },
            None => None,
        }
    }
}

/// Whether `b` is `a` with the cursor moved to `index` and scrolled into a window of `rows`.
pub open spec fn selected_at(a: &ConversationTree, b: &ConversationTree, index: usize, rows: usize) -> bool {
    let offset = match a.mode_view() {
        TreeMode::Entries => a.entry_offset_view(),
        TreeMode::Heads => a.head_offset_view(),
    };
    let scrolled_to = match a.index_of_choice(index) {
        Some(i) => scrolled(offset, i, a.count_view(), rows),
        None => offset,
    };
    &&& same_but_cursor(a, b)
    &&& match a.mode_view() {
        TreeMode::Entries => {
            &&& b.selected_entry_view() == a.chosen_at(index)
            &&& b.entry_offset_view() == scrolled_to
            &&& b.selected_head_view() == a.selected_head_view()
            &&& b.head_offset_view() == a.head_offset_view()
        },
        TreeMode::Heads => {
            &&& b.selected_head_view() == a.chosen_at(index)
            &&& b.head_offset_view() == scrolled_to
            &&& b.selected_entry_view() == a.selected_entry_view()
            &&& b.entry_offset_view() == a.entry_offset_view()
        },
    }
}

impl ConversationTree {
    /// Scrolls the mode's list so the cursor is within a window of `visible_rows` rows.
    fn ensure_visible(&mut self, visible_rows: usize)
        ensures
            same_but_cursor(&*old(self), &*final(self)),
            final(self).selected_entry_view() == old(self).selected_entry_view(),
            final(self).selected_head_view() == old(self).selected_head_view(),
            match (old(self).mode_view(), old(self).selected_index_view()) {
                (_, None) => final(self).entry_offset_view() == old(self).entry_offset_view()
                    && final(self).head_offset_view() == old(self).head_offset_view(),
                (TreeMode::Entries, Some(i)) => final(self).entry_offset_view() == scrolled(
                    old(self).entry_offset_view(),
                    i,
                    old(self).count_view(),
                    visible_rows,
                ) && final(self).head_offset_view() == old(self).head_offset_view(),
                (TreeMode::Heads, Some(i)) => final(self).head_offset_view() == scrolled(
                    old(self).head_offset_view(),
                    i,
                    old(self).count_view(),
                    visible_rows,
                ) && final(self).entry_offset_view() == old(self).entry_offset_view(),
            },
    {
        proof {
            use_type_invariant(&*self);
        }
        let rows = if visible_rows < 1 {
            1
        } else {
            visible_rows
        };
        let index = match self.selected_index() {
            Some(index) => index,
            None => {
                return;
            },
        };
        let count = match self.mode {
            TreeMode::Entries => self.entries_count(),
            TreeMode::Heads => self.heads_count(),
        };
        let offset = match self.mode {
            TreeMode::Entries => self.entry_offset,
            TreeMode::Heads => self.head_offset,
        };
        let moved = if index < offset {
            index
        } else if index >= offset.saturating_add(rows) {
            index.saturating_add(1).saturating_sub(rows)
        } else {
            offset
        };
        let last = count.saturating_sub(rows);
        let settled = if moved < last {
            moved
        } else {
            last
        };
        match self.mode {
            TreeMode::Entries => {
                self.entry_offset = settled;
            },
            TreeMode::Heads => {
                self.head_offset = settled;
            },
        }
    }

    /// Moves the cursor to `index`, where there is an entry or head there, and scrolls to it.
    fn select_index(&mut self, index: usize, visible_rows: usize)
        ensures
            selected_at(&*old(self), &*final(self), index, visible_rows),
    {
        proof {
            use_type_invariant(&*self);
        }
        match self.mode {
            TreeMode::Entries => {
                let visible = self.visible_entries();
                if index < visible.len() {
                    self.selected_entry = Some(self.presentation.identity(visible[index]));
                }
            },
            TreeMode::Heads => {
                let picked = {
                    let heads = self.heads();
                    if index < heads.len() {
                        Some(heads[index].name.duplicate())
                    } else {
                        None
                    }
                };
                match picked {
                    Some(name) => {
                        self.selected_head = Some(name);
                    },
                    None => {},
                }
            },
        }
        self.ensure_visible(visible_rows);
    }

    /// Moves the cursor `steps` entries or heads forward or back, stopping at either end, and
    /// scrolls to it; says whether it moved. With no cursor it moves from the first item.
    pub fn move_cursor(&mut self, forward: bool, steps: usize, visible_rows: usize) -> (moved: bool)
        ensures
            ({
                let count = old(self).count_view();
                let current = match old(self).selected_index_view() {
                    Some(i) => i,
                    None => 0,
                };
                let next = if forward {
                    let ahead = current.saturating_add(steps);
                    if ahead < (count - 1) as usize { ahead } else { (count - 1) as usize }
                } else {
                    current.saturating_sub(steps)
                };
                &&& moved == (count > 0 && next != current)
                &&& moved ==> selected_at(&*old(self), &*final(self), next, visible_rows)
                &&& !moved ==> same_session(&*old(self), &*final(self))
            }),
    {
        let count = match self.mode {
            TreeMode::Entries => self.entries_count(),
            TreeMode::Heads => self.heads_count(),
        };
        if count == 0 {
            return false;
        }
        let current = match self.selected_index() {
            Some(i) => i,
            None => 0,
        };
        let next = if forward {
            let ahead = current.saturating_add(steps);
            if ahead < count - 1 {
                ahead
            } else {
                count - 1
            }
        } else {
            current.saturating_sub(steps)
        };
        if next == current {
            return false;
        }
        self.select_index(next, visible_rows);
        true
    }

    /// Moves the cursor to the first or last entry or head and scrolls to it; says whether it
    /// moved.
    pub fn select_edge(&mut self, end: bool, visible_rows: usize) -> (moved: bool)
        ensures
            ({
                let count = old(self).count_view();
                let index = if end { (count - 1) as usize } else { 0usize };
                &&& moved == (count > 0 && old(self).selected_index_view() != Some(index))
                &&& moved ==> selected_at(&*old(self), &*final(self), index, visible_rows)
                &&& !moved ==> same_session(&*old(self), &*final(self))
            }),
    {
        let count = match self.mode {
            TreeMode::Entries => self.entries_count(),
            TreeMode::Heads => self.heads_count(),
        };
        if count == 0 {
            return false;
        }
        let index = if end {
            count - 1
        } else {
            0
        };
        if self.selected_index() == Some(index) {
            return false;
        }
        self.select_index(index, visible_rows);
        true
    }
}

impl ConversationTree {
    /// Puts the cursor on the shown entry named `id`, while entries are browsed, scrolling to it
    /// when it moved; says whether it moved.
    pub fn hover_entry(&mut self, id: &Identity, visible_rows: usize) -> (changed: bool)
        ensures
            ({
                let ids = old(self).presentation_view().ids_view();
                let visible = old(self).visible_view();
                let allowed = old(self).mode_view() == TreeMode::Entries && shows_identity(ids, visible, id@);
                &&& changed == (allowed && old(self).selected_entry_view() != Some(id@))
                &&& !allowed ==> same_session(&*old(self), &*final(self))
                &&& allowed ==> {
                    &&& same_but_cursor(&*old(self), &*final(self))
                    &&& final(self).selected_entry_view() == Some(id@)
                    &&& final(self).entry_offset_view() == if changed {
                        scrolled(old(self).entry_offset_view(), first_shown(ids, visible, id@)->0, visible.len() as usize, visible_rows)
                    } else {
                        old(self).entry_offset_view()
                    }
                    &&& final(self).selected_head_view() == old(self).selected_head_view()
                    &&& final(self).head_offset_view() == old(self).head_offset_view()
                }
            }),
    {
        proof {
            use_type_invariant(&*self);
        }
        if self.mode != TreeMode::Entries {
            return false;
        }
        let visible = self.visible_entries();
        if !self.shows(&visible, id) {
            return false;
        }
        let changed = match &self.selected_entry {
            Some(current) => !current.same(id),
            None => true,
        };
        self.selected_entry = Some(id.duplicate());
        proof {
            let ids = self.presentation_view().ids_view();
            let i = choose|i: int| 0 <= i < visible@.len() && ids[visible@[i] as int] == id@;
            assert(exists|i: int| 0 <= i < visible@.len() && ids[visible@[i] as int] == id@);
        }
        if changed {
            self.ensure_visible(visible_rows);
        }
        changed
    }

    /// Puts the cursor on the head named `name`, while heads are browsed and it exists, scrolling
    /// to it when it moved; says whether it moved.
    pub fn hover_head(&mut self, name: &Identity, visible_rows: usize) -> (changed: bool)
        ensures
            ({
                let heads = old(self).heads_view();
                let allowed = old(self).mode_view() == TreeMode::Heads && heads.contains(name@);
                &&& changed == (allowed && old(self).selected_head_view() != Some(name@))
                &&& !allowed ==> same_session(&*old(self), &*final(self))
                &&& allowed ==> {
                    &&& same_but_cursor(&*old(self), &*final(self))
                    &&& final(self).selected_head_view() == Some(name@)
                    &&& final(self).head_offset_view() == if changed {
                        scrolled(old(self).head_offset_view(), first_head(heads, name@)->0, heads.len() as usize, visible_rows)
                    } else {
                        old(self).head_offset_view()
                    }
                    &&& final(self).selected_entry_view() == old(self).selected_entry_view()
                    &&& final(self).entry_offset_view() == old(self).entry_offset_view()
                }
            }),
    {
        proof {
            use_type_invariant(&*self);
        }
        if self.mode != TreeMode::Heads {
            return false;
        }
        let count = self.heads().len();
        match first_head_index(self.heads(), name) {
            None => {
                proof {
                    if self.heads_view().contains(name@) {
                        let q = choose|q: int| 0 <= q < self.heads_view().len() && self.heads_view()[q] == name@;
                        assert(exists|i: int| 0 <= i < self.heads_view().len() && self.heads_view()[i] == name@);
                    }
                }
                return false;
            },
            Some(i) => {
                proof {
                    lemma_first_found(Seq::empty(), Seq::empty(), Seq::empty(), self.heads_view(), name@);
                    assert(self.heads_view()[i as int] == name@);
                }
            },
        }
        let changed = match &self.selected_head {
            Some(current) => !current.same(name),
            None => true,
        };
        self.selected_head = Some(name.duplicate());
        if changed {
            self.ensure_visible(visible_rows);
        }
        changed
    }

    /// The visible row the cursor stands on, if any.
    pub fn selected_entry_row(&self) -> (row: Option<usize>)
        ensures
            row == self.selected_row_view(),
            row matches Some(r) ==> r < self.presentation_view().ids_view().len(),
    {
        match &self.selected_entry {
            Some(id) => {
                let visible = self.visible_entries();
                let count = visible.len();
                proof {
                    lemma_first_found(self.presentation_view().ids_view(), visible@, id@, Seq::empty(), Seq::empty());
                }
                match self.first_shown_index(&visible, id) {
                    Some(i) => Some(visible[i]),
                    None => None,
                }
            },
            None => None,
        }
    }

    /// Switches between browsing entries and heads.
    pub fn toggle_mode(&mut self) -> (changed: bool)
        ensures
            changed,
            final(self).mode_view() == match old(self).mode_view() {
                TreeMode::Entries => TreeMode::Heads,
                TreeMode::Heads => TreeMode::Entries,
            },
            final(self).agent_view() == old(self).agent_view(),
            final(self).snapshot_view() == old(self).snapshot_view(),
            final(self).presentation_view() == old(self).presentation_view(),
            final(self).folded_view() == old(self).folded_view(),
            final(self).unavailable_view() == old(self).unavailable_view(),
            final(self).return_focus_view() == old(self).return_focus_view(),
            final(self).open_view() == old(self).open_view(),
            final(self).pending_view() == old(self).pending_view(),
            final(self).notice_view() == old(self).notice_view(),
            final(self).selected_entry_view() == old(self).selected_entry_view(),
            final(self).selected_head_view() == old(self).selected_head_view(),
            final(self).entry_offset_view() == old(self).entry_offset_view(),
            final(self).head_offset_view() == old(self).head_offset_view(),
    {
        proof {
            use_type_invariant(&*self);
        }
        self.mode = match self.mode {
            TreeMode::Entries => TreeMode::Heads,
            TreeMode::Heads => TreeMode::Entries,
        };
        true
    }

    /// Records an admitted write, or its end; a new one clears the notice.
    pub fn set_pending(&mut self, pending: Option<TreePending>)
        ensures
            final(self).pending_view() == pending,
            final(self).notice_view() == if pending is Some {
                None
            } else {
                old(self).notice_view()
            },
            final(self).agent_view() == old(self).agent_view(),
            final(self).snapshot_view() == old(self).snapshot_view(),
            final(self).presentation_view() == old(self).presentation_view(),
            final(self).folded_view() == old(self).folded_view(),
            final(self).unavailable_view() == old(self).unavailable_view(),
            final(self).return_focus_view() == old(self).return_focus_view(),
            final(self).open_view() == old(self).open_view(),
            final(self).mode_view() == old(self).mode_view(),
            final(self).selected_entry_view() == old(self).selected_entry_view(),
            final(self).selected_head_view() == old(self).selected_head_view(),
            final(self).entry_offset_view() == old(self).entry_offset_view(),
            final(self).head_offset_view() == old(self).head_offset_view(),
    {
        proof {
            use_type_invariant(&*self);
        }
        self.pending = pending;
        if pending.is_some() {
            self.notice = None;
        }
    }

    /// Shows a notice, cleaned for one row, and ends any admitted write.
    pub fn set_notice(&mut self, message: String)
        ensures
            final(self).pending_view() is None,
            final(self).notice_view() == Some(sanitized(message@)),
            final(self).agent_view() == old(self).agent_view(),
            final(self).snapshot_view() == old(self).snapshot_view(),
            final(self).presentation_view() == old(self).presentation_view(),
            final(self).folded_view() == old(self).folded_view(),
            final(self).unavailable_view() == old(self).unavailable_view(),
            final(self).return_focus_view() == old(self).return_focus_view(),
            final(self).open_view() == old(self).open_view(),
            final(self).mode_view() == old(self).mode_view(),
            final(self).selected_entry_view() == old(self).selected_entry_view(),
            final(self).selected_head_view() == old(self).selected_head_view(),
            final(self).entry_offset_view() == old(self).entry_offset_view(),
            final(self).head_offset_view() == old(self).head_offset_view(),
    {
        proof {
            use_type_invariant(&*self);
        }
        self.pending = None;
        self.notice = Some(sanitize_message(message.as_str()));
    }

    /// Opens or closes the overlay.
    pub fn set_open(&mut self, open: bool)
        ensures
            final(self).open_view() == open,
            final(self).pending_view() == old(self).pending_view(),
            final(self).notice_view() == old(self).notice_view(),
            final(self).agent_view() == old(self).agent_view(),
            final(self).snapshot_view() == old(self).snapshot_view(),
            final(self).presentation_view() == old(self).presentation_view(),
            final(self).folded_view() == old(self).folded_view(),
            final(self).unavailable_view() == old(self).unavailable_view(),
            final(self).return_focus_view() == old(self).return_focus_view(),
            final(self).mode_view() == old(self).mode_view(),
            final(self).selected_entry_view() == old(self).selected_entry_view(),
            final(self).selected_head_view() == old(self).selected_head_view(),
            final(self).entry_offset_view() == old(self).entry_offset_view(),
            final(self).head_offset_view() == old(self).head_offset_view(),
    {
        proof {
            use_type_invariant(&*self);
        }
        self.open = open;
    }

    /// What is drawn before the row named `id`: nothing for an unknown row.
    pub fn ancestry_prefix(&self, id: &Identity) -> (text: &str)
        ensures
            text@ == match row_named(self.presentation_view().ids_view(), id@) {
                Some(r) => self.presentation_view().prefixes_view()[r as int],
                None => Seq::empty(),
            },
    {
        match self.presentation.row_of(id) {
            Some(r) => {
                proof {
                    lemma_row_named_first(self.presentation_view().ids_view(), id@, r);
                }
                self.presentation.prefix(r)
            },
            None => {
                proof {
                    reveal_strlit("");
                }
                ""
            },
        }
    }

    /// What is drawn under the row named `id` for its children's connectors: nothing for an
    /// unknown row.
    pub fn connector_rails(&self, id: &Identity) -> (text: &str)
        ensures
            text@ == match row_named(self.presentation_view().ids_view(), id@) {
                Some(r) => self.presentation_view().rails_view()[r as int],
                None => Seq::empty(),
            },
    {
        match self.presentation.row_of(id) {
            Some(r) => {
                proof {
                    lemma_row_named_first(self.presentation_view().ids_view(), id@, r);
                }
                self.presentation.rails(r)
            },
            None => {
                proof {
                    reveal_strlit("");
                }
                ""
            },
        }
    }

    /// The branch heads the row named `id` carries: none for an unknown row.
    pub fn head_markers(&self, id: &Identity) -> (heads: Vec<Identity>)
        ensures
            identity_views(heads@) == match row_named(self.presentation_view().ids_view(), id@) {
                Some(r) => self.presentation_view().markers_view()[r as int],
                None => Seq::empty(),
            },
    {
        match self.presentation.row_of(id) {
            Some(r) => {
                proof {
                    lemma_row_named_first(self.presentation_view().ids_view(), id@, r);
                }
                self.presentation.markers(r)
            },
            None => {
                let heads: Vec<Identity> = Vec::new();
                assert(identity_views(heads@) =~= Seq::empty());
                heads
            },
        }
    }
}

/// Whether two origins name the same conversation, agent, head and revision.
pub open spec fn same_origin(a: TreeOrigin, b: TreeOrigin) -> bool {
    &&& a.conversation_id@ == b.conversation_id@
    &&& a.agent_id@ == b.agent_id@
    &&& a.selected_head@ == b.selected_head@
    &&& a.revision == b.revision
}

/// Whether `nav` rewinds to `id`, from `origin`.
pub open spec fn rewinds_to(nav: TreeNavigation, origin: TreeOrigin, id: Seq<char>) -> bool {
    &&& same_origin(nav.origin, origin)
    &&& (nav.target matches TreeNavigationTarget::Rewind(e) && e@ == id)
}

/// Whether `nav` selects the head `name`, from `origin`.
pub open spec fn selects_head(nav: TreeNavigation, origin: TreeOrigin, name: Seq<char>) -> bool {
    &&& same_origin(nav.origin, origin)
    &&& (nav.target matches TreeNavigationTarget::SelectHead(h) && h@ == name)
}

/// Whether two sessions agree on everything but the notice.
pub open spec fn same_but_notice(a: &ConversationTree, b: &ConversationTree) -> bool {
    &&& a.agent_view() == b.agent_view()
    &&& a.snapshot_view() == b.snapshot_view()
    &&& a.presentation_view() == b.presentation_view()
    &&& a.folded_view() == b.folded_view()
    &&& a.unavailable_view() == b.unavailable_view()
    &&& a.return_focus_view() == b.return_focus_view()
    &&& a.open_view() == b.open_view()
    &&& a.pending_view() == b.pending_view()
    &&& a.mode_view() == b.mode_view()
    &&& a.selected_entry_view() == b.selected_entry_view()
    &&& a.selected_head_view() == b.selected_head_view()
    &&& a.entry_offset_view() == b.entry_offset_view()
    &&& a.head_offset_view() == b.head_offset_view()
}

impl ConversationTree {
    /// The navigation the cursor asks for: a rewind to the selected entry, where it can be
    /// rewound to, or a switch to the selected head. Where there is none, a notice says why;
    /// an entry that cannot be rewound to is refused without one.
    pub fn navigation(&mut self) -> (nav: Option<TreeNavigation>)
        ensures
            same_but_notice(&*old(self), &*final(self)),
            if old(self).pending_view() is Some {
                nav is None && final(self).notice_view() == Some("Navigation is already waiting for the journal."@)
            } else if old(self).snapshot_view() is None {
                nav is None && final(self).notice_view() == Some("History is unavailable. Press r to refresh."@)
            } else {
                let s = old(self).snapshot_view()->0;
                match old(self).mode_view() {
                    TreeMode::Entries => match old(self).selected_row_view() {
                        None => nav is None && final(self).notice_view() == Some(
                            "This conversation has no rewind target yet."@,
                        ),
                        Some(r) => if s.rows@[r as int].rewind != TreeRewindEligibility::Eligible {
                            nav is None && final(self).notice_view() == old(self).notice_view()
                        } else {
                            (nav matches Some(n) && rewinds_to(n, s.origin, s.rows@[r as int].entry_id@))
                                && final(self).notice_view() is None
                        },
                    },
                    TreeMode::Heads => match old(self).selected_head_view() {
                        Some(name) => if old(self).heads_view().contains(name) {
                            (nav matches Some(n) && selects_head(n, s.origin, name))
                                && final(self).notice_view() is None
                        } else {
                            nav is None && final(self).notice_view() == Some(
                                "This conversation has no named branches."@,
                            )
                        },
                        None => nav is None && final(self).notice_view() == Some(
                            "This conversation has no named branches."@,
                        ),
                    },
                }
            },
    {
        proof {
            use_type_invariant(&*self);
        }
        if self.pending.is_some() {
            proof {
                reveal_strlit("Navigation is already waiting for the journal.");
            }
            self.notice = Some("Navigation is already waiting for the journal.".to_owned());
            return None;
        }
        if self.snapshot.is_none() {
            proof {
                reveal_strlit("History is unavailable. Press r to refresh.");
            }
            self.notice = Some("History is unavailable. Press r to refresh.".to_owned());
            return None;
        }
        let target = match self.mode {
            TreeMode::Entries => match self.rewind_target() {
                Ok(entry) => TreeNavigationTarget::Rewind(entry),
                Err(missing) => {
                    if missing {
                        proof {
                            reveal_strlit("This conversation has no rewind target yet.");
                        }
                        self.notice = Some("This conversation has no rewind target yet.".to_owned());
                    }
                    return None;
                },
            },
            TreeMode::Heads => match self.head_target() {
                Some(name) => TreeNavigationTarget::SelectHead(name),
                None => {
                    proof {
                        reveal_strlit("This conversation has no named branches.");
                    }
                    self.notice = Some("This conversation has no named branches.".to_owned());
                    return None;
                },
            },
        };
        let origin = match &self.snapshot {
            Some(s) => s.origin.duplicate(),
            None => {
                return None;
            },
        };
        self.notice = None;
        Some(TreeNavigation { origin, target })
    }
}

impl ConversationTree {
    /// The entry the cursor can rewind to; otherwise whether there is no entry at all (rather than
    /// one that cannot be rewound to).
    fn rewind_target(&self) -> (target: Result<Identity, bool>)
        requires
            self.snapshot_view() is Some,
        ensures
            match self.selected_row_view() {
                None => target == Err::<Identity, bool>(true),
                Some(r) => {
                    let row = self.snapshot_view()->0.rows@[r as int];
                    if row.rewind != TreeRewindEligibility::Eligible {
                        target == Err::<Identity, bool>(false)
                    } else {
                        target matches Ok(id) && id@ == row.entry_id@
                    }
                },
            },
    {
        proof {
            use_type_invariant(self);
        }
        let row = match self.selected_entry_row() {
            Some(row) => row,
            None => {
                return Err(true);
            },
        };
        match &self.snapshot {
            Some(s) => {
                if s.rows[row].rewind != TreeRewindEligibility::Eligible {
                    return Err(false);
                }
                Ok(s.rows[row].entry_id.duplicate())
            },
            None => Err(true),
        }
    }

    /// The selected head, while the snapshot has it.
    fn head_target(&self) -> (target: Option<Identity>)
        ensures
            match self.selected_head_view() {
                Some(name) => if self.heads_view().contains(name) {
                    target matches Some(h) && h@ == name
                } else {
                    target is None
                },
                None => target is None,
            },
    {
        match &self.selected_head {
            Some(name) => {
                let hs = self.heads();
                let count = hs.len();
                match first_head_index(hs, name) {
                    Some(_) => {
                        proof {
                            lemma_first_found(Seq::empty(), Seq::empty(), Seq::empty(), self.heads_view(), name@);
                        }
                        Some(name.duplicate())
                    },
                    None => {
                        proof {
                            if self.heads_view().contains(name@) {
                                let q = choose|q: int| 0 <= q < self.heads_view().len() && self.heads_view()[q] == name@;
                                assert(exists|i: int| 0 <= i < self.heads_view().len() && self.heads_view()[i] == name@);
                            }
                        }
                        None
                    },
                }
            },
            None => None,
        }
    }
}

/// A request for an entry's exact source, tied to the snapshot it was made from.
#[derive(Debug, PartialEq, Eq)]
pub struct TreeSourceRequest {
    pub origin: TreeOrigin,
    pub entry_id: Identity,
}

impl ConversationTree {
    /// The entry whose source the cursor asks for: the selected entry, or the first row carrying
    /// the selected head.
    pub fn source_request(&self) -> (request: Option<TreeSourceRequest>)
        ensures
            match self.snapshot_view() {
                None => request is None,
                Some(s) => match self.mode_view() {
                    TreeMode::Entries => match self.selected_entry_view() {
                        Some(id) => request matches Some(r) && same_origin(r.origin, s.origin)
                            && r.entry_id@ == id,
                        None => request is None,
                    },
                    TreeMode::Heads => match self.selected_head_view() {
                        Some(name) => match first_carrying(s.rows@, name) {
                            Some(t) => request matches Some(r) && same_origin(r.origin, s.origin)
                                && r.entry_id@ == s.rows@[t as int].entry_id@,
                            None => request is None,
                        },
                        None => request is None,
                    },
                },
            },
    {
        let s = match &self.snapshot {
            Some(s) => s,
            None => {
                return None;
            },
        };
        let entry_id = match self.mode {
            TreeMode::Entries => match &self.selected_entry {
                Some(id) => id.duplicate(),
                None => {
                    return None;
                },
            },
            TreeMode::Heads => match &self.selected_head {
                Some(name) => match first_carrying_row(&s.rows, name) {
                    Some(t) => {
                        let count = s.rows.len();
                        proof {
                            lemma_first_carrying_found(s.rows@, name@);
                        }
                        s.rows[t].entry_id.duplicate()
                    },
                    None => {
                        return None;
                    },
                },
                None => {
                    return None;
                },
            },
        };
        Some(TreeSourceRequest { origin: s.origin.duplicate(), entry_id })
    }
}

/// What a first carrying row found is.
proof fn lemma_first_carrying_found(rows: Seq<TreeRow>, head: Seq<char>)
    requires
        rows.len() <= usize::MAX,
    ensures
        first_carrying(rows, head) matches Some(t) ==> t < rows.len(),
{
    if exists|r: int| 0 <= r < rows.len() && carries_head(rows, r, head) {
        let w = choose|r: int| 0 <= r < rows.len() && carries_head(rows, r, head);
        lemma_least_carrying(rows, head, w);
    }
}

/// Where some row carries `head`, a first one does.
proof fn lemma_least_carrying(rows: Seq<TreeRow>, head: Seq<char>, w: int)
    requires
        rows.len() <= usize::MAX,
        0 <= w < rows.len(),
        carries_head(rows, w, head),
    ensures
        exists|r: usize| r < rows.len() && carries_head(rows, r as int, head) && forall|q: int|
            0 <= q < r ==> !carries_head(rows, q, head),
    decreases w,
{
    if exists|q: int| 0 <= q < w && carries_head(rows, q, head) {
        let q = choose|q: int| 0 <= q < w && carries_head(rows, q, head);
        lemma_least_carrying(rows, head, q);
    } else {
        let r = w as usize;
        assert(forall|q: int| 0 <= q < r ==> !carries_head(rows, q, head));
    }
}

proof fn lemma_push_contains(s: Seq<Seq<char>>, a: Seq<char>, x: Seq<char>)
    ensures
        s.push(a).contains(x) == (s.contains(x) || a == x),
{
    if s.contains(x) {
        let q = choose|q: int| 0 <= q < s.len() && s[q] == x;
        assert(s.push(a)[q] == x);
    }
    if a == x {
        assert(s.push(a)[s.len() as int] == x);
    }
    if s.push(a).contains(x) && a != x {
        let q = choose|q: int| 0 <= q < s.push(a).len() && s.push(a)[q] == x;
        assert(q < s.len());
        assert(s[q] == x);
    }
}

proof fn lemma_without_contains(folds: Seq<Seq<char>>, id: Seq<char>, x: Seq<char>)
    ensures
        without_fold(folds, id).contains(x) == (folds.contains(x) && x != id),
    decreases folds.len(),
{
    if folds.len() > 0 {
        let d = folds.drop_last();
        let l = folds.last();
        lemma_without_contains(d, id, x);
        let rest = without_fold(d, id);
        assert(folds =~= d.push(l));
        lemma_push_contains(d, l, x);
        if l == id {
            assert(without_fold(folds, id) =~= rest);
        } else {
            assert(without_fold(folds, id) =~= rest.push(l));
            lemma_push_contains(rest, l, x);
        }
    } else {
        assert(!folds.contains(x));
        assert(without_fold(folds, id) == folds);
    }
}

/// Folds with the same members hide the same rows.
proof fn lemma_hidden_by_members(
    p: Presentation,
    a: Seq<Seq<char>>,
    b: Seq<Seq<char>>,
    k: int,
)
    requires
        forall|x: Seq<char>| a.contains(x) == b.contains(x),
    ensures
        hidden_at(p.parents_view(), p.positions_view(), p.order_view(), p.ids_view(), a, k)
            == hidden_at(p.parents_view(), p.positions_view(), p.order_view(), p.ids_view(), b, k),
    decreases k,
{
    if k >= 0 {
        match p.parents_view()[p.order_view()[k] as int] {
            None => {},
            Some(q) => {
                let at = p.positions_view()[q as int] as int;
                if 0 <= at < k {
                    lemma_hidden_by_members(p, a, b, at);
                    assert(a.contains(p.ids_view()[q as int]) == b.contains(p.ids_view()[q as int]));
                }
            },
        }
    }
}

/// Folds with the same members show the same rows.
proof fn lemma_visible_by_members(p: Presentation, a: Seq<Seq<char>>, b: Seq<Seq<char>>, m: int)
    requires
        forall|x: Seq<char>| a.contains(x) == b.contains(x),
    ensures
        visible_upto(p.parents_view(), p.positions_view(), p.order_view(), p.ids_view(), a, m)
            == visible_upto(p.parents_view(), p.positions_view(), p.order_view(), p.ids_view(), b, m),
    decreases m,
{
    if m > 0 {
        lemma_visible_by_members(p, a, b, m - 1);
        lemma_hidden_by_members(p, a, b, m - 1);
    }
}

/// Folding an entry and folding it again (or unfolding and refolding it) shows exactly the rows
/// shown before.
pub proof fn law_folding_twice_shows_the_same_rows(p: Presentation, folds: Seq<Seq<char>>, id: Seq<char>)
    ensures
        visible_rows(p, toggled_fold(toggled_fold(folds, id), id)) == visible_rows(p, folds),
{
    let twice = toggled_fold(toggled_fold(folds, id), id);
    assert forall|x: Seq<char>| twice.contains(x) == folds.contains(x) by {
        if folds.contains(id) {
            let once = without_fold(folds, id);
            lemma_without_contains(folds, id, x);
            lemma_without_contains(folds, id, id);
            assert(!once.contains(id));
            assert(twice == once.push(id));
            if once.push(id).contains(x) && x != id {
                let q = choose|q: int| 0 <= q < once.push(id).len() && once.push(id)[q] == x;
                assert(q < once.len());
                assert(once[q] == x);
            }
            if x == id {
                assert(once.push(id)[once.len() as int] == id);
            }
            if once.contains(x) {
                let q = choose|q: int| 0 <= q < once.len() && once[q] == x;
                assert(once.push(id)[q] == x);
            }
        } else {
            let once = folds.push(id);
            assert(once.contains(id)) by {
                assert(once[folds.len() as int] == id);
            }
            lemma_without_contains(once, id, x);
            if folds.contains(x) {
                let q = choose|q: int| 0 <= q < folds.len() && folds[q] == x;
                assert(once[q] == x);
            }
            if once.contains(x) && x != id {
                let q = choose|q: int| 0 <= q < once.len() && once[q] == x;
                assert(q < folds.len());
                assert(folds[q] == x);
            }
        }
    }
    lemma_visible_by_members(p, twice, folds, p.order_view().len() as int);
}

/// A refresh or fold leaves the cursor on its entry while that entry is still shown.
pub proof fn law_a_shown_cursor_stays(
    p: Presentation,
    visible: Seq<usize>,
    active: Option<(Seq<TreeRow>, Seq<char>)>,
    id: Seq<char>,
)
    requires
        shows_identity(p.ids_view(), visible, id),
    ensures
        reconciled_entry(p, visible, active, Some(id)) == Some(id),
{
}

/// A refresh leaves the head cursor on its head while the snapshot still has it.
pub proof fn law_a_present_head_cursor_stays(
    heads: Seq<Seq<char>>,
    active: Option<Seq<char>>,
    name: Seq<char>,
)
    requires
        heads.contains(name),
    ensures
        reconciled_head(heads, active, Some(name)) == Some(name),
{
}

/// Whether text `a` sorts before text `b`: character by character, a shorter prefix first.
pub open spec fn text_before(a: Seq<char>, b: Seq<char>) -> bool
    decreases a.len(),
{
    if a.len() == 0 {
        b.len() > 0
    } else if b.len() == 0 {
        false
    } else if a[0] == b[0] {
        text_before(a.drop_first(), b.drop_first())
    } else {
        a[0] < b[0]
    }
}

pub(crate) proof fn lemma_text_before_total(a: Seq<char>, b: Seq<char>)
    ensures
        a != b ==> text_before(a, b) || text_before(b, a),
        !(text_before(a, b) && text_before(b, a)),
        !text_before(a, a),
    decreases a.len(),
{
    if a.len() > 0 && b.len() > 0 && a[0] == b[0] {
        lemma_text_before_total(a.drop_first(), b.drop_first());
        if a.drop_first() == b.drop_first() {
            assert(a =~= seq![a[0]] + a.drop_first());
            assert(b =~= seq![b[0]] + b.drop_first());
        }
    }
    if a.len() > 0 {
        lemma_text_before_total(a.drop_first(), a.drop_first());
    }
    if a.len() == 0 && b.len() == 0 {
        assert(a =~= b);
    }
}

pub(crate) proof fn lemma_text_before_transitive(a: Seq<char>, b: Seq<char>, c: Seq<char>)
    requires
        text_before(a, b),
        text_before(b, c),
    ensures
        text_before(a, c),
    decreases a.len(),
{
    if a.len() > 0 && b.len() > 0 && c.len() > 0 && a[0] == b[0] && b[0] == c[0] {
        lemma_text_before_transitive(a.drop_first(), b.drop_first(), c.drop_first());
    }
}

/// Whether `a` sorts before `b`.
pub(crate) fn sorts_before(a: &[char], b: &[char]) -> (before: bool)
    ensures
        before == text_before(a@, b@),
{
    let mut i: usize = 0;
    proof {
        assert(a@.skip(0) =~= a@);
        assert(b@.skip(0) =~= b@);
    }
    while i < a.len() && i < b.len() && a[i] == b[i]
        invariant
            i <= a@.len(),
            i <= b@.len(),
            a@.subrange(0, i as int) == b@.subrange(0, i as int),
            text_before(a@, b@) == text_before(a@.skip(i as int), b@.skip(i as int)),
        decreases a@.len() - i,
    {
        proof {
            assert(a@.skip(i as int).drop_first() =~= a@.skip(i + 1));
            assert(b@.skip(i as int).drop_first() =~= b@.skip(i + 1));
            assert(a@.subrange(0, i + 1) =~= a@.subrange(0, i as int).push(a@[i as int]));
            assert(b@.subrange(0, i + 1) =~= b@.subrange(0, i as int).push(b@[i as int]));
        }
        i += 1;
    }
    if i == a.len() {
        i < b.len()
    } else if i == b.len() {
        false
    } else {
        proof {
            assert(a@.skip(i as int)[0] == a@[i as int]);
            assert(b@.skip(i as int)[0] == b@[i as int]);
        }
        a[i] < b[i]
    }
}

/// The rows drawn under `row`, in drawing order: none for a row not drawn.
pub open spec fn descendant_rows(p: Presentation, row: usize) -> Seq<usize> {
    if row < p.drawn_view().len() && p.drawn_view()[row as int] {
        p.order_view().subrange(p.positions_view()[row as int] + 1, p.ends_view()[row as int] as int)
    } else {
        Seq::empty()
    }
}

/// The heads carried by `row`: none for an unknown row.
pub open spec fn row_heads(p: Presentation, row: usize) -> Seq<Seq<char>> {
    if row < p.drawn_view().len() {
        p.markers_view()[row as int]
    } else {
        Seq::empty()
    }
}

/// The set of the heads carried by the rows `rows`.
pub open spec fn heads_under(p: Presentation, rows: Seq<usize>) -> Set<Seq<char>> {
    Set::new(
        |h: Seq<char>|
            exists|i: int| 0 <= i < rows.len() && #[trigger] row_heads(p, rows[i]).contains(h),
    )
}

/// What a folded row hides: how many rows are drawn under the row named `id`, and the
/// heads they carry.
pub open spec fn folded_rows(p: Presentation, id: Seq<char>) -> Seq<usize> {
    match row_named(p.ids_view(), id) {
        Some(r) => descendant_rows(p, r),
        None => Seq::empty(),
    }
}

/// Whether `list` is strictly sorted.
pub open spec fn strictly_sorted(list: Seq<Seq<char>>) -> bool {
    forall|i: int, j: int| 0 <= i < j < list.len() ==> text_before(list[i], list[j])
}

/// Whether identity `a` sorts before the text `b`.
fn precedes(a: &Identity, b: &[char]) -> (before: bool)
    ensures
        before == text_before(a@, b@),
{
    let ac = chars_of(a.as_str());
    sorts_before(ac.as_slice(), b)
}

/// `list` with `h` inserted in order, unless it is already there.
fn insert_sorted(list: &mut Vec<Identity>, h: &Identity)
    requires
        strictly_sorted(identity_views(old(list)@)),
    ensures
        strictly_sorted(identity_views(final(list)@)),
        identity_views(final(list)@).to_set() == identity_views(old(list)@).to_set().insert(h@),
{
    let hc = chars_of(h.as_str());
    let mut at: usize = 0;
    let ghost views = identity_views(list@);
    while at < list.len() && precedes(&list[at], hc.as_slice())
        invariant
            views == identity_views(list@),
            hc@ == h@,
            at <= list@.len(),
            forall|q: int| 0 <= q < at ==> text_before(#[trigger] views[q], h@),
        decreases list@.len() - at,
    {
        at += 1;
    }
    if at < list.len() {
        let lc = chars_of(list[at].as_str());
        if same_text(lc.as_slice(), hc.as_slice()) {
            proof {
                assert(views[at as int] == h@);
                assert(views.to_set().insert(h@) =~= views.to_set());
            }
            return;
        }
    }
    let ghost before = list@;
    let copy = h.duplicate();
    list.insert(at, copy);
    proof {
        let after = identity_views(list@);
        assert(after =~= views.insert(at as int, h@));
        if at < views.len() {
            lemma_text_before_total(views[at as int], h@);
            assert(text_before(h@, views[at as int]));
        }
        assert forall|i: int, j: int| 0 <= i < j < after.len() implies text_before(after[i], after[j]) by {
            if j < at {
            } else if j == at {
            } else if i < at {
                if at < views.len() {
                    lemma_text_before_transitive(views[i], h@, views[at as int]);
                    if j - 1 > at {
                        lemma_text_before_transitive(views[i], views[at as int], views[j - 1]);
                    }
                }
            } else if i == at {
                if j - 1 > at {
                    lemma_text_before_transitive(h@, views[at as int], views[j - 1]);
                }
            }
        }
        assert(after.to_set() =~= views.to_set().insert(h@)) by {
            assert forall|x: Seq<char>| after.to_set().contains(x) <==> views.to_set().insert(h@).contains(x) by {
                if after.to_set().contains(x) {
                    let k = choose|k: int| 0 <= k < after.len() && after[k] == x;
                    if k < at {
                        assert(views[k] == x);
                    } else if k > at {
                        assert(views[k - 1] == x);
                    }
                }
                if views.to_set().contains(x) {
                    let k = choose|k: int| 0 <= k < views.len() && views[k] == x;
                    if k < at {
                        assert(after[k] == x);
                    } else {
                        assert(after[k + 1] == x);
                    }
                }
                if x == h@ {
                    assert(after[at as int] == x);
                }
            }
        }
    }
}

/// `list` with every head of `more` inserted in order, once each.
fn insert_all(list: &mut Vec<Identity>, more: &Vec<Identity>)
    requires
        strictly_sorted(identity_views(old(list)@)),
    ensures
        strictly_sorted(identity_views(final(list)@)),
        identity_views(final(list)@).to_set() == identity_views(old(list)@).to_set().union(
            identity_views(more@).to_set(),
        ),
{
    let ghost start = identity_views(list@).to_set();
    let mut j: usize = 0;
    while j < more.len()
        invariant
            j <= more@.len(),
            strictly_sorted(identity_views(list@)),
            identity_views(list@).to_set() == start.union(
                identity_views(more@).take(j as int).to_set(),
            ),
        decreases more@.len() - j,
    {
        insert_sorted(list, &more[j]);
        proof {
            let m = identity_views(more@);
            assert(m.take(j + 1) =~= m.take(j as int).push(m[j as int]));
            assert(m.take(j + 1).to_set() =~= m.take(j as int).to_set().insert(m[j as int])) by {
                m.take(j as int).lemma_push_to_set_commute(m[j as int]);
            }
            assert(identity_views(list@).to_set() =~= start.union(m.take(j + 1).to_set()));
        }
        j += 1;
    }
    proof {
        assert(identity_views(more@).take(more@.len() as int) =~= identity_views(more@));
    }
}

impl ConversationTree {
    /// What the folded row named `id` hides: the number of rows drawn under it, and the heads
    /// they carry, in order and once each.
    pub fn folded_contents(&self, id: &Identity) -> (contents: (usize, Vec<Identity>))
        ensures
            contents.0 == folded_rows(self.presentation_view(), id@).len(),
            strictly_sorted(identity_views(contents.1@)),
            identity_views(contents.1@).to_set() == heads_under(
                self.presentation_view(),
                folded_rows(self.presentation_view(), id@),
            ),
    {
        let ghost p = self.presentation_view();
        let under: Vec<usize> = match self.presentation.row_of(id) {
            Some(r) => {
                proof {
                    lemma_row_named_first(p.ids_view(), id@, r);
                }
                self.presentation.descendants(r)
            },
            None => Vec::new(),
        };
        assert(under@ == folded_rows(p, id@));
        let mut heads: Vec<Identity> = Vec::new();
        let mut k: usize = 0;
        proof {
            assert(identity_views(heads@).to_set() =~= heads_under(p, under@.take(0)));
        }
        while k < under.len()
            invariant
                p == self.presentation_view(),
                k <= under@.len(),
                strictly_sorted(identity_views(heads@)),
                identity_views(heads@).to_set() == heads_under(p, under@.take(k as int)),
            decreases under@.len() - k,
        {
            let marks = self.presentation.markers(under[k]);
            insert_all(&mut heads, &marks);
            proof {
                let before = under@.take(k as int);
                let after = under@.take(k + 1);
                assert(identity_views(marks@) == row_heads(p, under@[k as int]));
                assert forall|h: Seq<char>| #[trigger] heads_under(p, after).contains(h) <==> heads_under(
                    p,
                    before,
                ).union(identity_views(marks@).to_set()).contains(h) by {
                    if heads_under(p, after).contains(h) {
                        let i = choose|i: int| 0 <= i < after.len() && #[trigger] row_heads(p, after[i]).contains(h);
                        if i < k {
                            assert(before[i] == after[i]);
                            assert(heads_under(p, before).contains(h));
                        } else {
                            assert(identity_views(marks@).to_set().contains(h));
                        }
                    }
                    if heads_under(p, before).contains(h) {
                        let i = choose|i: int| 0 <= i < before.len() && #[trigger] row_heads(p, before[i]).contains(h);
                        assert(after[i] == before[i]);
                        assert(heads_under(p, after).contains(h));
                    }
                    if identity_views(marks@).to_set().contains(h) {
                        assert(after[k as int] == under@[k as int]);
                        assert(row_heads(p, after[k as int]).contains(h));
                        assert(heads_under(p, after).contains(h));
                    }
                }
                assert(identity_views(heads@).to_set() =~= heads_under(p, after));
            }
            k += 1;
        }
        proof {
            assert(under@.take(under@.len() as int) =~= under@);
        }
        (under.len(), heads)
    }
}

} // verus!

verus! {

/// A prompt the tree opens over itself: it never borrows or changes the conversation's draft.
#[derive(Debug)]
pub enum TreeEditor {
    /// A new name for a branch head, edited in place of its old one.
    RenameHead { head: Identity, input: TextInput },
    /// Whether to retire a branch head.
    ConfirmAbandon(Identity),
}

/// What an edit asks the journal to do to the tree.
#[derive(Debug, PartialEq, Eq)]
pub enum TreeEditAction {
    RenameHead { head: Identity, renamed: String },
    AbandonHead { head: Identity },
}

/// An edit, with the snapshot it was made against.
#[derive(Debug, PartialEq, Eq)]
pub struct TreeEdit {
    pub origin: TreeOrigin,
    pub action: TreeEditAction,
}

/// The most UTF-8 bytes a branch name may take.
pub const MAX_TREE_LABEL_BYTES: usize = 256;

/// The UTF-8 bytes one character takes.
pub open spec fn utf8_len(c: char) -> int {
    if (c as u32) < 0x80 {
        1
    } else if (c as u32) < 0x800 {
        2
    } else if (c as u32) < 0x10000 {
        3
    } else {
        4
    }
}

/// The UTF-8 bytes `s` takes.
pub open spec fn utf8_bytes(s: Seq<char>) -> int
    decreases s.len(),
{
    if s.len() == 0 {
        0
    } else {
        utf8_bytes(s.drop_last()) + utf8_len(s.last())
    }
}

proof fn lemma_utf8_prefix(s: Seq<char>, j: int)
    requires
        0 <= j <= s.len(),
    ensures
        utf8_bytes(s.take(j)) <= utf8_bytes(s),
    decreases s.len() - j,
{
    if j < s.len() {
        lemma_utf8_prefix(s, j + 1);
        assert(s.take(j + 1).drop_last() =~= s.take(j));
    } else {
        assert(s.take(j) =~= s);
    }
}

/// Whether a character is a control code (general category Cc), as `char::is_control` says.
pub open spec fn control_char(c: char) -> bool {
    (c as u32) <= 0x1f || (0x7f <= (c as u32) && (c as u32) <= 0x9f)
}

fn is_control(c: char) -> (control: bool)
    ensures
        control == control_char(c),
{
    let v = c as u32;
    v <= 0x1f || (0x7f <= v && v <= 0x9f)
}

/// `text` with each control code replaced by a space.
pub open spec fn without_controls(text: Seq<char>) -> Seq<char> {
    text.map_values(|c: char| if control_char(c) { ' ' } else { c })
}

/// Whether `intent` is no edit of a one-line prompt: a control character, a new line, a submit.
pub open spec fn refused_in_prompt(intent: TextIntent) -> bool {
    ||| intent matches TextIntent::Insert(c) && control_char(c)
    ||| intent is Newline
    ||| intent is Submit
}

/// Whether `b` is `a` with only its prompt replaced by `editor`.
pub open spec fn same_but_editor(a: &ConversationTree, b: &ConversationTree) -> bool {
    &&& a.agent_view() == b.agent_view()
    &&& a.snapshot_view() == b.snapshot_view()
    &&& a.presentation_view() == b.presentation_view()
    &&& a.folded_view() == b.folded_view()
    &&& a.unavailable_view() == b.unavailable_view()
    &&& a.return_focus_view() == b.return_focus_view()
    &&& a.open_view() == b.open_view()
    &&& a.pending_view() == b.pending_view()
    &&& a.mode_view() == b.mode_view()
    &&& a.selected_entry_view() == b.selected_entry_view()
    &&& a.selected_head_view() == b.selected_head_view()
    &&& a.entry_offset_view() == b.entry_offset_view()
    &&& a.head_offset_view() == b.head_offset_view()
}

impl ConversationTree {
    /// The prompt open over the tree, if any.
    pub closed spec fn editor_view(&self) -> Option<TreeEditor> {
        self.editor
    }

    /// Whether a head prompt can open: browsing heads, nothing pending, no prompt open, and a
    /// head selected.
    pub open spec fn head_prompt_allowed(&self) -> bool {
        &&& self.mode_view() is Heads
        &&& self.pending_view() is None
        &&& self.editor_view() is None
        &&& self.selected_head_view() is Some
    }

    /// The prompt open over the tree, if any.
    pub fn editor(&self) -> (editor: Option<&TreeEditor>)
        ensures
            match editor {
                Some(e) => self.editor_view() == Some(*e),
                None => self.editor_view() is None,
            },
    {
        self.editor.as_ref()
    }

    /// Opens the rename prompt on the selected head, its old name ready to edit.
    pub fn begin_rename_head(&mut self) -> (began: bool)
        ensures
            began == old(self).head_prompt_allowed(),
            began ==> same_but_editor(&*old(self), &*final(self)) && final(self).notice_view() is None
                && (final(self).editor_view() matches Some(TreeEditor::RenameHead { head, input }) && Some(head@)
                == old(self).selected_head_view() && input.text_of() == head@ && input.anchor_of() is None),
            !began ==> *final(self) == *old(self),
    {
        proof {
            use_type_invariant(&*self);
        }
        if self.mode != TreeMode::Heads || self.pending.is_some() || self.editor.is_some() {
            return false;
        }
        let head = match &self.selected_head {
            Some(head) => head.duplicate(),
            None => return false,
        };
        let mut input = TextInput::new();
        let name = head.as_str();
        input.paste(name);
        self.editor = Some(TreeEditor::RenameHead { head, input });
        self.notice = None;
        true
    }

    /// Opens the prompt that asks whether to retire the selected head.
    pub fn begin_abandon_head(&mut self) -> (began: bool)
        ensures
            began == old(self).head_prompt_allowed(),
            began ==> same_but_editor(&*old(self), &*final(self)) && final(self).notice_view() is None
                && (final(self).editor_view() matches Some(TreeEditor::ConfirmAbandon(head)) && Some(head@)
                == old(self).selected_head_view()),
            !began ==> *final(self) == *old(self),
    {
        proof {
            use_type_invariant(&*self);
        }
        if self.mode != TreeMode::Heads || self.pending.is_some() || self.editor.is_some() {
            return false;
        }
        let head = match &self.selected_head {
            Some(head) => head.duplicate(),
            None => return false,
        };
        self.editor = Some(TreeEditor::ConfirmAbandon(head));
        self.notice = None;
        true
    }

    /// Closes the prompt; reports whether one was open. Closing one clears the notice.
    pub fn clear_editor(&mut self) -> (changed: bool)
        ensures
            changed == (old(self).editor_view() is Some),
            final(self).editor_view() is None,
            same_but_editor(&*old(self), &*final(self)),
            final(self).notice_view() == if changed { None } else { old(self).notice_view() },
    {
        proof {
            use_type_invariant(&*self);
        }
        let changed = self.editor.is_some();
        self.editor = None;
        if changed {
            self.notice = None;
        }
        changed
    }

    /// Applies one edit to the prompt's text. A prompt holds one line: control characters, new
    /// lines and submits are not edits of it, and pasted control codes become spaces. Enter and
    /// Escape are decided by the tree's owner.
    pub fn edit_input(&mut self, intent: TextIntent) -> (changed: bool)
        ensures
            match old(self).editor_view() {
                Some(TreeEditor::RenameHead { head, input }) => if refused_in_prompt(intent) {
                    !changed && *final(self) == *old(self)
                } else {
                    &&& same_but_editor(&*old(self), &*final(self))
                    &&& final(self).notice_view() == old(self).notice_view()
                    &&& final(self).editor_view() matches Some(TreeEditor::RenameHead { head: h, input: after })
                    &&& h == head
                    &&& match intent {
                        TextIntent::Paste(p) => changed == (p@.len() > 0) && (changed ==> after.text_of() == splice(
                            input.text_of(),
                            input.caret_of(),
                            without_controls(p@),
                        )),
                        _ => edit_facts(input, after, intent, changed),
                    }
                },
                _ => !changed && *final(self) == *old(self),
            },
    {
        proof {
            use_type_invariant(&*self);
        }
        let refused = match &intent {
            TextIntent::Insert(c) => is_control(*c),
            TextIntent::Newline => true,
            TextIntent::Submit => true,
            _ => false,
        };
        let open = match &self.editor {
            Some(TreeEditor::RenameHead { .. }) => true,
            _ => false,
        };
        if !open || refused {
            return false;
        }
        let mut taken: Option<TreeEditor> = None;
        std::mem::swap(&mut taken, &mut self.editor);
        match taken {
            Some(TreeEditor::RenameHead { head, mut input }) => {
                let changed = match intent {
                    TextIntent::Paste(text) => {
                        let chars = chars_of(text.as_str());
                        let mut clean: Vec<char> = Vec::new();
                        let mut i: usize = 0;
                        while i < chars.len()
                            invariant
                                i <= chars@.len(),
                                clean@ == without_controls(chars@).take(i as int),
                            decreases chars@.len() - i,
                        {
                            let c = chars[i];
                            if is_control(c) {
                                clean.push(' ');
                            } else {
                                clean.push(c);
                            }
                            i += 1;
                            assert(clean@ =~= without_controls(chars@).take(i as int));
                        }
                        assert(without_controls(chars@).take(i as int) =~= without_controls(chars@));
                        let cleaned = string_of(clean.as_slice());
                        input.paste(cleaned.as_str())
                    },
                    other => crate::input::apply_text(&mut input, other),
                };
                self.editor = Some(TreeEditor::RenameHead { head, input });
                changed
            },
            other => {
                self.editor = other;
                false
            },
        }
    }

    /// The edit the open prompt asks for: nothing without a prompt or when the name did not
    /// change, and a reason in words when it cannot be asked for.
    pub fn edit_request(&self) -> (request: Result<Option<TreeEdit>, String>)
        ensures
            match self.snapshot_view() {
                None => request matches Err(m) && m@ == "History is unavailable. Press r to refresh."@,
                Some(s) => match self.editor_view() {
                    None => request matches Ok(None),
                    Some(TreeEditor::RenameHead { head, input }) => if utf8_bytes(input.text_of())
                        > MAX_TREE_LABEL_BYTES {
                        request matches Err(m) && m@ == "A branch name must fit in 256 UTF-8 bytes."@
                    } else if trim(input.text_of()).len() == 0 {
                        request matches Err(m) && m@ == "A branch name must contain text."@
                    } else if input.text_of() == head@ {
                        request matches Ok(None)
                    } else {
                        request matches Ok(Some(e)) && same_origin(e.origin, s.origin) && (e.action matches TreeEditAction::RenameHead {
                            head: h,
                            renamed,
                        } && h@ == head@ && renamed@ == input.text_of())
                    },
                    Some(TreeEditor::ConfirmAbandon(head)) => request matches Ok(Some(e)) && same_origin(
                        e.origin,
                        s.origin,
                    ) && (e.action matches TreeEditAction::AbandonHead { head: h } && h@ == head@),
                },
            },
    {
        let snapshot = match &self.snapshot {
            Some(s) => s,
            None => return Err(string_of(chars_of("History is unavailable. Press r to refresh.").as_slice())),
        };
        match &self.editor {
            None => Ok(None),
            Some(TreeEditor::RenameHead { head, input }) => {
                let text = input.chars();
                if too_many_bytes(text) {
                    return Err(string_of(chars_of("A branch name must fit in 256 UTF-8 bytes.").as_slice()));
                }
                if trimmed(text).len() == 0 {
                    return Err(string_of(chars_of("A branch name must contain text.").as_slice()));
                }
                let old_name = chars_of(head.as_str());
                if same_text(text, old_name.as_slice()) {
                    return Ok(None);
                }
                Ok(Some(TreeEdit {
                    origin: snapshot.origin.duplicate(),
                    action: TreeEditAction::RenameHead { head: head.duplicate(), renamed: string_of(text) },
                }))
            },
            Some(TreeEditor::ConfirmAbandon(head)) => Ok(Some(TreeEdit {
                origin: snapshot.origin.duplicate(),
                action: TreeEditAction::AbandonHead { head: head.duplicate() },
            })),
        }
    }
}

/// Whether `text` takes more UTF-8 bytes than a branch name may.
fn too_many_bytes(text: &[char]) -> (over: bool)
    ensures
        over == (utf8_bytes(text@) > MAX_TREE_LABEL_BYTES),
{
    let mut bytes: usize = 0;
    let mut i: usize = 0;
    while i < text.len()
        invariant
            i <= text@.len(),
            bytes == utf8_bytes(text@.take(i as int)),
            bytes <= MAX_TREE_LABEL_BYTES,
        decreases text@.len() - i,
    {
        let v = text[i] as u32;
        let width: usize = if v < 0x80 {
            1
        } else if v < 0x800 {
            2
        } else if v < 0x10000 {
            3
        } else {
            4
        };
        assert(text@.take(i + 1).drop_last() =~= text@.take(i as int));
        bytes = bytes + width;
        i = i + 1;
        if bytes > MAX_TREE_LABEL_BYTES {
            proof {
                lemma_utf8_prefix(text@, i as int);
            }
            return true;
        }
    }
    assert(text@.take(i as int) =~= text@);
    false
}

} // verus!


//! The ordered queue of things a background agent needs from the user.
//!
//! Queueing is the whole mechanism: an agent that needs something joins this and nothing else
//! happens. Repeated requests under one identity replace their entry in place rather than adding a
//! second, so an agent that asks twice produces one queue item.
use vstd::prelude::*;

use crate::choice::step_index;
use crate::ids::{AgentId, AttentionId, Identity};
use crate::intent::Direction;
use crate::ordered::{has_key, key_pos, lookup, upsert_spec, OrderedById};
use crate::view::AttentionKind;

verus! {

/// Where a remembered permission may hold.
#[derive(Clone, Copy, Debug, PartialEq, Eq, Structural)]
pub enum PermissionScope {
    Session,
    Project,
}

/// The scopes a producer offers to remember a permission in.
#[derive(Clone, Copy, Debug, PartialEq, Eq, Structural)]
pub enum PermissionScopes {
    Session,
    SessionAndProject,
}

/// Whether `scopes` offers `scope`.
pub open spec fn offers_scope(scopes: PermissionScopes, scope: PermissionScope) -> bool {
    scopes is SessionAndProject || scope is Session
}

impl PermissionScopes {
    /// Whether the scopes offer `scope`.
    pub fn contains(self, scope: PermissionScope) -> (offered: bool)
        ensures
            offered == offers_scope(self, scope),
    {
        match self {
            PermissionScopes::SessionAndProject => true,
            PermissionScopes::Session => match scope {
                PermissionScope::Session => true,
                PermissionScope::Project => false,
            },
        }
    }
}

/// The producer's offer to remember an approval as a permission.
#[derive(Clone, Debug, PartialEq, Eq)]
pub struct RememberOffer {
    pub id: Identity,
    pub scopes: PermissionScopes,
}

/// An offer, as values.
#[verifier::ext_equal]
pub struct OfferModel {
    pub id: Seq<char>,
    pub scopes: PermissionScopes,
}

impl View for RememberOffer {
    type V = OfferModel;

    open spec fn view(&self) -> OfferModel {
        OfferModel { id: self.id@, scopes: self.scopes }
    }
}

impl RememberOffer {
    /// The same offer, as a separate value.
    pub fn duplicate(&self) -> (copy: Self)
        ensures
            copy@ == self@,
    {
        RememberOffer { id: self.id.duplicate(), scopes: self.scopes }
    }

    /// Whether two offers are the same.
    pub fn same(&self, other: &Self) -> (same: bool)
        ensures
            same == (self@ == other@),
    {
        self.id.same(&other.id) && self.scopes == other.scopes
    }
}

/// A tool call waiting for the user's approval.
#[derive(Clone, Debug, PartialEq, Eq)]
pub struct ApprovalRequest {
    pub approval_id: Identity,
    pub call_id: Identity,
    pub tool: String,
    pub detail: String,
    pub remember: Option<RememberOffer>,
}

/// What a background agent asks of the user.
#[derive(Clone, Debug, PartialEq, Eq)]
pub enum AttentionRequest {
    Approval(ApprovalRequest),
    Question { summary: String },
}

/// A request, as values.
#[verifier::ext_equal]
pub enum RequestModel {
    Approval {
        approval_id: Seq<char>,
        call_id: Seq<char>,
        tool: Seq<char>,
        detail: Seq<char>,
        remember: Option<OfferModel>,
    },
    Question { summary: Seq<char> },
}

impl View for AttentionRequest {
    type V = RequestModel;

    open spec fn view(&self) -> RequestModel {
        match self {
            AttentionRequest::Approval(a) => RequestModel::Approval {
                approval_id: a.approval_id@,
                call_id: a.call_id@,
                tool: a.tool@,
                detail: a.detail@,
                remember: match a.remember {
                    Some(o) => Some(o@),
                    None => None,
                },
            },
            AttentionRequest::Question { summary } => RequestModel::Question { summary: summary@ },
        }
    }
}

/// The queue text of a request.
pub open spec fn request_summary(request: RequestModel) -> Seq<char> {
    match request {
        RequestModel::Approval { detail, .. } => detail,
        RequestModel::Question { summary } => summary,
    }
}

/// The category of a request.
pub open spec fn request_kind(request: RequestModel) -> AttentionKind {
    match request {
        RequestModel::Approval { .. } => AttentionKind::Approval,
        RequestModel::Question { .. } => AttentionKind::Question,
    }
}

fn same_offer(a: &Option<RememberOffer>, b: &Option<RememberOffer>) -> (same: bool)
    ensures
        same == (match (a, b) {
            (Some(x), Some(y)) => x@ == y@,
            (None, None) => true,
            _ => false,
        }),
{
    match (a, b) {
        (Some(x), Some(y)) => x.same(y),
        (None, None) => true,
        _ => false,
    }
}

impl AttentionRequest {
    /// The category of the request.
    pub fn kind(&self) -> (kind: AttentionKind)
        ensures
            kind == request_kind(self@),
    {
        match self {
            AttentionRequest::Approval(_) => AttentionKind::Approval,
            AttentionRequest::Question { .. } => AttentionKind::Question,
        }
    }

    /// The queue text of the request.
    pub fn summary(&self) -> (summary: &str)
        ensures
            summary@ == request_summary(self@),
    {
        match self {
            AttentionRequest::Approval(a) => a.detail.as_str(),
            AttentionRequest::Question { summary } => summary.as_str(),
        }
    }

    /// Whether two requests read the same.
    pub fn same(&self, other: &Self) -> (same: bool)
        ensures
            same == (self@ == other@),
    {
        match self {
            AttentionRequest::Approval(a) => match other {
                AttentionRequest::Approval(b) => {
                    let same = a.approval_id.same(&b.approval_id) && a.call_id.same(&b.call_id)
                        && a.tool == b.tool && a.detail == b.detail
                        && same_offer(&a.remember, &b.remember);
                    proof {
                        if same {
                            assert(self@ =~= other@);
                        }
                    }
                    same
                },
                AttentionRequest::Question { .. } => false,
            },
            AttentionRequest::Question { summary: a } => match other {
                AttentionRequest::Question { summary: b } => {
                    let same = *a == *b;
                    proof {
                        if same {
                            assert(self@ =~= other@);
                        }
                    }
                    same
                },
                AttentionRequest::Approval(_) => false,
            },
        }
    }
}

/// One queued background request.
#[derive(Clone, Debug, PartialEq, Eq)]
pub struct AttentionView {
    pub id: AttentionId,
    pub agent_id: AgentId,
    pub request: AttentionRequest,
    /// Whether the user has been to this request; an acknowledged request is still outstanding.
    pub acknowledged: bool,
}

/// A queued request, as values.
#[verifier::ext_equal]
pub struct AttentionEntry {
    pub id: Seq<char>,
    pub agent_id: Seq<char>,
    pub request: RequestModel,
    pub acknowledged: bool,
}

impl View for AttentionView {
    type V = AttentionEntry;

    open spec fn view(&self) -> AttentionEntry {
        AttentionEntry {
            id: self.id@,
            agent_id: self.agent_id@,
            request: self.request@,
            acknowledged: self.acknowledged,
        }
    }
}

impl AttentionView {
    /// The category of the request.
    pub fn kind(&self) -> (kind: AttentionKind)
        ensures
            kind == request_kind(self@.request),
    {
        self.request.kind()
    }

    /// The queue text of the request.
    pub fn summary(&self) -> (summary: &str)
        ensures
            summary@ == request_summary(self@.request),
    {
        self.request.summary()
    }

    /// Whether two queued requests read the same.
    pub fn same(&self, other: &Self) -> (same: bool)
        ensures
            same == (self@ == other@),
    {
        self.id.same(&other.id) && self.agent_id.same(&other.agent_id) && self.request.same(
            &other.request,
        ) && self.acknowledged == other.acknowledged
    }
}

/// Whose request the user visited, and what kind it is.
#[derive(Clone, Debug, PartialEq, Eq)]
pub struct AttentionTarget {
    pub id: AttentionId,
    pub agent_id: AgentId,
    pub kind: AttentionKind,
}

/// How many of `items` the user has not been to.
pub open spec fn unseen(items: Seq<(Seq<char>, AttentionEntry)>) -> nat
    decreases items.len(),
{
    if items.len() == 0 {
        0
    } else {
        unseen(items.drop_last()) + if items.last().1.acknowledged {
            0nat
        } else {
            1nat
        }
    }
}

/// A cursor brought back among `count` requests.
pub open spec fn clamped_cursor(cursor: int, count: int) -> int {
    if count == 0 {
        0
    } else if cursor < count - 1 {
        cursor
    } else {
        count - 1
    }
}

/// Where the first of `ids` equal to `id` is.
pub open spec fn first_index_of(ids: Seq<Seq<char>>, id: Seq<char>) -> Option<int> {
    if exists|i: int| 0 <= i < ids.len() && ids[i] == id {
        Some(choose|i: int| 0 <= i < ids.len() && ids[i] == id && forall|j: int| 0 <= j < i ==> ids[j] != id)
    } else {
        None
    }
}

/// Requests waiting for the user, in the order they arrived, and which one the user is on.
#[derive(Debug)]
pub struct AttentionQueue {
    items: OrderedById<AttentionView>,
    cursor: usize,
}

impl Default for AttentionQueue {
    /// An empty queue with the cursor at its start.
    fn default() -> (queue: Self)
        ensures
            queue.entries() == Seq::<(Seq<char>, AttentionEntry)>::empty(),
            queue.raw_cursor() == 0,
    {
        AttentionQueue::new()
    }
}

impl AttentionQueue {
    #[verifier::type_invariant]
    spec fn well_formed(self) -> bool {
        self.items.wf()
    }

    /// The queued requests, keyed by identity, in arrival order.
    pub closed spec fn entries(self) -> Seq<(Seq<char>, AttentionEntry)> {
        self.items@
    }

    /// The queued requests themselves, in arrival order.
    pub closed spec fn requests(self) -> Seq<AttentionView> {
        self.items.items()
    }

    /// The cursor as stored, before it is clamped to the queue.
    pub closed spec fn raw_cursor(self) -> int {
        self.cursor as int
    }

    /// The request the user is on, clamped to what is queued.
    pub open spec fn at(self) -> int {
        clamped_cursor(self.raw_cursor(), self.entries().len() as int)
    }

    /// An empty queue with the cursor at its start.
    pub fn new() -> (queue: Self)
        ensures
            queue.entries() == Seq::<(Seq<char>, AttentionEntry)>::empty(),
            queue.raw_cursor() == 0,
    {
        AttentionQueue { items: OrderedById::new(), cursor: 0 }
    }

    /// Records a request, coalescing onto an existing one with the same identity, which keeps its
    /// place. Reports whether the queue now reads differently.
    pub fn request(&mut self, item: AttentionView) -> (changed: bool)
        ensures
            final(self).entries() == upsert_spec(old(self).entries(), item@.id, item@),
            final(self).raw_cursor() == old(self).raw_cursor(),
            changed == (!has_key(old(self).entries(), item@.id) || lookup(old(self).entries(), item@.id)
                != item@),
    {
        proof {
            use_type_invariant(&*self);
        }
        let changed = match self.items.get(&item.id) {
            Some(existing) => !existing.same(&item),
            None => true,
        };
        let key = item.id.duplicate();
        let mut items = OrderedById::new();
        std::mem::swap(&mut items, &mut self.items);
        items.upsert(key, item);
        self.items = items;
        changed
    }

    /// The queued requests, in arrival order.
    pub fn iter(&self) -> (requests: &[AttentionView])
        ensures
            requests@ == self.requests(),
            requests@.len() == self.entries().len(),
            forall|i: int| 0 <= i < requests@.len() ==> #[trigger] requests@[i]@ == self.entries()[i].1,
    {
        proof {
            use_type_invariant(self);
            self.items.lemma_items();
        }
        self.items.iter()
    }

    /// The request with identity `id`.
    pub fn get(&self, id: &AttentionId) -> (found: Option<&AttentionView>)
        ensures
            found is Some == has_key(self.entries(), id@),
            found matches Some(v) ==> v@ == lookup(self.entries(), id@),
    {
        proof {
            use_type_invariant(self);
        }
        self.items.get(id)
    }

    /// Replaces the remember offer of the approval `id`, if it is one.
    pub fn update_offer(&mut self, id: &AttentionId, offer: Option<RememberOffer>)
        ensures
            final(self).raw_cursor() == old(self).raw_cursor(),
            final(self).entries().len() == old(self).entries().len(),
            forall|i: int| 0 <= i < old(self).entries().len() ==> (#[trigger] final(self).entries()[i]).0
                == old(self).entries()[i].0,
            forall|i: int| 0 <= i < old(self).entries().len() && old(self).entries()[i].0 != id@
                ==> #[trigger] final(self).entries()[i] == old(self).entries()[i],
            has_key(old(self).entries(), id@) ==> {
                let i = key_pos(old(self).entries(), id@);
                let before = old(self).entries()[i].1;
                final(self).entries()[i].1 == match before.request {
                    RequestModel::Approval { approval_id, call_id, tool, detail, .. } => AttentionEntry {
                        request: RequestModel::Approval {
                            approval_id,
                            call_id,
                            tool,
                            detail,
                            remember: match offer {
                                Some(o) => Some(o@),
                                None => None,
                            },
                        },
                        ..before
                    },
                    RequestModel::Question { .. } => before,
                }
            },
    {
        proof {
            use_type_invariant(&*self);
        }
        let mut items = OrderedById::new();
        std::mem::swap(&mut items, &mut self.items);
        if let Some(item) = items.get_mut(id) {
            if let AttentionRequest::Approval(approval) = &mut item.request {
                approval.remember = offer;
            }
        }
        self.items = items;
    }

    /// Number of requests awaiting the user.
    pub fn len(&self) -> (count: usize)
        ensures
            count == self.entries().len(),
    {
        proof {
            use_type_invariant(self);
        }
        self.items.len()
    }

    /// Number the user has not been to yet, which is what reads as action required.
    pub fn pending(&self) -> (count: usize)
        ensures
            count == unseen(self.entries()),
    {
        proof {
            use_type_invariant(self);
            self.items.lemma_items();
        }
        let items = self.items.iter();
        let mut count: usize = 0;
        let mut i: usize = 0;
        proof {
            assert(self.entries().take(0) =~= Seq::<(Seq<char>, AttentionEntry)>::empty());
        }
        while i < items.len()
            invariant
                items@ == self.requests(),
                items@.len() == self.entries().len(),
                forall|k: int| 0 <= k < self.entries().len() ==> #[trigger] items@[k]@ == self.entries()[k].1,
                i <= items@.len(),
                count == unseen(self.entries().take(i as int)),
                count <= i,
            decreases items@.len() - i,
        {
            proof {
                assert(self.entries().take(i + 1).drop_last() =~= self.entries().take(i as int));
                assert(items@[i as int]@ == self.entries()[i as int].1);
            }
            if !items[i].acknowledged {
                count = count + 1;
            }
            i = i + 1;
        }
        proof {
            assert(self.entries().take(items@.len() as int) =~= self.entries());
        }
        count
    }

    /// Where the queue's cursor is, clamped to what is queued.
    pub fn cursor(&self) -> (at: usize)
        ensures
            at == self.at(),
    {
        let count = self.len();
        if count == 0 {
            0
        } else if self.cursor < count - 1 {
            self.cursor
        } else {
            count - 1
        }
    }

    /// Puts the cursor on the request `id`; reports whether it moved. An unknown identity moves
    /// nothing.
    pub fn select(&mut self, id: &AttentionId) -> (moved: bool)
        ensures
            final(self).entries() == old(self).entries(),
            has_key(old(self).entries(), id@) ==> final(self).raw_cursor() == key_pos(old(self).entries(), id@)
                && moved == (old(self).raw_cursor() != key_pos(old(self).entries(), id@)),
            !has_key(old(self).entries(), id@) ==> !moved && final(self).raw_cursor() == old(self).raw_cursor(),
    {
        proof {
            use_type_invariant(&*self);
        }
        match self.items.index_of(id) {
            Some(index) => {
                let moved = self.cursor != index;
                self.cursor = index;
                moved
            },
            None => false,
        }
    }

    /// Moves the cursor one request along `visible`, the identities the user sees in order,
    /// stopping at both ends. Reports whether it moved.
    pub fn move_cursor(&mut self, visible: &[AttentionId], direction: Direction) -> (moved: bool)
        ensures
            final(self).entries() == old(self).entries(),
            ({
                let ids = visible@.map_values(|v: AttentionId| v@);
                let from = if old(self).entries().len() > 0 {
                    match first_index_of(ids, old(self).entries()[old(self).at()].0) {
                        Some(i) => i,
                        None => 0,
                    }
                } else {
                    0
                };
                let next = step_index(from, visible@.len() as int, direction is Forward);
                if 0 <= next < visible@.len() && has_key(old(self).entries(), visible@[next]@) {
                    final(self).raw_cursor() == key_pos(old(self).entries(), visible@[next]@) && moved
                        == (old(self).raw_cursor() != key_pos(old(self).entries(), visible@[next]@))
                } else {
                    !moved && final(self).raw_cursor() == old(self).raw_cursor()
                }
            }),
    {
        proof {
            use_type_invariant(&*self);
        }
        let ghost ids = visible@.map_values(|v: AttentionId| v@);
        let at = self.cursor();
        let mut from: usize = 0;
        match self.items.key_at(at) {
            Some(current) => {
                let mut i: usize = 0;
                while i < visible.len() && !visible[i].same(current)
                    invariant
                        i <= visible@.len(),
                        ids == visible@.map_values(|v: AttentionId| v@),
                        forall|j: int| 0 <= j < i ==> ids[j] != current@,
                    decreases visible@.len() - i,
                {
                    i = i + 1;
                }
                if i < visible.len() {
                    from = i;
                }
                proof {
                    if i < visible@.len() {
                        assert(ids[i as int] == current@);
                        let c = choose|k: int| 0 <= k < ids.len() && ids[k] == current@ && forall|j: int| 0 <= j < k ==> ids[j] != current@;
                        assert(0 <= c < ids.len() && ids[c] == current@ && forall|j: int| 0 <= j < c ==> ids[j] != current@);
                        assert(first_index_of(ids, current@) == Some(i as int));
                    } else {
                        assert(first_index_of(ids, current@) is None);
                    }
                }
            },
            None => {},
        }
        let last = if visible.len() > 0 {
            visible.len() - 1
        } else {
            0
        };
        let next = match direction {
            Direction::Forward => if from < last {
                from + 1
            } else {
                last
            },
            Direction::Backward => if from > 0 {
                from - 1
            } else {
                0
            },
        };
        if next < visible.len() {
            self.select(&visible[next])
        } else {
            false
        }
    }

    /// Marks the request under the cursor as seen and reports whose it was; nothing on an empty
    /// queue.
    pub fn acknowledge(&mut self) -> (target: Option<AttentionTarget>)
        ensures
            final(self).raw_cursor() == old(self).raw_cursor(),
            old(self).entries().len() == 0 ==> target is None && final(self).entries() == old(self).entries(),
            old(self).entries().len() > 0 ==> {
                let i = old(self).at();
                let before = old(self).entries()[i];
                &&& final(self).entries() == old(self).entries().update(
                    i,
                    (before.0, AttentionEntry { acknowledged: true, ..before.1 }),
                )
                &&& target matches Some(t) && t.id@ == before.1.id && t.agent_id@ == before.1.agent_id
                    && t.kind == request_kind(before.1.request)
            },
    {
        proof {
            use_type_invariant(&*self);
        }
        let at = self.cursor();
        if at >= self.items.len() {
            return None;
        }
        let mut items = OrderedById::new();
        std::mem::swap(&mut items, &mut self.items);
        let item = items.get_mut_at(at);
        item.acknowledged = true;
        let target = AttentionTarget {
            id: item.id.duplicate(),
            agent_id: item.agent_id.duplicate(),
            kind: item.kind(),
        };
        self.items = items;
        Some(target)
    }

    /// Removes the resolved request `id` and keeps the cursor on the same neighbor. Reports
    /// whether there was such a request.
    pub fn resolve(&mut self, id: &AttentionId) -> (removed: bool)
        ensures
            removed == has_key(old(self).entries(), id@),
            !removed ==> final(self).entries() == old(self).entries() && final(self).raw_cursor()
                == old(self).raw_cursor(),
            removed ==> {
                let i = key_pos(old(self).entries(), id@);
                let shifted = if i < old(self).raw_cursor() {
                    old(self).raw_cursor() - 1
                } else {
                    old(self).raw_cursor()
                };
                &&& final(self).entries() == old(self).entries().remove(i)
                &&& final(self).raw_cursor() == clamped_cursor(shifted, final(self).entries().len() as int)
            },
    {
        proof {
            use_type_invariant(&*self);
        }
        let mut items = OrderedById::new();
        std::mem::swap(&mut items, &mut self.items);
        let removed = items.remove(id);
        self.items = items;
        match removed {
            Some(index) => {
                let mut cursor = self.cursor;
                if index < cursor {
                    cursor = cursor - 1;
                }
                let count = self.items.len();
                self.cursor = if count == 0 {
                    0
                } else if cursor < count - 1 {
                    cursor
                } else {
                    count - 1
                };
                true
            },
            None => false,
        }
    }
}

proof fn lemma_unseen_update(items: Seq<(Seq<char>, AttentionEntry)>, p: int, e: (Seq<char>, AttentionEntry))
    requires
        0 <= p < items.len(),
    ensures
        unseen(items.update(p, e)) + (if items[p].1.acknowledged { 0int } else { 1int }) == unseen(items)
            + (if e.1.acknowledged { 0int } else { 1int }),
    decreases items.len(),
{
    if p == items.len() - 1 {
        assert(items.update(p, e).drop_last() =~= items.drop_last());
    } else {
        lemma_unseen_update(items.drop_last(), p, e);
        assert(items.update(p, e).drop_last() =~= items.drop_last().update(p, e));
    }
}

/// An agent asking twice produces one queue item: a request under an identity already queued
/// replaces that entry where it stands, and every other entry stays as it was.
pub proof fn law_asking_twice_keeps_one_item(entries: Seq<(Seq<char>, AttentionEntry)>, item: AttentionEntry)
    requires
        crate::ordered::keys_unique(entries),
        has_key(entries, item.id),
    ensures
        upsert_spec(entries, item.id, item).len() == entries.len(),
        upsert_spec(entries, item.id, item)[key_pos(entries, item.id)] == (item.id, item),
        forall|i: int| 0 <= i < entries.len() && i != key_pos(entries, item.id) ==> #[trigger] upsert_spec(
            entries,
            item.id,
            item,
        )[i] == entries[i],
{
}

/// Being told is not being answered: a request the user had acknowledged, asked again unseen,
/// counts as awaiting the user once more.
pub proof fn law_asking_again_is_unseen_again(entries: Seq<(Seq<char>, AttentionEntry)>, item: AttentionEntry)
    requires
        has_key(entries, item.id),
        lookup(entries, item.id).acknowledged,
        !item.acknowledged,
    ensures
        unseen(upsert_spec(entries, item.id, item)) == unseen(entries) + 1,
{
    let p = key_pos(entries, item.id);
    lemma_unseen_update(entries, p, (item.id, item));
}

/// The cursor stands on a queued request whenever there is one.
pub proof fn law_the_cursor_stays_on_the_queue(queue: AttentionQueue)
    requires
        queue.raw_cursor() >= 0,
    ensures
        queue.entries().len() > 0 ==> 0 <= queue.at() < queue.entries().len(),
        queue.entries().len() == 0 ==> queue.at() == 0,
{
}

} // verus!

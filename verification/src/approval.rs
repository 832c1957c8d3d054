//! The approval card: a pending tool call's review, the two-step journey to remembering it as a
//! permission, and the one decision that leaves.
//!
//! Intermediate choices never leave as decisions: choosing to remember only opens the scope step,
//! and only a scope the producer's current offer carries can be submitted.
use vstd::prelude::*;

use crate::attention::{
    offers_scope, AttentionQueue, AttentionRequest, OfferModel, PermissionScope, PermissionScopes,
    RememberOffer, RequestModel,
};
use crate::ids::{AgentId, AttentionId, Identity};
use crate::intent::Direction;
use crate::ordered::{has_key, lookup};
use crate::surface::SurfaceId;

verus! {

/// A visible action on the card.
#[derive(Clone, Copy, Debug, PartialEq, Eq, Structural)]
pub enum ApprovalChoice {
    AllowOnce,
    Remember,
    Deny,
    ThisSession,
    ThisProject,
    Back,
}

/// The label a choice shows, shared by drawing and hit testing.
pub open spec fn choice_label(choice: ApprovalChoice) -> Seq<char> {
    match choice {
        ApprovalChoice::AllowOnce => "Allow once"@,
        ApprovalChoice::Remember => "Allow and remember…"@,
        ApprovalChoice::Deny => "Deny"@,
        ApprovalChoice::ThisSession => "This Session"@,
        ApprovalChoice::ThisProject => "This Project"@,
        ApprovalChoice::Back => "Back"@,
    }
}

impl ApprovalChoice {
    /// The label the choice shows.
    pub fn label(self) -> (label: &'static str)
        ensures
            label@ == choice_label(self),
    {
        match self {
            ApprovalChoice::AllowOnce => "Allow once",
            ApprovalChoice::Remember => "Allow and remember…",
            ApprovalChoice::Deny => "Deny",
            ApprovalChoice::ThisSession => "This Session",
            ApprovalChoice::ThisProject => "This Project",
            ApprovalChoice::Back => "Back",
        }
    }
}

/// The card's visible phase.
#[derive(Clone, Copy, Debug, PartialEq, Eq, Structural)]
pub enum ApprovalStage {
    Review,
    Remember,
    Submitting,
}

/// What the producer answered about a decision, in the card's words.
#[derive(Clone, Copy, Debug, PartialEq, Eq, Structural)]
pub enum ApprovalFeedback {
    NotPending,
    Preparing,
    PolicyChanged,
    Capacity,
    Unavailable,
    Ineffective,
    NotFound,
}

/// What a feedback says.
pub open spec fn feedback_text(feedback: ApprovalFeedback) -> Seq<char> {
    match feedback {
        ApprovalFeedback::NotPending => "This request is no longer pending."@,
        ApprovalFeedback::Preparing => "Applying the decision. Waiting for confirmation…"@,
        ApprovalFeedback::PolicyChanged => "Permissions changed. Nothing ran; review the updated choices."@,
        ApprovalFeedback::Capacity => "Permission capacity reached. Nothing ran; this request still waits."@,
        ApprovalFeedback::Unavailable => "Permission preparation failed. Nothing ran; this request still waits."@,
        ApprovalFeedback::Ineffective => "An explicit rule prevents remembering this operation. Nothing ran."@,
        ApprovalFeedback::NotFound => "The permission is no longer active. Nothing ran."@,
    }
}

impl ApprovalFeedback {
    /// What the feedback says; it carries no policy authority.
    pub fn message(self) -> (text: &'static str)
        ensures
            text@ == feedback_text(self),
    {
        match self {
            ApprovalFeedback::NotPending => "This request is no longer pending.",
            ApprovalFeedback::Preparing => "Applying the decision. Waiting for confirmation…",
            ApprovalFeedback::PolicyChanged => "Permissions changed. Nothing ran; review the updated choices.",
            ApprovalFeedback::Capacity => "Permission capacity reached. Nothing ran; this request still waits.",
            ApprovalFeedback::Unavailable => "Permission preparation failed. Nothing ran; this request still waits.",
            ApprovalFeedback::Ineffective => "An explicit rule prevents remembering this operation. Nothing ran.",
            ApprovalFeedback::NotFound => "The permission is no longer active. Nothing ran.",
        }
    }
}

/// The answer the user gives a pending approval.
#[derive(Clone, Debug, PartialEq, Eq)]
pub enum ApprovalDecision {
    AllowOnce,
    Deny,
    AllowAndRemember { offer: Identity, scope: PermissionScope },
}

/// A decision, as values.
#[verifier::ext_equal]
pub enum DecisionModel {
    AllowOnce,
    Deny,
    AllowAndRemember { offer: Seq<char>, scope: PermissionScope },
}

impl View for ApprovalDecision {
    type V = DecisionModel;

    open spec fn view(&self) -> DecisionModel {
        match self {
            ApprovalDecision::AllowOnce => DecisionModel::AllowOnce,
            ApprovalDecision::Deny => DecisionModel::Deny,
            ApprovalDecision::AllowAndRemember { offer, scope } => DecisionModel::AllowAndRemember {
                offer: offer@,
                scope: *scope,
            },
        }
    }
}

impl ApprovalDecision {
    fn duplicate(&self) -> (copy: Self)
        ensures
            copy@ == self@,
    {
        match self {
            ApprovalDecision::AllowOnce => ApprovalDecision::AllowOnce,
            ApprovalDecision::Deny => ApprovalDecision::Deny,
            ApprovalDecision::AllowAndRemember { offer, scope } => ApprovalDecision::AllowAndRemember {
                offer: offer.duplicate(),
                scope: *scope,
            },
        }
    }
}

/// The choice a submitted decision shows as.
pub open spec fn decision_choice(decision: DecisionModel) -> ApprovalChoice {
    match decision {
        DecisionModel::AllowOnce => ApprovalChoice::AllowOnce,
        DecisionModel::Deny => ApprovalChoice::Deny,
        DecisionModel::AllowAndRemember { scope, .. } => match scope {
            PermissionScope::Session => ApprovalChoice::ThisSession,
            PermissionScope::Project => ApprovalChoice::ThisProject,
        },
    }
}

/// The pending approval a card presents, with where its journey stands.
#[derive(Clone, Debug, PartialEq, Eq)]
pub struct ApprovalView {
    pub attention_id: AttentionId,
    pub agent_id: AgentId,
    pub approval_id: Identity,
    pub call_id: Identity,
    pub tool: String,
    pub detail: String,
    pub remember: Option<RememberOffer>,
    pub selected: ApprovalChoice,
    pub stage: ApprovalStage,
    pub feedback: Option<ApprovalFeedback>,
    pub expanded: bool,
}

/// The actions a card offers at `stage`, given the producer's offer to remember.
pub open spec fn offered_choices(stage: ApprovalStage, remember: Option<OfferModel>) -> Seq<ApprovalChoice> {
    match stage {
        ApprovalStage::Review => if remember is Some {
            seq![ApprovalChoice::AllowOnce, ApprovalChoice::Remember, ApprovalChoice::Deny]
        } else {
            seq![ApprovalChoice::AllowOnce, ApprovalChoice::Deny]
        },
        ApprovalStage::Remember => if remember matches Some(o) && o.scopes is SessionAndProject {
            seq![ApprovalChoice::ThisSession, ApprovalChoice::ThisProject, ApprovalChoice::Back]
        } else {
            seq![ApprovalChoice::ThisSession, ApprovalChoice::Back]
        },
        ApprovalStage::Submitting => seq![],
    }
}

/// The offer a view carries, as values.
pub open spec fn offer_model(remember: Option<RememberOffer>) -> Option<OfferModel> {
    match remember {
        Some(o) => Some(o@),
        None => None,
    }
}

impl ApprovalView {
    /// Only the actions the producer's current offer can support.
    pub fn choices(&self) -> (choices: &'static [ApprovalChoice])
        ensures
            choices@ == offered_choices(self.stage, offer_model(self.remember)),
    {
        match self.stage {
            ApprovalStage::Review => match &self.remember {
                Some(_) => &[ApprovalChoice::AllowOnce, ApprovalChoice::Remember, ApprovalChoice::Deny],
                None => &[ApprovalChoice::AllowOnce, ApprovalChoice::Deny],
            },
            ApprovalStage::Remember => match &self.remember {
                Some(offer) => match offer.scopes {
                    PermissionScopes::SessionAndProject => &[
                        ApprovalChoice::ThisSession,
                        ApprovalChoice::ThisProject,
                        ApprovalChoice::Back,
                    ],
                    PermissionScopes::Session => &[ApprovalChoice::ThisSession, ApprovalChoice::Back],
                },
                None => &[ApprovalChoice::ThisSession, ApprovalChoice::Back],
            },
            ApprovalStage::Submitting => &[],
        }
    }
}

/// A decision leaving the card for the agent that asked.
#[derive(Clone, Debug, PartialEq, Eq)]
pub struct ApprovalSubmission {
    pub to: AgentId,
    pub approval_id: Identity,
    pub decision: ApprovalDecision,
}

/// Where an open card's journey stands.
#[derive(Clone, Debug, PartialEq, Eq)]
pub enum Journey {
    Review(ApprovalChoice),
    Remember { selected: ApprovalChoice, offer: Identity },
    Submitting(ApprovalDecision),
}

/// A journey, as values.
#[verifier::ext_equal]
pub enum JourneyModel {
    Review(ApprovalChoice),
    Remember { selected: ApprovalChoice, offer: Seq<char> },
    Submitting(DecisionModel),
}

impl View for Journey {
    type V = JourneyModel;

    open spec fn view(&self) -> JourneyModel {
        match self {
            Journey::Review(c) => JourneyModel::Review(*c),
            Journey::Remember { selected, offer } => JourneyModel::Remember { selected: *selected, offer: offer@ },
            Journey::Submitting(d) => JourneyModel::Submitting(d@),
        }
    }
}

/// The phase a journey shows as.
pub open spec fn journey_stage(journey: JourneyModel) -> ApprovalStage {
    match journey {
        JourneyModel::Review(_) => ApprovalStage::Review,
        JourneyModel::Remember { .. } => ApprovalStage::Remember,
        JourneyModel::Submitting(_) => ApprovalStage::Submitting,
    }
}

/// The choice a journey shows as selected.
pub open spec fn journey_choice(journey: JourneyModel) -> ApprovalChoice {
    match journey {
        JourneyModel::Review(c) => c,
        JourneyModel::Remember { selected, .. } => selected,
        JourneyModel::Submitting(d) => decision_choice(d),
    }
}

/// One open card.
#[derive(Clone, Debug, PartialEq, Eq)]
pub struct OpenApproval {
    pub attention_id: AttentionId,
    pub journey: Journey,
    pub return_focus: SurfaceId,
    pub expanded: bool,
    pub feedback: Option<ApprovalFeedback>,
}

/// An open card, as values.
#[verifier::ext_equal]
pub struct OpenModel {
    pub attention_id: Seq<char>,
    pub journey: JourneyModel,
    pub return_focus: SurfaceId,
    pub expanded: bool,
    pub feedback: Option<ApprovalFeedback>,
}

impl View for OpenApproval {
    type V = OpenModel;

    open spec fn view(&self) -> OpenModel {
        OpenModel {
            attention_id: self.attention_id@,
            journey: self.journey@,
            return_focus: self.return_focus,
            expanded: self.expanded,
            feedback: self.feedback,
        }
    }
}

/// A card just opened on `attention_id`: under review, with `Deny` chosen.
pub open spec fn fresh_card(attention_id: Seq<char>, return_focus: SurfaceId) -> OpenModel {
    OpenModel {
        attention_id,
        journey: JourneyModel::Review(ApprovalChoice::Deny),
        return_focus,
        expanded: false,
        feedback: None,
    }
}

/// The cards open in each conversation, as values.
#[verifier::ext_equal]
pub struct SurfaceModel {
    pub primary: Option<OpenModel>,
    pub background: Option<OpenModel>,
}

/// The card the user is on: a visited background card, otherwise the primary one.
pub open spec fn active_card(s: SurfaceModel) -> Option<OpenModel> {
    if s.background is Some {
        s.background
    } else {
        s.primary
    }
}

/// `s` with the card the user is on replaced by `card`.
pub open spec fn with_active(s: SurfaceModel, card: OpenModel) -> SurfaceModel {
    if s.background is Some {
        SurfaceModel { background: Some(card), ..s }
    } else {
        SurfaceModel { primary: Some(card), ..s }
    }
}

/// `s` with its primary card replaced by `card`.
pub open spec fn with_primary(s: SurfaceModel, card: Option<OpenModel>) -> SurfaceModel {
    SurfaceModel { primary: card, ..s }
}

/// `s` with its visited card replaced by `card`.
pub open spec fn with_background(s: SurfaceModel, card: Option<OpenModel>) -> SurfaceModel {
    SurfaceModel { background: card, ..s }
}

/// `card` with its journey at `journey`.
pub open spec fn on_journey(card: OpenModel, journey: JourneyModel) -> OpenModel {
    OpenModel { journey, ..card }
}

/// `card` with its detail shown or hidden the other way.
pub open spec fn detail_toggled(card: OpenModel) -> OpenModel {
    OpenModel { expanded: !card.expanded, ..card }
}

/// `card` with `choice` selected where its journey stands.
pub open spec fn with_choice(card: OpenModel, choice: ApprovalChoice) -> OpenModel {
    on_journey(
        card,
        match card.journey {
            JourneyModel::Remember { offer, .. } => JourneyModel::Remember { selected: choice, offer },
            _ => JourneyModel::Review(choice),
        },
    )
}

/// `card` once the producer answered `feedback`: back to its review with `Deny` chosen, unless
/// the decision is still being prepared.
pub open spec fn answered(card: OpenModel, feedback: ApprovalFeedback) -> OpenModel {
    if feedback is Preparing {
        OpenModel { feedback: Some(feedback), ..card }
    } else {
        OpenModel { journey: JourneyModel::Review(ApprovalChoice::Deny), feedback: Some(feedback), ..card }
    }
}

/// The pending approval a queue holds under `id`, if it holds one.
pub open spec fn pending_approval(
    entries: Seq<(Seq<char>, crate::attention::AttentionEntry)>,
    id: Seq<char>,
) -> Option<crate::attention::AttentionEntry> {
    if has_key(entries, id) && lookup(entries, id).request is Approval {
        Some(lookup(entries, id))
    } else {
        None
    }
}

/// The approval identity of an approval request.
pub open spec fn approval_of(request: RequestModel) -> Seq<char> {
    match request {
        RequestModel::Approval { approval_id, .. } => approval_id,
        RequestModel::Question { .. } => Seq::empty(),
    }
}

/// The offer of an approval request.
pub open spec fn request_offer(request: RequestModel) -> Option<OfferModel> {
    match request {
        RequestModel::Approval { remember, .. } => remember,
        RequestModel::Question { .. } => None,
    }
}

/// Whether a card shows: it is open and its request is a pending approval in the queue.
pub open spec fn card_shows(s: SurfaceModel, entries: Seq<(Seq<char>, crate::attention::AttentionEntry)>) -> bool {
    active_card(s) matches Some(card) && pending_approval(entries, card.attention_id) is Some
}

/// What the active card offers, while it shows.
pub open spec fn active_choices(s: SurfaceModel, entries: Seq<(Seq<char>, crate::attention::AttentionEntry)>) -> Seq<ApprovalChoice> {
    let card = active_card(s)->0;
    let entry = pending_approval(entries, card.attention_id)->0;
    offered_choices(journey_stage(card.journey), request_offer(entry.request))
}

/// Where `c` first stands in `choices`.
pub open spec fn first_index(choices: Seq<ApprovalChoice>, c: ApprovalChoice) -> Option<int>
    decreases choices.len(),
{
    if choices.len() == 0 {
        None
    } else {
        match first_index(choices.drop_last(), c) {
            Some(i) => Some(i),
            None => if choices.last() == c {
                Some(choices.len() - 1)
            } else {
                None
            },
        }
    }
}

/// The action one step from `selected` along `choices`, stopping at the ends; none when
/// `selected` is not among them.
pub open spec fn step_target(choices: Seq<ApprovalChoice>, selected: ApprovalChoice, forward: bool) -> Option<
    ApprovalChoice,
> {
    match first_index(choices, selected) {
        Some(i) => Some(
            choices[if forward {
                if i + 1 < choices.len() {
                    i + 1
                } else {
                    i
                }
            } else {
                if i > 0 {
                    i - 1
                } else {
                    i
                }
            }],
        ),
        None => None,
    }
}

proof fn lemma_first_index(choices: Seq<ApprovalChoice>, c: ApprovalChoice, i: int)
    requires
        0 <= i < choices.len(),
        choices[i] == c,
        forall|j: int| 0 <= j < i ==> choices[j] != c,
    ensures
        first_index(choices, c) == Some(i),
    decreases choices.len(),
{
    if i < choices.len() - 1 {
        lemma_first_index(choices.drop_last(), c, i);
    } else {
        lemma_no_index(choices.drop_last(), c);
    }
}

proof fn lemma_no_index(choices: Seq<ApprovalChoice>, c: ApprovalChoice)
    requires
        forall|j: int| 0 <= j < choices.len() ==> choices[j] != c,
    ensures
        first_index(choices, c) is None,
    decreases choices.len(),
{
    if choices.len() > 0 {
        lemma_no_index(choices.drop_last(), c);
    }
}

/// What submitting does to a card whose request carries `offer`: the card it leaves, and the
/// decision that leaves, if one does.
pub open spec fn submit_step(card: OpenModel, offer: Option<OfferModel>) -> (OpenModel, Option<DecisionModel>) {
    let to_review = OpenModel { journey: JourneyModel::Review(ApprovalChoice::Deny), ..card };
    let decided = |decision: DecisionModel|
        (OpenModel { journey: JourneyModel::Submitting(decision), feedback: None, ..card }, Some(decision));
    match card.journey {
        JourneyModel::Review(ApprovalChoice::Remember) => match offer {
            Some(o) => (
                OpenModel {
                    journey: JourneyModel::Remember { selected: ApprovalChoice::ThisSession, offer: o.id },
                    ..card
                },
                None,
            ),
            None => (card, None),
        },
        JourneyModel::Review(ApprovalChoice::AllowOnce) => decided(DecisionModel::AllowOnce),
        JourneyModel::Review(ApprovalChoice::Deny) => decided(DecisionModel::Deny),
        JourneyModel::Remember { selected: ApprovalChoice::Back, .. } => (to_review, None),
        JourneyModel::Remember { selected, offer: expected } => match offer {
            None => (card, None),
            Some(o) => if o.id != expected {
                (OpenModel { feedback: Some(ApprovalFeedback::PolicyChanged), ..to_review }, None)
            } else {
                let scope = if selected is ThisSession {
                    Some(PermissionScope::Session)
                } else if selected is ThisProject {
                    Some(PermissionScope::Project)
                } else {
                    None
                };
                match scope {
                    Some(sc) => if offers_scope(o.scopes, sc) {
                        decided(DecisionModel::AllowAndRemember { offer: o.id, scope: sc })
                    } else {
                        (card, None)
                    },
                    None => (card, None),
                }
            },
        },
        _ => (card, None),
    }
}

/// The cards open in each conversation: the primary conversation keeps its card while a
/// background card is visited.
#[derive(Clone, Debug, Default, PartialEq, Eq)]
pub struct ApprovalSurface {
    pub primary: Option<OpenApproval>,
    pub background: Option<OpenApproval>,
}

/// An optional card, as values.
pub open spec fn card_model(card: Option<OpenApproval>) -> Option<OpenModel> {
    match card {
        Some(c) => Some(c@),
        None => None,
    }
}

impl ApprovalSurface {
    /// The open cards, as values.
    pub open spec fn model(&self) -> SurfaceModel {
        SurfaceModel { primary: card_model(self.primary), background: card_model(self.background) }
    }

    /// No card open.
    pub fn new() -> (surface: Self)
        ensures
            surface.model().primary is None,
            surface.model().background is None,
    {
        ApprovalSurface { primary: None, background: None }
    }

    /// Opens a card on `attention_id`: the primary conversation's when focus returns to the
    /// composer, otherwise the visited one's. A card already open on the same request keeps its
    /// journey. Reports whether a card opened.
    pub fn open(&mut self, attention_id: AttentionId, return_focus: SurfaceId) -> (opened: bool)
        ensures
            ({
                let into_primary = return_focus is Composer;
                let slot = if into_primary { old(self).model().primary } else { old(self).model().background };
                let card = fresh_card(attention_id@, return_focus);
                if slot matches Some(o) && o.attention_id == attention_id@ {
                    !opened && final(self).model() == old(self).model()
                } else {
                    &&& opened
                    &&& into_primary ==> final(self).model() == with_primary(old(self).model(), Some(card))
                    &&& !into_primary ==> final(self).model() == with_background(old(self).model(), Some(card))
                }
            }),
    {
        let into_primary = match return_focus {
            SurfaceId::Composer => true,
            _ => false,
        };
        let slot = if into_primary {
            &self.primary
        } else {
            &self.background
        };
        let same = match slot {
            Some(open) => open.attention_id.same(&attention_id),
            None => false,
        };
        if same {
            return false;
        }
        let card = OpenApproval {
            attention_id,
            journey: Journey::Review(ApprovalChoice::Deny),
            return_focus,
            expanded: false,
            feedback: None,
        };
        if into_primary {
            self.primary = Some(card);
        } else {
            self.background = Some(card);
        }
        true
    }

    /// Whether the primary conversation has a card open.
    pub fn has_primary(&self) -> (open: bool)
        ensures
            open == (self.model().primary is Some),
    {
        self.primary.is_some()
    }

    fn active(&self) -> (card: Option<&OpenApproval>)
        ensures
            card_model(match card {
                Some(c) => Some(*c),
                None => None,
            }) == active_card(self.model()),
    {
        match &self.background {
            Some(card) => Some(card),
            None => match &self.primary {
                Some(card) => Some(card),
                None => None,
            },
        }
    }

    /// Replaces the card the user is on; there is one.
    fn set_active(&mut self, card: OpenApproval)
        requires
            active_card(old(self).model()) is Some,
        ensures
            final(self).model() == with_active(old(self).model(), card@),
    {
        if self.background.is_some() {
            self.background = Some(card);
        } else {
            self.primary = Some(card);
        }
    }

    /// The card the user is on, with the pending approval it presents; nothing when no card is
    /// open or its request is no longer a pending approval.
    pub fn view(&self, queue: &AttentionQueue) -> (view: Option<ApprovalView>)
        ensures
            card_shows(self.model(), queue.entries()) == view is Some,
            view matches Some(v) ==> {
                let card = active_card(self.model())->0;
                let entry = pending_approval(queue.entries(), card.attention_id)->0;
                &&& v.attention_id@ == entry.id
                &&& v.agent_id@ == entry.agent_id
                &&& entry.request matches RequestModel::Approval { approval_id, call_id, tool, detail, remember }
                    && v.approval_id@ == approval_id && v.call_id@ == call_id && v.tool@ == tool
                    && v.detail@ == detail && offer_model(v.remember) == remember
                &&& v.stage == journey_stage(card.journey)
                &&& v.selected == journey_choice(card.journey)
                &&& v.feedback == card.feedback
                &&& v.expanded == card.expanded
            },
    {
        let open = match self.active() {
            Some(open) => open,
            None => {
                return None;
            },
        };
        let item = match queue.get(&open.attention_id) {
            Some(item) => item,
            None => {
                return None;
            },
        };
        let approval = match &item.request {
            AttentionRequest::Approval(approval) => approval,
            AttentionRequest::Question { .. } => {
                return None;
            },
        };
        let (stage, selected) = match &open.journey {
            Journey::Review(selected) => (ApprovalStage::Review, *selected),
            Journey::Remember { selected, .. } => (ApprovalStage::Remember, *selected),
            Journey::Submitting(decision) => (
                ApprovalStage::Submitting,
                match decision {
                    ApprovalDecision::AllowOnce => ApprovalChoice::AllowOnce,
                    ApprovalDecision::Deny => ApprovalChoice::Deny,
                    ApprovalDecision::AllowAndRemember { scope, .. } => match scope {
                        PermissionScope::Session => ApprovalChoice::ThisSession,
                        PermissionScope::Project => ApprovalChoice::ThisProject,
                    },
                },
            ),
        };
        let remember = match &approval.remember {
            Some(offer) => Some(offer.duplicate()),
            None => None,
        };
        Some(
            ApprovalView {
                attention_id: item.id.duplicate(),
                agent_id: item.agent_id.duplicate(),
                approval_id: approval.approval_id.duplicate(),
                call_id: approval.call_id.duplicate(),
                tool: approval.tool.clone(),
                detail: approval.detail.clone(),
                remember,
                selected,
                stage,
                feedback: open.feedback,
                expanded: open.expanded,
            },
        )
    }

    /// Shows or hides the card's detail; reports whether a card was open.
    pub fn toggle_detail(&mut self) -> (toggled: bool)
        ensures
            toggled == (active_card(old(self).model()) is Some),
            toggled ==> final(self).model() == with_active(old(self).model(), detail_toggled(active_card(old(self).model())->0)),
            !toggled ==> final(self).model() == old(self).model(),
    {
        let mut card = match self.active() {
            Some(open) => open.clone_card(),
            None => {
                return false;
            },
        };
        card.expanded = !card.expanded;
        self.set_active(card);
        true
    }

    /// Selects `choice` on the card, if the card shows and offers it and no decision is on its
    /// way; reports whether the selection changed.
    pub fn choose_action(&mut self, queue: &AttentionQueue, choice: ApprovalChoice) -> (changed: bool)
        ensures
            ({
                let card = active_card(old(self).model())->0;
                if card_shows(old(self).model(), queue.entries()) && active_choices(old(self).model(), queue.entries()).contains(choice)
                    && !(card.journey is Submitting) {
                    &&& changed == (journey_choice(card.journey) != choice)
                    &&& final(self).model() == with_active(old(self).model(), with_choice(card, choice))
                } else {
                    !changed && final(self).model() == old(self).model()
                }
            }),
    {
        let view = match self.view(queue) {
            Some(view) => view,
            None => {
                return false;
            },
        };
        let choices = view.choices();
        let mut offered = false;
        let mut i: usize = 0;
        while i < choices.len()
            invariant
                i <= choices@.len(),
                offered == (exists|k: int| 0 <= k < i && choices@[k] == choice),
            decreases choices@.len() - i,
        {
            if choices[i] == choice {
                offered = true;
            }
            i = i + 1;
        }
        proof {
            if offered {
                let k = choose|k: int| 0 <= k < choices@.len() && choices@[k] == choice;
                assert(choices@.contains(choice)) by {
                    assert(choices@[k] == choice);
                }
            } else {
                assert(!choices@.contains(choice));
            }
        }
        if !offered {
            return false;
        }
        let mut card = match self.active() {
            Some(open) => open.clone_card(),
            None => {
                return false;
            },
        };
        let changed = match &card.journey {
            Journey::Review(selected) => *selected != choice,
            Journey::Remember { selected, .. } => *selected != choice,
            Journey::Submitting(_) => {
                return false;
            },
        };
        card.journey = match card.journey {
            Journey::Remember { offer, .. } => Journey::Remember { selected: choice, offer },
            _ => Journey::Review(choice),
        };
        self.set_active(card);
        changed
    }

    /// Moves the selection one action along what the card offers, stopping at the ends; reports
    /// whether it moved.
    pub fn move_selection(&mut self, queue: &AttentionQueue, direction: Direction) -> (moved: bool)
        ensures
            ({
                let card = active_card(old(self).model())->0;
                let target = step_target(
                    active_choices(old(self).model(), queue.entries()),
                    journey_choice(card.journey),
                    direction is Forward,
                );
                if card_shows(old(self).model(), queue.entries()) && target is Some {
                    &&& moved == (journey_choice(card.journey) != target->0)
                    &&& final(self).model() == with_active(old(self).model(), with_choice(card, target->0))
                } else {
                    !moved && final(self).model() == old(self).model()
                }
            }),
    {
        let view = match self.view(queue) {
            Some(view) => view,
            None => {
                return false;
            },
        };
        let choices = view.choices();
        let mut index: usize = 0;
        while index < choices.len() && choices[index] != view.selected
            invariant
                index <= choices@.len(),
                forall|j: int| 0 <= j < index ==> choices@[j] != view.selected,
            decreases choices@.len() - index,
        {
            index = index + 1;
        }
        if index == choices.len() {
            proof {
                lemma_no_index(choices@, view.selected);
            }
            return false;
        }
        proof {
            lemma_first_index(choices@, view.selected, index as int);
        }
        let last = choices.len() - 1;
        let next = match direction {
            Direction::Backward => if index > 0 {
                index - 1
            } else {
                0
            },
            Direction::Forward => if index < last {
                index + 1
            } else {
                last
            },
        };
        proof {
            assert(choices@.contains(choices@[next as int]));
            assert(offered_choices(journey_stage(JourneyModel::Submitting(DecisionModel::Deny)), None).len() == 0);
        }
        self.choose_action(queue, choices[next])
    }

    /// Returns from the scope step to the review, with `Deny` chosen; reports whether the card
    /// was on the scope step.
    pub fn back(&mut self) -> (returned: bool)
        ensures
            returned == (active_card(old(self).model()) matches Some(card) && card.journey is Remember),
            returned ==> final(self).model() == with_active(
                old(self).model(),
                on_journey(active_card(old(self).model())->0, JourneyModel::Review(ApprovalChoice::Deny)),
            ),
            !returned ==> final(self).model() == old(self).model(),
    {
        let mut card = match self.active() {
            Some(open) => open.clone_card(),
            None => {
                return false;
            },
        };
        match &card.journey {
            Journey::Remember { .. } => {},
            _ => {
                return false;
            },
        }
        card.journey = Journey::Review(ApprovalChoice::Deny);
        self.set_active(card);
        true
    }

    /// Submits what the card has chosen: opening the scope step, going back, or noticing a changed
    /// offer submit nothing; a decision leaves once, and the card then waits for the producer.
    pub fn submission(&mut self, queue: &AttentionQueue) -> (submitted: Option<ApprovalSubmission>)
        ensures
            !card_shows(old(self).model(), queue.entries()) ==> submitted is None && final(self).model() == old(self).model(),
            card_shows(old(self).model(), queue.entries()) ==> {
                let card = active_card(old(self).model())->0;
                let entry = pending_approval(queue.entries(), card.attention_id)->0;
                let (after, decision) = submit_step(card, request_offer(entry.request));
                &&& final(self).model() == with_active(old(self).model(), after)
                &&& match decision {
                    Some(d) => submitted matches Some(s) && s.to@ == entry.agent_id && s.decision@ == d
                        && s.approval_id@ == approval_of(entry.request),
                    None => submitted is None,
                }
            },
    {
        let view = match self.view(queue) {
            Some(view) => view,
            None => {
                return None;
            },
        };
        let mut card = match self.active() {
            Some(open) => open.clone_card(),
            None => {
                return None;
            },
        };
        let decision = match &card.journey {
            Journey::Review(ApprovalChoice::Remember) => {
                match &view.remember {
                    Some(offer) => {
                        card.journey = Journey::Remember {
                            selected: ApprovalChoice::ThisSession,
                            offer: offer.id.duplicate(),
                        };
                        self.set_active(card);
                    },
                    None => {},
                }
                return None;
            },
            Journey::Review(ApprovalChoice::AllowOnce) => ApprovalDecision::AllowOnce,
            Journey::Review(ApprovalChoice::Deny) => ApprovalDecision::Deny,
            Journey::Remember { selected: ApprovalChoice::Back, .. } => {
                card.journey = Journey::Review(ApprovalChoice::Deny);
                self.set_active(card);
                return None;
            },
            Journey::Remember { selected, offer: expected } => {
                let offered = match &view.remember {
                    Some(offered) => offered,
                    None => {
                        return None;
                    },
                };
                if !offered.id.same(expected) {
                    card.journey = Journey::Review(ApprovalChoice::Deny);
                    card.feedback = Some(ApprovalFeedback::PolicyChanged);
                    self.set_active(card);
                    return None;
                }
                let scope = match selected {
                    ApprovalChoice::ThisSession => PermissionScope::Session,
                    ApprovalChoice::ThisProject => PermissionScope::Project,
                    _ => {
                        return None;
                    },
                };
                if !offered.scopes.contains(scope) {
                    return None;
                }
                ApprovalDecision::AllowAndRemember { offer: offered.id.duplicate(), scope }
            },
            _ => {
                return None;
            },
        };
        card.journey = Journey::Submitting(decision.duplicate());
        card.feedback = None;
        self.set_active(card);
        Some(ApprovalSubmission { to: view.agent_id, approval_id: view.approval_id, decision })
    }

    /// Records the producer's feedback on the card for `attention`: the card returns to its review
    /// with `Deny` chosen, unless the decision is still being prepared.
    pub fn refused(&mut self, attention: &AttentionId, feedback: ApprovalFeedback)
        ensures
            if old(self).model().primary is Some && old(self).model().primary->0.attention_id == attention@ {
                final(self).model() == with_primary(old(self).model(), Some(answered(old(self).model().primary->0, feedback)))
            } else if old(self).model().background is Some && old(self).model().background->0.attention_id == attention@ {
                final(self).model() == with_background(old(self).model(), Some(answered(old(self).model().background->0, feedback)))
            } else {
                final(self).model() == old(self).model()
            },
    {
        let in_primary = match &self.primary {
            Some(open) => open.attention_id.same(attention),
            None => false,
        };
        let in_background = match &self.background {
            Some(open) => open.attention_id.same(attention),
            None => false,
        };
        let target = if in_primary {
            &self.primary
        } else if in_background {
            &self.background
        } else {
            return;
        };
        let mut card = match target {
            Some(open) => open.clone_card(),
            None => {
                return;
            },
        };
        match feedback {
            ApprovalFeedback::Preparing => {},
            _ => {
                card.journey = Journey::Review(ApprovalChoice::Deny);
            },
        }
        card.feedback = Some(feedback);
        if in_primary {
            self.primary = Some(card);
        } else {
            self.background = Some(card);
        }
    }

    /// Closes the visited background card and says where focus returns; the primary card stays.
    pub fn dismiss(&mut self) -> (focus: Option<SurfaceId>)
        ensures
            final(self).model() == with_background(old(self).model(), None),
            focus == match old(self).model().background {
                Some(b) => Some(b.return_focus),
                None => None,
            },
    {
        match self.background.take() {
            Some(open) => Some(open.return_focus),
            None => None,
        }
    }

    /// Closes the card of a resolved request. A visited card is dismissed; a primary card closes,
    /// returning focus only when no visited card stands over it.
    pub fn resolved(&mut self, attention_id: &AttentionId) -> (focus: Option<SurfaceId>)
        ensures
            if old(self).model().background is Some && old(self).model().background->0.attention_id == attention_id@ {
                final(self).model() == with_background(old(self).model(), None) && focus == Some(
                    old(self).model().background->0.return_focus,
                )
            } else if old(self).model().primary is Some && old(self).model().primary->0.attention_id == attention_id@ {
                final(self).model() == with_primary(old(self).model(), None) && focus == if old(self).model().background is None {
                    Some(old(self).model().primary->0.return_focus)
                } else {
                    None
                }
            } else {
                final(self).model() == old(self).model() && focus is None
            },
    {
        let in_background = match &self.background {
            Some(open) => open.attention_id.same(attention_id),
            None => false,
        };
        if in_background {
            return self.dismiss();
        }
        let in_primary = match &self.primary {
            Some(open) => open.attention_id.same(attention_id),
            None => false,
        };
        if in_primary {
            let removed = self.primary.take();
            return if self.background.is_none() {
                match removed {
                    Some(open) => Some(open.return_focus),
                    None => None,
                }
            } else {
                None
            };
        }
        None
    }
}

impl OpenApproval {
    /// The same card, as a separate value.
    pub fn clone_card(&self) -> (copy: Self)
        ensures
            copy@ == self@,
    {
        OpenApproval {
            attention_id: self.attention_id.duplicate(),
            journey: match &self.journey {
                Journey::Review(c) => Journey::Review(*c),
                Journey::Remember { selected, offer } => Journey::Remember {
                    selected: *selected,
                    offer: offer.duplicate(),
                },
                Journey::Submitting(d) => Journey::Submitting(d.duplicate()),
            },
            return_focus: self.return_focus,
            expanded: self.expanded,
            feedback: self.feedback,
        }
    }
}

/// A remembered decision is always one the producer's current offer carries: its offer is the
/// one on the request, in a scope that offer includes.
pub proof fn law_remembered_decisions_follow_the_offer(card: OpenModel, offer: Option<OfferModel>)
    ensures
        submit_step(card, offer).1 matches Some(DecisionModel::AllowAndRemember { offer: id, scope })
            ==> (offer matches Some(o) && o.id == id && offers_scope(o.scopes, scope)),
{
}

/// Choosing to remember, or going back from the scope step, never submits a decision.
pub proof fn law_intermediate_choices_never_leave(card: OpenModel, offer: Option<OfferModel>)
    ensures
        card.journey == JourneyModel::Review(ApprovalChoice::Remember) ==> submit_step(card, offer).1 is None,
        card.journey matches JourneyModel::Remember { selected: ApprovalChoice::Back, .. } ==> (submit_step(
            card,
            offer,
        ).1 is None && submit_step(card, offer).0.journey == JourneyModel::Review(ApprovalChoice::Deny)),
{
}

/// Once a decision leaves, the card waits: it offers no action and a second submission sends
/// nothing.
pub proof fn law_a_decision_leaves_once(card: OpenModel, offer: Option<OfferModel>, later: Option<OfferModel>)
    requires
        submit_step(card, offer).1 is Some,
    ensures
        journey_stage(submit_step(card, offer).0.journey) == ApprovalStage::Submitting,
        offered_choices(journey_stage(submit_step(card, offer).0.journey), later).len() == 0,
        submit_step(submit_step(card, offer).0, later).1 is None,
{
}

/// Visiting a background card and dismissing it leaves the primary card as it was.
pub proof fn law_the_primary_card_survives_a_visit(s: SurfaceModel, visited: OpenModel)
    ensures
        with_background(with_background(s, Some(visited)), None).primary == s.primary,
        active_card(with_background(with_background(s, Some(visited)), None)) == s.primary,
{
}

} // verus!

verus! {

/// Whether `phrase` occurs in `text`.
pub open spec fn says(text: Seq<char>, phrase: Seq<char>) -> bool {
    exists|i: int|
        0 <= i && i + phrase.len() <= text.len() && #[trigger] text.subrange(i, i + phrase.len())
            == phrase
}

proof fn lemma_says_at(text: Seq<char>, phrase: Seq<char>, i: int)
    requires
        0 <= i,
        i + phrase.len() <= text.len(),
        text.subrange(i, i + phrase.len()) == phrase,
    ensures
        says(text, phrase),
{
}

proof fn lemma_never_says(text: Seq<char>, phrase: Seq<char>)
    requires
        phrase.len() > 0,
        forall|k: int| 0 <= k < text.len() ==> text[k] != phrase[0],
    ensures
        !says(text, phrase),
{
    assert forall|i: int| 0 <= i && i + phrase.len() <= text.len() implies #[trigger] text.subrange(
        i,
        i + phrase.len(),
    ) != phrase by {
        assert(text.subrange(i, i + phrase.len())[0] == text[i]);
    };
}

/// A feedback tells the user that nothing ran exactly when the producer settled the decision
/// without running anything: every answer but "no longer pending" and "still being applied".
pub proof fn law_nothing_ran_is_said_of_settled_refusals(feedback: ApprovalFeedback)
    ensures
        says(feedback_text(feedback), "Nothing ran"@) <==> !(feedback is NotPending
            || feedback is Preparing),
{
    let phrase = "Nothing ran"@;
    reveal_strlit("Nothing ran");
    let text = feedback_text(feedback);
    match feedback {
        ApprovalFeedback::NotPending => {
            reveal_strlit("This request is no longer pending.");
            lemma_never_says(text, phrase);

        },
        ApprovalFeedback::Preparing => {
            reveal_strlit("Applying the decision. Waiting for confirmation…");
            lemma_never_says(text, phrase);
        },
        ApprovalFeedback::PolicyChanged => {
            reveal_strlit("Permissions changed. Nothing ran; review the updated choices.");
            assert(text.subrange(21int, 32int) =~= phrase);
            lemma_says_at(text, phrase, 21);
        },
        ApprovalFeedback::Capacity => {
            reveal_strlit("Permission capacity reached. Nothing ran; this request still waits.");
            assert(text.subrange(29int, 40int) =~= phrase);
            lemma_says_at(text, phrase, 29);
        },
        ApprovalFeedback::Unavailable => {
            reveal_strlit("Permission preparation failed. Nothing ran; this request still waits.");
            assert(text.subrange(31int, 42int) =~= phrase);
            lemma_says_at(text, phrase, 31);
        },
        ApprovalFeedback::Ineffective => {
            reveal_strlit("An explicit rule prevents remembering this operation. Nothing ran.");
            assert(text.subrange(54int, 65int) =~= phrase);
            lemma_says_at(text, phrase, 54);
        },
        ApprovalFeedback::NotFound => {
            reveal_strlit("The permission is no longer active. Nothing ran.");
            assert(text.subrange(36int, 47int) =~= phrase);
            lemma_says_at(text, phrase, 36);
        },
    }
}

} // verus!

verus! {

/// Remembering an allowance remembers it for the scope the user selected: from the Remember
/// step, "This Session" remembers it for the session and "This Project" for the project, for the
/// offer the card was opened on. Where the request does not offer the selected scope nothing is
/// decided and the card stays as it was.
pub proof fn law_the_remembered_scope_is_the_one_selected(card: OpenModel, offer: OfferModel, selected: ApprovalChoice)
    requires
        card.journey == (JourneyModel::Remember { selected, offer: offer.id }),
        selected is ThisSession || selected is ThisProject,
    ensures
        ({
            let scope = if selected is ThisSession { PermissionScope::Session } else { PermissionScope::Project };
            let (after, decision) = submit_step(card, Some(offer));
            &&& offers_scope(offer.scopes, scope) ==> decision == Some(
                DecisionModel::AllowAndRemember { offer: offer.id, scope },
            ) && after.journey == JourneyModel::Submitting(
                DecisionModel::AllowAndRemember { offer: offer.id, scope },
            )
            &&& !offers_scope(offer.scopes, scope) ==> decision is None && after == card
        }),
        selected is ThisSession ==> submit_step(card, Some(offer)).1 == Some(
            DecisionModel::AllowAndRemember { offer: offer.id, scope: PermissionScope::Session },
        ),
{
}

} // verus!

//! Revisioned, deterministic projection of the agents' semantic events.
//!
//! The reducer validates before it writes, so a rejected event never leaves partially applied
//! state behind. Ordering defects are recoverable: a forward gap resynchronizes and records what
//! was lost, a stale sequence is dropped without rewinding, and a contract violation drops
//! exactly one event. Every rejection is also recorded as a visible notice.
use vstd::prelude::*;

use crate::ids::{AgentId, ArtifactId, AttentionId, MailId, ToolActivityId, TranscriptItemId};
use crate::ordered::{OrderedById, has_key, key_pos, keys_of, lookup, upsert_spec};

verus! {

/// Upper bound on retained runtime notices.
pub const NOTICE_CAPACITY: usize = 32;

/// What an agent is doing.
#[derive(Clone, Copy, Debug, PartialEq, Eq, Structural)]
pub enum AgentStatus {
    Idle,
    Running,
    Waiting,
    Completed,
    Failed,
    Cancelled,
}

/// A tool activity's lifecycle state.
#[derive(Clone, Copy, Debug, PartialEq, Eq, Structural)]
pub enum ToolActivityStatus {
    Queued,
    Running,
    Succeeded,
    Failed,
    Cancelled,
}

/// Who a transcript item speaks for.
#[derive(Clone, Copy, Debug, PartialEq, Eq, Structural)]
pub enum TranscriptRole {
    User,
    Assistant,
    Reasoning,
    System,
}

/// What a background request asks of the user.
#[derive(Clone, Copy, Debug, PartialEq, Eq, Structural)]
pub enum AttentionKind {
    Approval,
    Question,
}

/// The producer's position of one event in its stream.
#[derive(Clone, Copy, Debug, PartialEq, Eq, Structural)]
pub struct EventSequence(pub u64);

impl EventSequence {
    /// The position `value`.
    pub fn new(value: u64) -> (sequence: Self)
        ensures
            sequence.0 == value,
    {
        EventSequence(value)
    }

    /// The numeric position.
    pub fn get(self) -> (value: u64)
        ensures
            value == self.0,
    {
        self.0
    }
}

/// One semantic event from the agents' runtime.
#[derive(Clone, Debug, PartialEq, Eq)]
pub enum PrototypeEvent {
    AgentCreated { agent_id: AgentId, label: String, status: AgentStatus },
    AgentStatusChanged { agent_id: AgentId, status: AgentStatus },
    TranscriptItemStarted { agent_id: AgentId, item_id: TranscriptItemId, role: TranscriptRole },
    TranscriptDelta {
        agent_id: AgentId,
        item_id: TranscriptItemId,
        item_revision: u64,
        text: String,
    },
    TranscriptItemFinalized { agent_id: AgentId, item_id: TranscriptItemId, item_revision: u64 },
    ToolActivityChanged {
        agent_id: AgentId,
        activity_id: ToolActivityId,
        label: String,
        status: ToolActivityStatus,
    },
    AttentionRequested {
        agent_id: AgentId,
        attention_id: AttentionId,
        kind: AttentionKind,
        summary: String,
    },
    MailDelivered { mail_id: MailId, from: AgentId, to: AgentId, summary: String },
    ArtifactAnnounced {
        agent_id: AgentId,
        artifact_id: ArtifactId,
        label: String,
        pointer: String,
    },
    RuntimeWarning { message: String },
}

/// One event and its place in the stream.
#[derive(Clone, Debug, PartialEq, Eq)]
pub struct PrototypeEventEnvelope {
    pub sequence: EventSequence,
    pub event: PrototypeEvent,
}

/// An event, as text and values.
pub enum EventModel {
    AgentCreated { agent_id: Seq<char>, label: Seq<char>, status: AgentStatus },
    AgentStatusChanged { agent_id: Seq<char>, status: AgentStatus },
    TranscriptItemStarted { agent_id: Seq<char>, item_id: Seq<char>, role: TranscriptRole },
    TranscriptDelta { agent_id: Seq<char>, item_id: Seq<char>, item_revision: u64, text: Seq<char> },
    TranscriptItemFinalized { agent_id: Seq<char>, item_id: Seq<char>, item_revision: u64 },
    ToolActivityChanged {
        agent_id: Seq<char>,
        activity_id: Seq<char>,
        label: Seq<char>,
        status: ToolActivityStatus,
    },
    AttentionRequested {
        agent_id: Seq<char>,
        attention_id: Seq<char>,
        kind: AttentionKind,
        summary: Seq<char>,
    },
    MailDelivered { mail_id: Seq<char>, from: Seq<char>, to: Seq<char>, summary: Seq<char> },
    ArtifactAnnounced {
        agent_id: Seq<char>,
        artifact_id: Seq<char>,
        label: Seq<char>,
        pointer: Seq<char>,
    },
    RuntimeWarning { message: Seq<char> },
}

impl View for PrototypeEvent {
    type V = EventModel;

    open spec fn view(&self) -> EventModel {
        match self {
            PrototypeEvent::AgentCreated { agent_id, label, status } => EventModel::AgentCreated {
                agent_id: agent_id@,
                label: label@,
                status: *status,
            },
            PrototypeEvent::AgentStatusChanged { agent_id, status } => EventModel::AgentStatusChanged {
                agent_id: agent_id@,
                status: *status,
            },
            PrototypeEvent::TranscriptItemStarted { agent_id, item_id, role } => EventModel::TranscriptItemStarted {
                agent_id: agent_id@,
                item_id: item_id@,
                role: *role,
            },
            PrototypeEvent::TranscriptDelta { agent_id, item_id, item_revision, text } => EventModel::TranscriptDelta {
                agent_id: agent_id@,
                item_id: item_id@,
                item_revision: *item_revision,
                text: text@,
            },
            PrototypeEvent::TranscriptItemFinalized { agent_id, item_id, item_revision } => EventModel::TranscriptItemFinalized {
                agent_id: agent_id@,
                item_id: item_id@,
                item_revision: *item_revision,
            },
            PrototypeEvent::ToolActivityChanged { agent_id, activity_id, label, status } => EventModel::ToolActivityChanged {
                agent_id: agent_id@,
                activity_id: activity_id@,
                label: label@,
                status: *status,
            },
            PrototypeEvent::AttentionRequested { agent_id, attention_id, kind, summary } => EventModel::AttentionRequested {
                agent_id: agent_id@,
                attention_id: attention_id@,
                kind: *kind,
                summary: summary@,
            },
            PrototypeEvent::MailDelivered { mail_id, from, to, summary } => EventModel::MailDelivered {
                mail_id: mail_id@,
                from: from@,
                to: to@,
                summary: summary@,
            },
            PrototypeEvent::ArtifactAnnounced { agent_id, artifact_id, label, pointer } => EventModel::ArtifactAnnounced {
                agent_id: agent_id@,
                artifact_id: artifact_id@,
                label: label@,
                pointer: pointer@,
            },
            PrototypeEvent::RuntimeWarning { message } => EventModel::RuntimeWarning { message: message@ },
        }
    }
}

/// Why the projection rejected one semantic event.
#[derive(Clone, Debug, PartialEq, Eq)]
pub enum ReduceError {
    StaleSequence { expected: u64, received: u64 },
    DuplicateAgent(AgentId),
    UnknownAgent(AgentId),
    DuplicateTranscriptItem(TranscriptItemId),
    UnknownTranscriptItem(TranscriptItemId),
    ItemRevisionGap { item_id: TranscriptItemId, expected: u64, received: u64 },
}

/// A rejection, as text and values.
pub enum ErrorModel {
    StaleSequence { expected: u64, received: u64 },
    DuplicateAgent(Seq<char>),
    UnknownAgent(Seq<char>),
    DuplicateTranscriptItem(Seq<char>),
    UnknownTranscriptItem(Seq<char>),
    ItemRevisionGap { item_id: Seq<char>, expected: u64, received: u64 },
}

impl View for ReduceError {
    type V = ErrorModel;

    open spec fn view(&self) -> ErrorModel {
        match self {
            ReduceError::StaleSequence { expected, received } => ErrorModel::StaleSequence {
                expected: *expected,
                received: *received,
            },
            ReduceError::DuplicateAgent(id) => ErrorModel::DuplicateAgent(id@),
            ReduceError::UnknownAgent(id) => ErrorModel::UnknownAgent(id@),
            ReduceError::DuplicateTranscriptItem(id) => ErrorModel::DuplicateTranscriptItem(id@),
            ReduceError::UnknownTranscriptItem(id) => ErrorModel::UnknownTranscriptItem(id@),
            ReduceError::ItemRevisionGap { item_id, expected, received } => ErrorModel::ItemRevisionGap {
                item_id: item_id@,
                expected: *expected,
                received: *received,
            },
        }
    }
}

impl ReduceError {
    /// The same rejection, as a separate value.
    pub fn clone_error(&self) -> (copy: Self)
        ensures
            copy@ == self@,
    {
        match self {
            ReduceError::StaleSequence { expected, received } => ReduceError::StaleSequence {
                expected: *expected,
                received: *received,
            },
            ReduceError::DuplicateAgent(id) => ReduceError::DuplicateAgent(id.duplicate()),
            ReduceError::UnknownAgent(id) => ReduceError::UnknownAgent(id.duplicate()),
            ReduceError::DuplicateTranscriptItem(id) => ReduceError::DuplicateTranscriptItem(
                id.duplicate(),
            ),
            ReduceError::UnknownTranscriptItem(id) => ReduceError::UnknownTranscriptItem(
                id.duplicate(),
            ),
            ReduceError::ItemRevisionGap { item_id, expected, received } => ReduceError::ItemRevisionGap {
                item_id: item_id.duplicate(),
                expected: *expected,
                received: *received,
            },
        }
    }
}

/// Result of offering one semantic event to the projection.
#[derive(Clone, Debug, PartialEq, Eq)]
pub enum ApplyOutcome {
    /// The event satisfied the projection contract and was applied.
    Accepted,
    /// The event was dropped; the reason is retained in the notice log.
    Rejected(ReduceError),
}

/// An outcome, as values.
pub enum OutcomeModel {
    Accepted,
    Rejected(ErrorModel),
}

impl View for ApplyOutcome {
    type V = OutcomeModel;

    open spec fn view(&self) -> OutcomeModel {
        match self {
            ApplyOutcome::Accepted => OutcomeModel::Accepted,
            ApplyOutcome::Rejected(error) => OutcomeModel::Rejected(error@),
        }
    }
}

/// Monotonic revision of the whole projection.
#[derive(Clone, Copy, Debug, Default, PartialEq, Eq, PartialOrd, Ord, Structural)]
pub struct ViewRevision(pub u64);

impl ViewRevision {
    /// Returns the numeric revision.
    pub fn get(self) -> (value: u64)
        ensures
            value == self.0,
    {
        self.0
    }
}

/// Projected transcript content.
#[derive(Clone, Debug, PartialEq, Eq)]
pub struct TranscriptItemView {
    pub id: TranscriptItemId,
    pub role: TranscriptRole,
    pub source: String,
    pub revision: u64,
    pub finalized: bool,
}

/// A transcript item, as values.
pub struct ItemModel {
    pub id: Seq<char>,
    pub role: TranscriptRole,
    pub source: Seq<char>,
    pub revision: u64,
    pub finalized: bool,
}

impl View for TranscriptItemView {
    type V = ItemModel;

    open spec fn view(&self) -> ItemModel {
        ItemModel {
            id: self.id@,
            role: self.role,
            source: self.source@,
            revision: self.revision,
            finalized: self.finalized,
        }
    }
}

/// One visible tool activity and its current lifecycle state.
#[derive(Clone, Debug, PartialEq, Eq)]
pub struct ToolActivityView {
    pub id: ToolActivityId,
    pub label: String,
    pub status: ToolActivityStatus,
}

/// A tool activity, as values.
pub struct ToolModel {
    pub id: Seq<char>,
    pub label: Seq<char>,
    pub status: ToolActivityStatus,
}

impl View for ToolActivityView {
    type V = ToolModel;

    open spec fn view(&self) -> ToolModel {
        ToolModel { id: self.id@, label: self.label@, status: self.status }
    }
}

/// Durable work product announced by an agent, referenced by pointer.
#[derive(Clone, Debug, PartialEq, Eq)]
pub struct ArtifactView {
    pub id: ArtifactId,
    pub label: String,
    pub pointer: String,
}

/// An artifact, as values.
pub struct ArtifactModel {
    pub id: Seq<char>,
    pub label: Seq<char>,
    pub pointer: Seq<char>,
}

impl View for ArtifactView {
    type V = ArtifactModel;

    open spec fn view(&self) -> ArtifactModel {
        ArtifactModel { id: self.id@, label: self.label@, pointer: self.pointer@ }
    }
}

/// Typed mail delivered between sessions; the sender is retained.
#[derive(Clone, Debug, PartialEq, Eq)]
pub struct MailView {
    pub id: MailId,
    pub from: AgentId,
    pub summary: String,
}

/// A mail, as values.
pub struct MailModel {
    pub id: Seq<char>,
    pub from: Seq<char>,
    pub summary: Seq<char>,
}

impl View for MailView {
    type V = MailModel;

    open spec fn view(&self) -> MailModel {
        MailModel { id: self.id@, from: self.from@, summary: self.summary@ }
    }
}

/// Per-agent projection consumed by the renderer.
#[derive(Debug)]
pub struct AgentView {
    pub id: AgentId,
    pub label: String,
    pub status: AgentStatus,
    items: OrderedById<TranscriptItemView>,
    tools: OrderedById<ToolActivityView>,
    artifacts: OrderedById<ArtifactView>,
    inbox: OrderedById<MailView>,
}

/// An agent's projection, as values.
pub struct AgentModel {
    pub id: Seq<char>,
    pub label: Seq<char>,
    pub status: AgentStatus,
    pub items: Seq<(Seq<char>, ItemModel)>,
    pub tools: Seq<(Seq<char>, ToolModel)>,
    pub artifacts: Seq<(Seq<char>, ArtifactModel)>,
    pub inbox: Seq<(Seq<char>, MailModel)>,
}

impl View for AgentView {
    type V = AgentModel;

    closed spec fn view(&self) -> AgentModel {
        AgentModel {
            id: self.id@,
            label: self.label@,
            status: self.status,
            items: self.items@,
            tools: self.tools@,
            artifacts: self.artifacts@,
            inbox: self.inbox@,
        }
    }
}

impl AgentView {
    /// Every collection of the agent is well formed.
    pub closed spec fn wf(&self) -> bool {
        self.items.wf() && self.tools.wf() && self.artifacts.wf() && self.inbox.wf()
    }

    fn new(id: AgentId, label: String, status: AgentStatus) -> (agent: Self)
        ensures
            agent.wf(),
            agent@ == new_agent(id@, label@, status),
    {
        let agent = AgentView {
            id,
            label,
            status,
            items: OrderedById::new(),
            tools: OrderedById::new(),
            artifacts: OrderedById::new(),
            inbox: OrderedById::new(),
        };
        agent
    }

    /// Transcript items in arrival order.
    pub fn transcript(&self) -> (items: &[TranscriptItemView])
        requires
            self.wf(),
        ensures
            items@.len() == self@.items.len(),
            forall|i: int| 0 <= i < items@.len() ==> #[trigger] items@[i]@ == self@.items[i].1,
    {
        proof {
            self.items.lemma_items();
        }
        self.items.iter()
    }

    /// Tool activity in arrival order.
    pub fn tool_activity(&self) -> (tools: &[ToolActivityView])
        requires
            self.wf(),
        ensures
            tools@.len() == self@.tools.len(),
            forall|i: int| 0 <= i < tools@.len() ==> #[trigger] tools@[i]@ == self@.tools[i].1,
    {
        proof {
            self.tools.lemma_items();
        }
        self.tools.iter()
    }

    /// Announced artifacts in arrival order.
    pub fn artifacts(&self) -> (artifacts: &[ArtifactView])
        requires
            self.wf(),
        ensures
            artifacts@.len() == self@.artifacts.len(),
            forall|i: int| 0 <= i < artifacts@.len() ==> #[trigger] artifacts@[i]@ == self@.artifacts[i].1,
    {
        proof {
            self.artifacts.lemma_items();
        }
        self.artifacts.iter()
    }

    /// Delivered mail in arrival order.
    pub fn inbox(&self) -> (mail: &[MailView])
        requires
            self.wf(),
        ensures
            mail@.len() == self@.inbox.len(),
            forall|i: int| 0 <= i < mail@.len() ==> #[trigger] mail@[i]@ == self@.inbox[i].1,
    {
        proof {
            self.inbox.lemma_items();
        }
        self.inbox.iter()
    }
}

/// A fresh agent with nothing projected yet.
pub open spec fn new_agent(id: Seq<char>, label: Seq<char>, status: AgentStatus) -> AgentModel {
    AgentModel {
        id,
        label,
        status,
        items: Seq::empty(),
        tools: Seq::empty(),
        artifacts: Seq::empty(),
        inbox: Seq::empty(),
    }
}

/// One queued background request.
#[derive(Clone, Debug, PartialEq, Eq)]
pub struct AttentionView {
    pub id: AttentionId,
    pub agent_id: AgentId,
    pub kind: AttentionKind,
    pub summary: String,
}

/// A request, as values.
pub struct AttentionModel {
    pub id: Seq<char>,
    pub agent_id: Seq<char>,
    pub kind: AttentionKind,
    pub summary: Seq<char>,
}

impl View for AttentionView {
    type V = AttentionModel;

    open spec fn view(&self) -> AttentionModel {
        AttentionModel {
            id: self.id@,
            agent_id: self.agent_id@,
            kind: self.kind,
            summary: self.summary@,
        }
    }
}

/// A runtime notice surfaced without interrupting the user's work.
#[derive(Clone, Debug, PartialEq, Eq)]
pub enum NoticeView {
    /// Warning reported by the event producer.
    RuntimeWarning { message: String },
    /// Events were lost before the received sequence; the projection resynchronized forward.
    SequenceGap { expected: u64, received: u64 },
    /// One event violated the projection contract and was dropped.
    Rejected { sequence: EventSequence, error: ReduceError },
}

/// A notice, as values.
pub enum NoticeModel {
    RuntimeWarning { message: Seq<char> },
    SequenceGap { expected: u64, received: u64 },
    Rejected { sequence: u64, error: ErrorModel },
}

impl View for NoticeView {
    type V = NoticeModel;

    open spec fn view(&self) -> NoticeModel {
        match self {
            NoticeView::RuntimeWarning { message } => NoticeModel::RuntimeWarning { message: message@ },
            NoticeView::SequenceGap { expected, received } => NoticeModel::SequenceGap {
                expected: *expected,
                received: *received,
            },
            NoticeView::Rejected { sequence, error } => NoticeModel::Rejected {
                sequence: sequence.0,
                error: error@,
            },
        }
    }
}

/// The whole projection, as values.
pub struct StateModel {
    pub revision: u64,
    pub last_sequence: Option<u64>,
    pub agents: Seq<(Seq<char>, AgentModel)>,
    pub selected: Option<Seq<char>>,
    pub attention: Seq<(Seq<char>, AttentionModel)>,
    pub notices: Seq<NoticeModel>,
    pub dropped: u64,
}

/// `n + 1`, held at `u64::MAX`.
pub open spec fn sat_inc(n: u64) -> u64 {
    if n < u64::MAX {
        (n + 1) as u64
    } else {
        u64::MAX
    }
}

/// The projection with its revision advanced.
pub open spec fn touched(s: StateModel) -> StateModel {
    StateModel { revision: sat_inc(s.revision), ..s }
}

/// The projection with `notice` logged: the oldest notice is discarded and counted once the log
/// is full, and the revision advances because the log is visible.
pub open spec fn with_notice(s: StateModel, notice: NoticeModel) -> StateModel {
    if s.notices.len() == NOTICE_CAPACITY {
        touched(StateModel { notices: s.notices.drop_first().push(notice), dropped: sat_inc(s.dropped), ..s })
    } else {
        touched(StateModel { notices: s.notices.push(notice), ..s })
    }
}

/// The sequence the next event is expected to carry.
pub open spec fn expected_sequence(last: Option<u64>) -> int {
    match last {
        Some(l) => l + 1,
        None => 1,
    }
}

/// `n`, held at `u64::MAX`.
pub open spec fn clamp_u64(n: int) -> u64 {
    if n <= u64::MAX {
        n as u64
    } else {
        u64::MAX
    }
}

/// The item revision an update must carry, given the item's current revision.
pub open spec fn next_item_revision(revision: u64) -> u64 {
    sat_inc(revision)
}

/// Whether `received` is the revision an item at `revision` accepts next.
pub open spec fn advances(revision: u64, received: u64) -> bool {
    revision < u64::MAX && received == revision + 1
}

/// The agent `s` holds as `id`.
pub open spec fn agent_of(s: StateModel, id: Seq<char>) -> AgentModel {
    lookup(s.agents, id)
}

/// `s` with agent `id` replaced by `agent`.
pub open spec fn with_agent(s: StateModel, id: Seq<char>, agent: AgentModel) -> StateModel {
    StateModel { agents: s.agents.update(key_pos(s.agents, id), (id, agent)), ..s }
}

/// What one event does to the projection's domain, or why it is refused. Only a runtime warning
/// writes a notice here; sequencing and revisions are `apply_spec`'s.
pub open spec fn event_step(s: StateModel, e: EventModel) -> Result<StateModel, ErrorModel> {
    match e {
        EventModel::AgentCreated { agent_id, label, status } => if has_key(s.agents, agent_id) {
            Err(ErrorModel::DuplicateAgent(agent_id))
        } else {
            Ok(
                StateModel {
                    selected: if s.selected is None {
                        Some(agent_id)
                    } else {
                        s.selected
                    },
                    agents: s.agents.push((agent_id, new_agent(agent_id, label, status))),
                    ..s
                },
            )
        },
        EventModel::AgentStatusChanged { agent_id, status } => if !has_key(s.agents, agent_id) {
            Err(ErrorModel::UnknownAgent(agent_id))
        } else {
            Ok(with_agent(s, agent_id, AgentModel { status, ..agent_of(s, agent_id) }))
        },
        EventModel::TranscriptItemStarted { agent_id, item_id, role } => if !has_key(
            s.agents,
            agent_id,
        ) {
            Err(ErrorModel::UnknownAgent(agent_id))
        } else if has_key(agent_of(s, agent_id).items, item_id) {
            Err(ErrorModel::DuplicateTranscriptItem(item_id))
        } else {
            let agent = agent_of(s, agent_id);
            let item = ItemModel {
                id: item_id,
                role,
                source: Seq::empty(),
                revision: 0,
                finalized: false,
            };
            Ok(with_agent(s, agent_id, AgentModel { items: agent.items.push((item_id, item)), ..agent }))
        },
        EventModel::TranscriptDelta { agent_id, item_id, item_revision, text } => if !has_key(
            s.agents,
            agent_id,
        ) {
            Err(ErrorModel::UnknownAgent(agent_id))
        } else if !has_key(agent_of(s, agent_id).items, item_id) {
            Err(ErrorModel::UnknownTranscriptItem(item_id))
        } else {
            let agent = agent_of(s, agent_id);
            let item = lookup(agent.items, item_id);
            if !advances(item.revision, item_revision) {
                Err(
                    ErrorModel::ItemRevisionGap {
                        item_id: item.id,
                        expected: next_item_revision(item.revision),
                        received: item_revision,
                    },
                )
            } else {
                let next = ItemModel { source: item.source + text, revision: item_revision, ..item };
                Ok(
                    with_agent(
                        s,
                        agent_id,
                        AgentModel {
                            items: agent.items.update(key_pos(agent.items, item_id), (item_id, next)),
                            ..agent
                        },
                    ),
                )
            }
        },
        EventModel::TranscriptItemFinalized { agent_id, item_id, item_revision } => if !has_key(
            s.agents,
            agent_id,
        ) {
            Err(ErrorModel::UnknownAgent(agent_id))
        } else if !has_key(agent_of(s, agent_id).items, item_id) {
            Err(ErrorModel::UnknownTranscriptItem(item_id))
        } else {
            let agent = agent_of(s, agent_id);
            let item = lookup(agent.items, item_id);
            if !advances(item.revision, item_revision) {
                Err(
                    ErrorModel::ItemRevisionGap {
                        item_id: item.id,
                        expected: next_item_revision(item.revision),
                        received: item_revision,
                    },
                )
            } else {
                let next = ItemModel { finalized: true, revision: item_revision, ..item };
                Ok(
                    with_agent(
                        s,
                        agent_id,
                        AgentModel {
                            items: agent.items.update(key_pos(agent.items, item_id), (item_id, next)),
                            ..agent
                        },
                    ),
                )
            }
        },
        EventModel::ToolActivityChanged { agent_id, activity_id, label, status } => if !has_key(
            s.agents,
            agent_id,
        ) {
            Err(ErrorModel::UnknownAgent(agent_id))
        } else {
            let agent = agent_of(s, agent_id);
            let tool = ToolModel { id: activity_id, label, status };
            Ok(
                with_agent(
                    s,
                    agent_id,
                    AgentModel { tools: upsert_spec(agent.tools, activity_id, tool), ..agent },
                ),
            )
        },
        EventModel::AttentionRequested { agent_id, attention_id, kind, summary } => if !has_key(
            s.agents,
            agent_id,
        ) {
            Err(ErrorModel::UnknownAgent(agent_id))
        } else {
            let request = AttentionModel { id: attention_id, agent_id, kind, summary };
            Ok(StateModel { attention: upsert_spec(s.attention, attention_id, request), ..s })
        },
        EventModel::MailDelivered { mail_id, from, to, summary } => if !has_key(s.agents, to) {
            Err(ErrorModel::UnknownAgent(to))
        } else {
            let agent = agent_of(s, to);
            let mail = MailModel { id: mail_id, from, summary };
            Ok(with_agent(s, to, AgentModel { inbox: upsert_spec(agent.inbox, mail_id, mail), ..agent }))
        },
        EventModel::ArtifactAnnounced { agent_id, artifact_id, label, pointer } => if !has_key(
            s.agents,
            agent_id,
        ) {
            Err(ErrorModel::UnknownAgent(agent_id))
        } else {
            let agent = agent_of(s, agent_id);
            let artifact = ArtifactModel { id: artifact_id, label, pointer };
            Ok(
                with_agent(
                    s,
                    agent_id,
                    AgentModel { artifacts: upsert_spec(agent.artifacts, artifact_id, artifact), ..agent },
                ),
            )
        },
        EventModel::RuntimeWarning { message } => Ok(
            with_notice(s, NoticeModel::RuntimeWarning { message }),
        ),
    }
}

/// What offering one event does: the projection after it and the outcome reported.
pub open spec fn apply_spec(s: StateModel, sequence: u64, e: EventModel) -> (StateModel, OutcomeModel) {
    let expected = expected_sequence(s.last_sequence);
    if sequence < expected {
        let error = ErrorModel::StaleSequence { expected: clamp_u64(expected), received: sequence };
        (with_notice(s, NoticeModel::Rejected { sequence, error }), OutcomeModel::Rejected(error))
    } else {
        let gapped = if sequence > expected {
            with_notice(
                s,
                NoticeModel::SequenceGap { expected: expected as u64, received: sequence },
            )
        } else {
            s
        };
        match event_step(gapped, e) {
            Ok(next) => (
                StateModel { last_sequence: Some(sequence), ..touched(next) },
                OutcomeModel::Accepted,
            ),
            Err(error) => (
                StateModel {
                    last_sequence: Some(sequence),
                    ..with_notice(gapped, NoticeModel::Rejected { sequence, error })
                },
                OutcomeModel::Rejected(error),
            ),
        }
    }
}

/// Revisioned, deterministic TUI projection.
#[derive(Debug)]
pub struct ViewState {
    revision: ViewRevision,
    last_sequence: Option<EventSequence>,
    agents: OrderedById<AgentView>,
    selected_agent: Option<AgentId>,
    attention: OrderedById<AttentionView>,
    notices: Vec<NoticeView>,
    notices_dropped: u64,
}

impl View for ViewState {
    type V = StateModel;

    closed spec fn view(&self) -> StateModel {
        StateModel {
            revision: self.revision.0,
            last_sequence: match self.last_sequence {
                Some(s) => Some(s.0),
                None => None,
            },
            agents: self.agents@,
            selected: match self.selected_agent {
                Some(id) => Some(id@),
                None => None,
            },
            attention: self.attention@,
            notices: self.notices@.map_values(|n: NoticeView| n@),
            dropped: self.notices_dropped,
        }
    }
}

/// The projection's invariant, as values: the notice log is bounded.
pub open spec fn model_wf(s: StateModel) -> bool {
    s.notices.len() <= NOTICE_CAPACITY
}

impl Default for ViewState {
    /// An empty projection at revision zero.
    fn default() -> (state: Self)
        ensures
            state.wf(),
            state@ == (StateModel {
                revision: 0,
                last_sequence: None,
                agents: Seq::empty(),
                selected: None,
                attention: Seq::empty(),
                notices: Seq::empty(),
                dropped: 0,
            }),
    {
        ViewState::new()
    }
}

impl ViewState {
    /// The collections are well formed and the notice log is bounded.
    pub closed spec fn wf(&self) -> bool {
        &&& self.agents.wf()
        &&& self.attention.wf()
        &&& forall|i: int| 0 <= i < self.agents.items().len() ==> #[trigger] self.agents.items()[i].wf()
        &&& self.notices@.len() <= NOTICE_CAPACITY
    }

    /// An empty projection at revision zero.
    pub fn new() -> (state: Self)
        ensures
            state.wf(),
            state@ == (StateModel {
                revision: 0,
                last_sequence: None,
                agents: Seq::empty(),
                selected: None,
                attention: Seq::empty(),
                notices: Seq::empty(),
                dropped: 0,
            }),
    {
        let state = ViewState {
            revision: ViewRevision(0),
            last_sequence: None,
            agents: OrderedById::new(),
            selected_agent: None,
            attention: OrderedById::new(),
            notices: Vec::new(),
            notices_dropped: 0,
        };
        assert(state@.notices =~= Seq::<NoticeModel>::empty());
        assert(state@.agents == Seq::<(Seq<char>, AgentModel)>::empty());
        assert(state@.attention == Seq::<(Seq<char>, AttentionModel)>::empty());
        state
    }

    /// Offers one ordered semantic event to the projection.
    pub fn apply(&mut self, envelope: PrototypeEventEnvelope) -> (outcome: ApplyOutcome)
        requires
            old(self).wf(),
        ensures
            final(self).wf(),
            (final(self)@, outcome@) == apply_spec(old(self)@, envelope.sequence.0, envelope.event@),
    {
        let sequence = envelope.sequence;
        let received = sequence.get();
        let stale = match self.last_sequence {
            Some(last) => received <= last.get(),
            None => received < 1,
        };
        if stale {
            let expected = match self.last_sequence {
                Some(last) => last.get().saturating_add(1),
                None => 1,
            };
            let error = ReduceError::StaleSequence { expected, received };
            self.push_notice(NoticeView::Rejected { sequence, error: error.clone_error() });
            return ApplyOutcome::Rejected(error);
        }
        let expected = match self.last_sequence {
            Some(last) => last.get() + 1,
            None => 1,
        };
        if received > expected {
            self.push_notice(NoticeView::SequenceGap { expected, received });
        }
        let outcome = match self.apply_event(envelope.event) {
            Ok(()) => {
                self.touch();
                ApplyOutcome::Accepted
            },
            Err(error) => {
                self.push_notice(NoticeView::Rejected { sequence, error: error.clone_error() });
                ApplyOutcome::Rejected(error)
            },
        };
        self.last_sequence = Some(sequence);
        outcome
    }

    /// Returns the current projection revision.
    pub fn revision(&self) -> (revision: ViewRevision)
        ensures
            revision.0 == self@.revision,
    {
        self.revision
    }

    /// Agents in creation order.
    pub fn agents(&self) -> (agents: &[AgentView])
        requires
            self.wf(),
        ensures
            agents@.len() == self@.agents.len(),
            forall|i: int| 0 <= i < agents@.len() ==> #[trigger] agents@[i]@ == self@.agents[i].1 && agents@[i].wf(),
    {
        proof {
            self.agents.lemma_items();
        }
        self.agents.iter()
    }

    /// The selected agent's projection, when one exists.
    pub fn selected_agent(&self) -> (agent: Option<&AgentView>)
        requires
            self.wf(),
        ensures
            agent is Some == (self@.selected matches Some(id) && has_key(self@.agents, id)),
            agent matches Some(a) ==> a@ == agent_of(self@, self@.selected->0) && a.wf(),
    {
        match &self.selected_agent {
            Some(id) => {
                let found = self.agents.get(id);
                proof {
                    if let Some(a) = found {
                        self.agents.lemma_items();
                        let p = key_pos(self.agents@, id@);
                        assert(self.agents.items()[p]@ == self.agents@[p].1);
                    }
                }
                found
            },
            None => None,
        }
    }

    /// Number of background requests awaiting attention.
    pub fn attention_count(&self) -> (count: usize)
        requires
            self.wf(),
        ensures
            count == self@.attention.len(),
    {
        self.attention.len()
    }

    /// Queued attention items in arrival order.
    pub fn attention(&self) -> (requests: &[AttentionView])
        requires
            self.wf(),
        ensures
            requests@.len() == self@.attention.len(),
            forall|i: int| 0 <= i < requests@.len() ==> #[trigger] requests@[i]@ == self@.attention[i].1,
    {
        proof {
            self.attention.lemma_items();
        }
        self.attention.iter()
    }

    /// Retained notices from oldest to newest.
    pub fn notices(&self) -> (notices: &[NoticeView])
        ensures
            notices@.map_values(|n: NoticeView| n@) == self@.notices,
    {
        self.notices.as_slice()
    }

    /// Number of notices discarded because the bounded log was full.
    pub fn notices_dropped(&self) -> (dropped: u64)
        ensures
            dropped == self@.dropped,
    {
        self.notices_dropped
    }

    /// Selects an existing agent without changing semantic runtime state. Selecting the agent
    /// already selected changes nothing the user can see, so the revision holds.
    pub fn select_agent(&mut self, agent_id: &AgentId) -> (result: Result<(), ReduceError>)
        requires
            old(self).wf(),
        ensures
            final(self).wf(),
            !has_key(old(self)@.agents, agent_id@) ==> (result matches Err(e) && e@ == ErrorModel::UnknownAgent(agent_id@))
                && final(self)@ == old(self)@,
            has_key(old(self)@.agents, agent_id@) ==> result is Ok,
            has_key(old(self)@.agents, agent_id@) && old(self)@.selected == Some(agent_id@)
                ==> final(self)@ == old(self)@,
            has_key(old(self)@.agents, agent_id@) && old(self)@.selected != Some(agent_id@)
                ==> final(self)@ == (StateModel { selected: Some(agent_id@), ..touched(old(self)@) }),
            final(self)@.revision >= old(self)@.revision,
    {
        if !self.agents.contains(agent_id) {
            return Err(ReduceError::UnknownAgent(agent_id.duplicate()));
        }
        let same = match &self.selected_agent {
            Some(current) => current.same(agent_id),
            None => false,
        };
        if same {
            return Ok(());
        }
        self.selected_agent = Some(agent_id.duplicate());
        self.touch();
        Ok(())
    }

    fn touch(&mut self)
        ensures
            final(self)@ == touched(old(self)@),
            final(self).wf() == old(self).wf(),
    {
        self.revision = ViewRevision(self.revision.0.saturating_add(1));
    }

    fn push_notice(&mut self, notice: NoticeView)
        requires
            old(self).wf(),
        ensures
            final(self).wf(),
            final(self)@ == with_notice(old(self)@, notice@),
    {
        let ghost n = notice@;
        if self.notices.len() == NOTICE_CAPACITY {
            self.notices.remove(0);
            self.notices_dropped = self.notices_dropped.saturating_add(1);
            self.notices.push(notice);
            proof {
                assert(self.notices@.map_values(|x: NoticeView| x@) =~= old(self)@.notices.drop_first().push(n));
            }
        } else {
            self.notices.push(notice);
            proof {
                assert(self.notices@.map_values(|x: NoticeView| x@) =~= old(self)@.notices.push(n));
            }
        }
        self.touch();
    }

    proof fn lemma_agent_slot(&self, ai: usize, id: Seq<char>)
        requires
            self.wf(),
            ai < self@.agents.len(),
            ai == key_pos(self@.agents, id),
            has_key(self@.agents, id),
        ensures
            self@.agents[ai as int].0 == id,
            self.agents.items()[ai as int]@ == agent_of(self@, id),
            self.agents.items()[ai as int].wf(),
            self.agents.items().len() == self@.agents.len(),
    {
        self.agents.lemma_items();
    }

    fn apply_event(&mut self, event: PrototypeEvent) -> (result: Result<(), ReduceError>)
        requires
            old(self).wf(),
        ensures
            final(self).wf(),
            match event_step(old(self)@, event@) {
                Ok(next) => result is Ok && final(self)@ == next,
                Err(e) => (result matches Err(r) && r@ == e) && final(self)@ == old(self)@,
            },
    {
        proof {
            self.agents.lemma_items();
        }
        match event {
            PrototypeEvent::AgentCreated { agent_id, label, status } => {
                if self.agents.contains(&agent_id) {
                    return Err(ReduceError::DuplicateAgent(agent_id));
                }
                if self.selected_agent.is_none() {
                    self.selected_agent = Some(agent_id.duplicate());
                }
                let key = agent_id.duplicate();
                let agent = AgentView::new(agent_id, label, status);
                self.agents.upsert(key, agent);
                proof {
                    self.agents.lemma_items();
                    assert forall|i: int| 0 <= i < self.agents.items().len() implies #[trigger] self.agents.items()[i].wf() by {
                        if i < old(self).agents.items().len() {
                            assert(self.agents.items()[i] == old(self).agents.items()[i]);
                        }
                    }
                    assert(self@.agents =~= upsert_spec(old(self)@.agents, key@, agent@));
                }
                Ok(())
            },
            PrototypeEvent::AgentStatusChanged { agent_id, status } => {
                let ai = match self.agents.index_of(&agent_id) {
                    Some(i) => i,
                    None => {
                        return Err(ReduceError::UnknownAgent(agent_id));
                    },
                };
                proof {
                    self.lemma_agent_slot(ai, agent_id@);
                }
                let agent = self.agents.get_mut_at(ai);
                agent.status = status;
                proof {
                    self.agents.lemma_items();
                    assert forall|i: int| 0 <= i < self.agents.items().len() implies #[trigger] self.agents.items()[i].wf() by {
                        if i != ai {
                            assert(self.agents.items()[i] == old(self).agents.items()[i]);
                        }
                    }
                }
                Ok(())
            },
            PrototypeEvent::TranscriptItemStarted { agent_id, item_id, role } => {
                let ai = match self.agents.index_of(&agent_id) {
                    Some(i) => i,
                    None => {
                        return Err(ReduceError::UnknownAgent(agent_id));
                    },
                };
                proof {
                    self.lemma_agent_slot(ai, agent_id@);
                }
                if self.agents.iter()[ai].items.contains(&item_id) {
                    return Err(ReduceError::DuplicateTranscriptItem(item_id));
                }
                let key = item_id.duplicate();
                let item = TranscriptItemView {
                    id: item_id,
                    role,
                    source: String::new(),
                    revision: 0,
                    finalized: false,
                };
                let agent = self.agents.get_mut_at(ai);
                agent.items.upsert(key, item);
                proof {
                    self.agents.lemma_items();
                    assert forall|i: int| 0 <= i < self.agents.items().len() implies #[trigger] self.agents.items()[i].wf() by {
                        if i != ai {
                            assert(self.agents.items()[i] == old(self).agents.items()[i]);
                        }
                    }
                }
                Ok(())
            },
            PrototypeEvent::TranscriptDelta { agent_id, item_id, item_revision, text } => {
                let ai = match self.agents.index_of(&agent_id) {
                    Some(i) => i,
                    None => {
                        return Err(ReduceError::UnknownAgent(agent_id));
                    },
                };
                proof {
                    self.lemma_agent_slot(ai, agent_id@);
                }
                let ii = match self.agents.iter()[ai].items.index_of(&item_id) {
                    Some(i) => i,
                    None => {
                        return Err(ReduceError::UnknownTranscriptItem(item_id));
                    },
                };
                proof {
                    self.agents.items()[ai as int].items.lemma_items();
                    let agent = agent_of(old(self)@, agent_id@);
                    assert(self.agents.items()[ai as int].items@ == agent.items);
                    assert(self.agents.items()[ai as int].items.items()[ii as int]@ == lookup(
                        agent.items,
                        item_id@,
                    ));
                }
                let current = self.agents.iter()[ai].items.iter()[ii].revision;
                if current == u64::MAX || item_revision != current + 1 {
                    let id = self.agents.iter()[ai].items.iter()[ii].id.duplicate();
                    return Err(
                        ReduceError::ItemRevisionGap {
                            item_id: id,
                            expected: current.saturating_add(1),
                            received: item_revision,
                        },
                    );
                }
                let agent = self.agents.get_mut_at(ai);
                let item = agent.items.get_mut_at(ii);
                item.source.append(text.as_str());
                item.revision = item_revision;
                proof {
                    self.agents.lemma_items();
                    assert forall|i: int| 0 <= i < self.agents.items().len() implies #[trigger] self.agents.items()[i].wf() by {
                        if i != ai {
                            assert(self.agents.items()[i] == old(self).agents.items()[i]);
                        }
                    }
                }
                Ok(())
            },
            PrototypeEvent::TranscriptItemFinalized { agent_id, item_id, item_revision } => {
                let ai = match self.agents.index_of(&agent_id) {
                    Some(i) => i,
                    None => {
                        return Err(ReduceError::UnknownAgent(agent_id));
                    },
                };
                proof {
                    self.lemma_agent_slot(ai, agent_id@);
                }
                let ii = match self.agents.iter()[ai].items.index_of(&item_id) {
                    Some(i) => i,
                    None => {
                        return Err(ReduceError::UnknownTranscriptItem(item_id));
                    },
                };
                proof {
                    self.agents.items()[ai as int].items.lemma_items();
                    let agent = agent_of(old(self)@, agent_id@);
                    assert(self.agents.items()[ai as int].items@ == agent.items);
                    assert(self.agents.items()[ai as int].items.items()[ii as int]@ == lookup(
                        agent.items,
                        item_id@,
                    ));
                }
                let current = self.agents.iter()[ai].items.iter()[ii].revision;
                if current == u64::MAX || item_revision != current + 1 {
                    let id = self.agents.iter()[ai].items.iter()[ii].id.duplicate();
                    return Err(
                        ReduceError::ItemRevisionGap {
                            item_id: id,
                            expected: current.saturating_add(1),
                            received: item_revision,
                        },
                    );
                }
                let agent = self.agents.get_mut_at(ai);
                let item = agent.items.get_mut_at(ii);
                item.finalized = true;
                item.revision = item_revision;
                proof {
                    self.agents.lemma_items();
                    assert forall|i: int| 0 <= i < self.agents.items().len() implies #[trigger] self.agents.items()[i].wf() by {
                        if i != ai {
                            assert(self.agents.items()[i] == old(self).agents.items()[i]);
                        }
                    }
                }
                Ok(())
            },
            PrototypeEvent::ToolActivityChanged { agent_id, activity_id, label, status } => {
                let ai = match self.agents.index_of(&agent_id) {
                    Some(i) => i,
                    None => {
                        return Err(ReduceError::UnknownAgent(agent_id));
                    },
                };
                proof {
                    self.lemma_agent_slot(ai, agent_id@);
                }
                let key = activity_id.duplicate();
                let tool = ToolActivityView { id: activity_id, label, status };
                let agent = self.agents.get_mut_at(ai);
                agent.tools.upsert(key, tool);
                proof {
                    self.agents.lemma_items();
                    assert forall|i: int| 0 <= i < self.agents.items().len() implies #[trigger] self.agents.items()[i].wf() by {
                        if i != ai {
                            assert(self.agents.items()[i] == old(self).agents.items()[i]);
                        }
                    }
                }
                Ok(())
            },
            PrototypeEvent::AttentionRequested { agent_id, attention_id, kind, summary } => {
                if !self.agents.contains(&agent_id) {
                    return Err(ReduceError::UnknownAgent(agent_id));
                }
                let key = attention_id.duplicate();
                let request = AttentionView { id: attention_id, agent_id, kind, summary };
                self.attention.upsert(key, request);
                Ok(())
            },
            PrototypeEvent::MailDelivered { mail_id, from, to, summary } => {
                let ai = match self.agents.index_of(&to) {
                    Some(i) => i,
                    None => {
                        return Err(ReduceError::UnknownAgent(to));
                    },
                };
                proof {
                    self.lemma_agent_slot(ai, to@);
                }
                let key = mail_id.duplicate();
                let mail = MailView { id: mail_id, from, summary };
                let agent = self.agents.get_mut_at(ai);
                agent.inbox.upsert(key, mail);
                proof {
                    self.agents.lemma_items();
                    assert forall|i: int| 0 <= i < self.agents.items().len() implies #[trigger] self.agents.items()[i].wf() by {
                        if i != ai {
                            assert(self.agents.items()[i] == old(self).agents.items()[i]);
                        }
                    }
                }
                Ok(())
            },
            PrototypeEvent::ArtifactAnnounced { agent_id, artifact_id, label, pointer } => {
                let ai = match self.agents.index_of(&agent_id) {
                    Some(i) => i,
                    None => {
                        return Err(ReduceError::UnknownAgent(agent_id));
                    },
                };
                proof {
                    self.lemma_agent_slot(ai, agent_id@);
                }
                let key = artifact_id.duplicate();
                let artifact = ArtifactView { id: artifact_id, label, pointer };
                let agent = self.agents.get_mut_at(ai);
                agent.artifacts.upsert(key, artifact);
                proof {
                    self.agents.lemma_items();
                    assert forall|i: int| 0 <= i < self.agents.items().len() implies #[trigger] self.agents.items()[i].wf() by {
                        if i != ai {
                            assert(self.agents.items()[i] == old(self).agents.items()[i]);
                        }
                    }
                }
                Ok(())
            },
            PrototypeEvent::RuntimeWarning { message } => {
                self.push_notice(NoticeView::RuntimeWarning { message });
                Ok(())
            },
        }
    }
}

/// Logging a notice advances the revision (unless it is already at its bound), keeps the log
/// bounded, and leaves the domain alone.
proof fn lemma_with_notice(s: StateModel, n: NoticeModel)
    ensures
        with_notice(s, n).revision == sat_inc(s.revision),
        model_wf(s) ==> model_wf(with_notice(s, n)),
        with_notice(s, n).agents == s.agents,
        with_notice(s, n).attention == s.attention,
        with_notice(s, n).selected == s.selected,
        with_notice(s, n).last_sequence == s.last_sequence,
        with_notice(s, n).notices.len() > 0,
        with_notice(s, n).notices.last() == n,
{
}

/// Whether `after`'s keys are `before`'s, or `before`'s with one more at the end.
pub open spec fn keeps_arrival_order(before: Seq<Seq<char>>, after: Seq<Seq<char>>) -> bool {
    after == before || (after.len() == before.len() + 1 && after.subrange(0, before.len() as int) == before)
}

proof fn lemma_agent_keys_after_update(s: StateModel, id: Seq<char>, agent: AgentModel)
    requires
        has_key(s.agents, id),
    ensures
        keys_of(with_agent(s, id, agent).agents) == keys_of(s.agents),
{
    let p = key_pos(s.agents, id);
    assert(keys_of(with_agent(s, id, agent).agents) =~= keys_of(s.agents));
}

/// What one accepted event step keeps: the sequence position, the selection once made, a
/// bounded log, and the arrival order of agents and requests.
proof fn lemma_event_step(s: StateModel, e: EventModel)
    ensures
        event_step(s, e) matches Ok(n) ==> {
            &&& n.last_sequence == s.last_sequence
            &&& n.revision >= s.revision
            &&& (model_wf(s) ==> model_wf(n))
            &&& (s.selected is Some ==> n.selected == s.selected)
            &&& keeps_arrival_order(keys_of(s.agents), keys_of(n.agents))
            &&& keeps_arrival_order(keys_of(s.attention), keys_of(n.attention))
        },
{
    match e {
        EventModel::AgentCreated { agent_id, label, status } => {
            if !has_key(s.agents, agent_id) {
                let n = s.agents.push((agent_id, new_agent(agent_id, label, status)));
                assert(keys_of(n) =~= keys_of(s.agents).push(agent_id));
                assert(keys_of(n).subrange(0, keys_of(s.agents).len() as int) =~= keys_of(s.agents));
            }
        },
        EventModel::AgentStatusChanged { agent_id, status } => {
            if has_key(s.agents, agent_id) {
                lemma_agent_keys_after_update(s, agent_id, AgentModel { status, ..agent_of(s, agent_id) });
            }
        },
        EventModel::TranscriptItemStarted { agent_id, item_id, role } => {
            if has_key(s.agents, agent_id) {
                let agent = agent_of(s, agent_id);
                let item = ItemModel { id: item_id, role, source: Seq::empty(), revision: 0, finalized: false };
                lemma_agent_keys_after_update(s, agent_id, AgentModel { items: agent.items.push((item_id, item)), ..agent });
            }
        },
        EventModel::TranscriptDelta { agent_id, item_id, item_revision, text } => {
            if has_key(s.agents, agent_id) && has_key(agent_of(s, agent_id).items, item_id) {
                let agent = agent_of(s, agent_id);
                let item = lookup(agent.items, item_id);
                let next = ItemModel { source: item.source + text, revision: item_revision, ..item };
                lemma_agent_keys_after_update(s, agent_id, AgentModel {
                    items: agent.items.update(key_pos(agent.items, item_id), (item_id, next)),
                    ..agent
                });
            }
        },
        EventModel::TranscriptItemFinalized { agent_id, item_id, item_revision } => {
            if has_key(s.agents, agent_id) && has_key(agent_of(s, agent_id).items, item_id) {
                let agent = agent_of(s, agent_id);
                let item = lookup(agent.items, item_id);
                let next = ItemModel { finalized: true, revision: item_revision, ..item };
                lemma_agent_keys_after_update(s, agent_id, AgentModel {
                    items: agent.items.update(key_pos(agent.items, item_id), (item_id, next)),
                    ..agent
                });
            }
        },
        EventModel::ToolActivityChanged { agent_id, activity_id, label, status } => {
            if has_key(s.agents, agent_id) {
                let agent = agent_of(s, agent_id);
                let tool = ToolModel { id: activity_id, label, status };
                lemma_agent_keys_after_update(s, agent_id, AgentModel { tools: upsert_spec(agent.tools, activity_id, tool), ..agent });
            }
        },
        EventModel::AttentionRequested { agent_id, attention_id, kind, summary } => {
            if has_key(s.agents, agent_id) {
                let request = AttentionModel { id: attention_id, agent_id, kind, summary };
                let n = upsert_spec(s.attention, attention_id, request);
                if has_key(s.attention, attention_id) {
                    assert(keys_of(n) =~= keys_of(s.attention));
                } else {
                    assert(keys_of(n) =~= keys_of(s.attention).push(attention_id));
                    assert(keys_of(n).subrange(0, keys_of(s.attention).len() as int) =~= keys_of(s.attention));
                }
            }
        },
        EventModel::MailDelivered { mail_id, from, to, summary } => {
            if has_key(s.agents, to) {
                let agent = agent_of(s, to);
                let mail = MailModel { id: mail_id, from, summary };
                lemma_agent_keys_after_update(s, to, AgentModel { inbox: upsert_spec(agent.inbox, mail_id, mail), ..agent });
            }
        },
        EventModel::ArtifactAnnounced { agent_id, artifact_id, label, pointer } => {
            if has_key(s.agents, agent_id) {
                let agent = agent_of(s, agent_id);
                let artifact = ArtifactModel { id: artifact_id, label, pointer };
                lemma_agent_keys_after_update(s, agent_id, AgentModel { artifacts: upsert_spec(agent.artifacts, artifact_id, artifact), ..agent });
            }
        },
        EventModel::RuntimeWarning { message } => {
            lemma_with_notice(s, NoticeModel::RuntimeWarning { message });
        },
    }
}

/// Every offered event is a visible change: the revision never moves back, and it advances on
/// every offer until it reaches its bound.
pub proof fn law_revision_advances(s: StateModel, sequence: u64, e: EventModel)
    ensures
        apply_spec(s, sequence, e).0.revision >= s.revision,
        s.revision < u64::MAX ==> apply_spec(s, sequence, e).0.revision > s.revision,
{
    lemma_apply_facts(s, sequence, e);
}

/// The projection never rewinds: the sequence it expects next never decreases, and an accepted
/// or content-rejected event consumes its sequence.
pub proof fn law_sequence_never_rewinds(s: StateModel, sequence: u64, e: EventModel)
    ensures
        expected_sequence(apply_spec(s, sequence, e).0.last_sequence) >= expected_sequence(s.last_sequence),
        sequence >= expected_sequence(s.last_sequence) ==> apply_spec(s, sequence, e).0.last_sequence == Some(sequence),
{
    lemma_apply_facts(s, sequence, e);
}

/// A stale sequence is rejected by name and changes nothing but the notice log and the revision.
pub proof fn law_stale_is_rejected_without_rewinding(s: StateModel, sequence: u64, e: EventModel)
    requires
        sequence < expected_sequence(s.last_sequence),
    ensures
        apply_spec(s, sequence, e).1 == OutcomeModel::Rejected(ErrorModel::StaleSequence {
            expected: clamp_u64(expected_sequence(s.last_sequence)),
            received: sequence,
        }),
        apply_spec(s, sequence, e).0.last_sequence == s.last_sequence,
        apply_spec(s, sequence, e).0.agents == s.agents,
        apply_spec(s, sequence, e).0.attention == s.attention,
        apply_spec(s, sequence, e).0.selected == s.selected,
{
    lemma_with_notice(s, NoticeModel::Rejected {
        sequence,
        error: ErrorModel::StaleSequence { expected: clamp_u64(expected_sequence(s.last_sequence)), received: sequence },
    });
}

/// A rejected event leaves no partially applied state behind, and is answered with a notice
/// that names it; a defective event does not block the rest of the stream.
pub proof fn law_rejection_is_whole_and_visible(s: StateModel, sequence: u64, e: EventModel)
    ensures
        apply_spec(s, sequence, e).1 matches OutcomeModel::Rejected(error) ==> {
            &&& apply_spec(s, sequence, e).0.agents == s.agents
            &&& apply_spec(s, sequence, e).0.attention == s.attention
            &&& apply_spec(s, sequence, e).0.selected == s.selected
            &&& apply_spec(s, sequence, e).0.notices.len() > 0
            &&& apply_spec(s, sequence, e).0.notices.last() == NoticeModel::Rejected { sequence, error }
        },
{
    lemma_apply_facts(s, sequence, e);
}

/// The notice log stays bounded, whatever the producer sends.
pub proof fn law_notice_log_is_bounded(s: StateModel, sequence: u64, e: EventModel)
    requires
        model_wf(s),
    ensures
        model_wf(apply_spec(s, sequence, e).0),
{
    lemma_apply_facts(s, sequence, e);
}

/// Display order follows arrival: existing agents and requests keep their places, and a new one
/// joins at the end. A selection, once made, is kept: an agent appearing in the background never
/// takes it.
pub proof fn law_arrival_order_and_selection(s: StateModel, sequence: u64, e: EventModel)
    ensures
        keeps_arrival_order(keys_of(s.agents), keys_of(apply_spec(s, sequence, e).0.agents)),
        keeps_arrival_order(keys_of(s.attention), keys_of(apply_spec(s, sequence, e).0.attention)),
        s.selected is Some ==> apply_spec(s, sequence, e).0.selected == s.selected,
{
    lemma_apply_facts(s, sequence, e);
}

proof fn lemma_apply_facts(s: StateModel, sequence: u64, e: EventModel)
    ensures
        ({
            let (r, outcome) = apply_spec(s, sequence, e);
            &&& r.revision >= s.revision
            &&& (s.revision < u64::MAX ==> r.revision > s.revision)
            &&& expected_sequence(r.last_sequence) >= expected_sequence(s.last_sequence)
            &&& (sequence >= expected_sequence(s.last_sequence) ==> r.last_sequence == Some(sequence))
            &&& (model_wf(s) ==> model_wf(r))
            &&& keeps_arrival_order(keys_of(s.agents), keys_of(r.agents))
            &&& keeps_arrival_order(keys_of(s.attention), keys_of(r.attention))
            &&& (s.selected is Some ==> r.selected == s.selected)
            &&& (outcome matches OutcomeModel::Rejected(error) ==> {
                &&& r.agents == s.agents
                &&& r.attention == s.attention
                &&& r.selected == s.selected
                &&& r.notices.len() > 0
                &&& r.notices.last() == NoticeModel::Rejected { sequence, error }
            })
        }),
{
    let expected = expected_sequence(s.last_sequence);
    if sequence < expected {
        let error = ErrorModel::StaleSequence { expected: clamp_u64(expected), received: sequence };
        lemma_with_notice(s, NoticeModel::Rejected { sequence, error });
    } else {
        let gapped = if sequence > expected {
            lemma_with_notice(s, NoticeModel::SequenceGap { expected: expected as u64, received: sequence });
            with_notice(s, NoticeModel::SequenceGap { expected: expected as u64, received: sequence })
        } else {
            s
        };
        lemma_event_step(gapped, e);
        match event_step(gapped, e) {
            Ok(next) => {},
            Err(error) => {
                lemma_with_notice(gapped, NoticeModel::Rejected { sequence, error });
            },
        }
    }
}

/// The projection after offering `envelopes` in order, each a sequence number and an event, and
/// the outcomes in the same order.
pub open spec fn applied_all(s: StateModel, envelopes: Seq<(u64, EventModel)>) -> (StateModel, Seq<OutcomeModel>)
    decreases envelopes.len(),
{
    if envelopes.len() == 0 {
        (s, Seq::empty())
    } else {
        let (before, outcomes) = applied_all(s, envelopes.drop_last());
        let (after, outcome) = apply_spec(before, envelopes.last().0, envelopes.last().1);
        (after, outcomes.push(outcome))
    }
}

/// The projection is a pure reduction of the envelopes: two equal projections fed the same
/// envelopes give the same outcomes and end equal.
pub proof fn law_the_projection_is_a_pure_reduction(
    a: StateModel,
    b: StateModel,
    envelopes: Seq<(u64, EventModel)>,
)
    requires
        a == b,
    ensures
        applied_all(a, envelopes) == applied_all(b, envelopes),
{
}

/// Whatever envelopes arrive, the revision never decreases.
pub proof fn law_the_revision_never_decreases(s: StateModel, envelopes: Seq<(u64, EventModel)>)
    ensures
        applied_all(s, envelopes).0.revision >= s.revision,
    decreases envelopes.len(),
{
    if envelopes.len() > 0 {
        law_the_revision_never_decreases(s, envelopes.drop_last());
        let before = applied_all(s, envelopes.drop_last()).0;
        law_revision_advances(before, envelopes.last().0, envelopes.last().1);
    }
}

} // verus!

//! Deciding whether one conversation event belongs in the projection, and where it goes: stream
//! ordering, the typed reasons an event is refused, which agent owns each entry, and whether an
//! accepted event changed anything the user can see.
use vstd::prelude::*;

use crate::agent::{
    opened_item, text_refusal, tool_refusal, with_delta, with_finalized, with_tool, AgentValue,
    AgentView, Entries, ReduceError, Refusal,
};
use crate::entry::{ArtifactValue, EntryValue, MailValue, ServerCallValue, ServerToolCall, ServerToolValue, TaskValue, TextValue, ToolCallStatus, TranscriptTextKind};
use crate::approval::{fresh_card, with_background, with_primary, ApprovalSurface, SurfaceModel};
use crate::attention::{clamped_cursor, AttentionEntry, AttentionQueue, AttentionRequest, AttentionView, RequestModel};
use crate::focus::Focus;
use crate::ids::{AgentId, ArtifactId, AttentionId, Identity, MailId, ToolCallId, TranscriptItemId, TurnId};
use crate::surface::SurfaceId;
use crate::ordered::{has_key, key_pos, lookup, upsert_spec, OrderedById};
use crate::view::{clamp_u64, expected_sequence, sat_inc, AgentStatus, TranscriptRole, NOTICE_CAPACITY};

verus! {

/// Token counts of one turn.
#[derive(Clone, Copy, Debug, PartialEq, Eq, Structural)]
pub struct TokenCounts {
    pub input: u64,
    pub cached_input: Option<u64>,
    pub cache_write_input: Option<u64>,
    pub output: u64,
    pub reasoning_output: Option<u64>,
    pub total: u64,
}

/// What a producer reported of a turn's token use: counts so far, or the turn's final counts.
#[derive(Clone, Copy, Debug, PartialEq, Eq, Structural)]
pub enum TokenUsage {
    Partial(TokenCounts),
    Complete(TokenCounts),
}

/// The latest usage reported for an agent, with the turn it belongs to.
#[derive(Debug)]
pub struct TurnUsage {
    pub turn_id: TurnId,
    pub usage: TokenUsage,
}

impl View for TurnUsage {
    type V = (Seq<char>, TokenUsage);

    open spec fn view(&self) -> (Seq<char>, TokenUsage) {
        (self.turn_id@, self.usage)
    }
}

/// One semantic event from the agents' runtime.
#[derive(Debug)]
pub enum ConversationEvent {
    AgentCreated { agent_id: AgentId, label: String, status: AgentStatus },
    AgentStatusChanged { agent_id: AgentId, status: AgentStatus },
    TurnUsageUpdated { agent_id: AgentId, turn_id: TurnId, usage: TokenUsage },
    TranscriptItemStarted { agent_id: AgentId, item_id: TranscriptItemId, role: TranscriptRole },
    TranscriptDelta { agent_id: AgentId, item_id: TranscriptItemId, item_revision: u64, text: String },
    TranscriptItemFinalized { agent_id: AgentId, item_id: TranscriptItemId, item_revision: u64 },
    ToolCallChanged {
        agent_id: AgentId,
        item_id: TranscriptItemId,
        item_revision: u64,
        call_id: ToolCallId,
        label: String,
        status: ToolCallStatus,
        presentation: String,
    },
    MailDelivered {
        agent_id: AgentId,
        item_id: TranscriptItemId,
        mail_id: MailId,
        from: AgentId,
        to: AgentId,
        summary: String,
    },
    ServerToolCalled { agent_id: AgentId, item_id: TranscriptItemId, call: ServerToolCall },
    TaskAssigned { agent_id: AgentId, item_id: TranscriptItemId, from: AgentId, to: AgentId, task: String },
    ArtifactAnnounced {
        agent_id: AgentId,
        item_id: TranscriptItemId,
        artifact_id: ArtifactId,
        label: String,
        pointer: String,
    },
    RuntimeWarning { agent_id: AgentId, item_id: TranscriptItemId, message: String },
    RuntimeError { agent_id: AgentId, item_id: TranscriptItemId, message: String },
    AttentionRequested { agent_id: AgentId, attention_id: AttentionId, request: AttentionRequest },
    AttentionResolved { agent_id: AgentId, attention_id: AttentionId },
}

/// An event, as values.
pub enum EventValue {
    AgentCreated { agent_id: Seq<char>, label: Seq<char>, status: AgentStatus },
    AgentStatusChanged { agent_id: Seq<char>, status: AgentStatus },
    TurnUsageUpdated { agent_id: Seq<char>, turn_id: Seq<char>, usage: TokenUsage },
    TranscriptItemStarted { agent_id: Seq<char>, item_id: Seq<char>, role: TranscriptRole },
    TranscriptDelta { agent_id: Seq<char>, item_id: Seq<char>, item_revision: u64, text: Seq<char> },
    TranscriptItemFinalized { agent_id: Seq<char>, item_id: Seq<char>, item_revision: u64 },
    ToolCallChanged {
        agent_id: Seq<char>,
        item_id: Seq<char>,
        item_revision: u64,
        call_id: Seq<char>,
        label: Seq<char>,
        status: ToolCallStatus,
        presentation: Seq<char>,
    },
    MailDelivered {
        agent_id: Seq<char>,
        item_id: Seq<char>,
        mail_id: Seq<char>,
        from: Seq<char>,
        to: Seq<char>,
        summary: Seq<char>,
    },
    ServerToolCalled { agent_id: Seq<char>, item_id: Seq<char>, call: ServerCallValue },
    TaskAssigned { agent_id: Seq<char>, item_id: Seq<char>, from: Seq<char>, to: Seq<char>, task: Seq<char> },
    ArtifactAnnounced {
        agent_id: Seq<char>,
        item_id: Seq<char>,
        artifact_id: Seq<char>,
        label: Seq<char>,
        pointer: Seq<char>,
    },
    RuntimeMessage { agent_id: Seq<char>, item_id: Seq<char>, message: Seq<char>, error: bool },
    AttentionRequested { agent_id: Seq<char>, attention_id: Seq<char>, request: RequestModel },
    AttentionResolved { agent_id: Seq<char>, attention_id: Seq<char> },
}

impl View for ConversationEvent {
    type V = EventValue;

    open spec fn view(&self) -> EventValue {
        match self {
            ConversationEvent::AgentCreated { agent_id, label, status } => EventValue::AgentCreated {
                agent_id: agent_id@,
                label: label@,
                status: *status,
            },
            ConversationEvent::AgentStatusChanged { agent_id, status } =>
                EventValue::AgentStatusChanged { agent_id: agent_id@, status: *status },
            ConversationEvent::TurnUsageUpdated { agent_id, turn_id, usage } =>
                EventValue::TurnUsageUpdated { agent_id: agent_id@, turn_id: turn_id@, usage: *usage },
            ConversationEvent::TranscriptItemStarted { agent_id, item_id, role } =>
                EventValue::TranscriptItemStarted { agent_id: agent_id@, item_id: item_id@, role: *role },
            ConversationEvent::TranscriptDelta { agent_id, item_id, item_revision, text } =>
                EventValue::TranscriptDelta {
                agent_id: agent_id@,
                item_id: item_id@,
                item_revision: *item_revision,
                text: text@,
            },
            ConversationEvent::TranscriptItemFinalized { agent_id, item_id, item_revision } =>
                EventValue::TranscriptItemFinalized {
                agent_id: agent_id@,
                item_id: item_id@,
                item_revision: *item_revision,
            },
            ConversationEvent::ToolCallChanged {
                agent_id,
                item_id,
                item_revision,
                call_id,
                label,
                status,
                presentation,
            } => EventValue::ToolCallChanged {
                agent_id: agent_id@,
                item_id: item_id@,
                item_revision: *item_revision,
                call_id: call_id@,
                label: label@,
                status: *status,
                presentation: presentation@,
            },
            ConversationEvent::MailDelivered { agent_id, item_id, mail_id, from, to, summary } =>
                EventValue::MailDelivered {
                agent_id: agent_id@,
                item_id: item_id@,
                mail_id: mail_id@,
                from: from@,
                to: to@,
                summary: summary@,
            },
            ConversationEvent::ServerToolCalled { agent_id, item_id, call } =>
                EventValue::ServerToolCalled { agent_id: agent_id@, item_id: item_id@, call: call@ },
            ConversationEvent::TaskAssigned { agent_id, item_id, from, to, task } =>
                EventValue::TaskAssigned { agent_id: agent_id@, item_id: item_id@, from: from@, to: to@, task: task@ },
            ConversationEvent::ArtifactAnnounced { agent_id, item_id, artifact_id, label, pointer } =>
                EventValue::ArtifactAnnounced {
                agent_id: agent_id@,
                item_id: item_id@,
                artifact_id: artifact_id@,
                label: label@,
                pointer: pointer@,
            },
            ConversationEvent::RuntimeWarning { agent_id, item_id, message } =>
                EventValue::RuntimeMessage {
                agent_id: agent_id@,
                item_id: item_id@,
                message: message@,
                error: false,
            },
            ConversationEvent::RuntimeError { agent_id, item_id, message } =>
                EventValue::RuntimeMessage {
                agent_id: agent_id@,
                item_id: item_id@,
                message: message@,
                error: true,
            },
            ConversationEvent::AttentionRequested { agent_id, attention_id, request } =>
                EventValue::AttentionRequested {
                agent_id: agent_id@,
                attention_id: attention_id@,
                request: request@,
            },
            ConversationEvent::AttentionResolved { agent_id, attention_id } =>
                EventValue::AttentionResolved { agent_id: agent_id@, attention_id: attention_id@ },
        }
    }
}

/// One event with the producer's position of it in its stream.
#[derive(Debug)]
pub struct ConversationEventEnvelope {
    pub sequence: u64,
    pub event: ConversationEvent,
}

/// A visible record of an ordering defect or a refused event.
#[derive(Debug)]
pub enum Notice {
    SequenceGap { expected: u64, received: u64 },
    Rejected { sequence: u64, error: ReduceError },
}

/// A notice, as values.
pub enum NoticeValue {
    SequenceGap { expected: u64, received: u64 },
    Rejected { sequence: u64, error: Refusal },
}

impl View for Notice {
    type V = NoticeValue;

    open spec fn view(&self) -> NoticeValue {
        match self {
            Notice::SequenceGap { expected, received } => NoticeValue::SequenceGap {
                expected: *expected,
                received: *received,
            },
            Notice::Rejected { sequence, error } => NoticeValue::Rejected { sequence: *sequence, error: error@ },
        }
    }
}

/// Whether the event was applied.
#[derive(Debug)]
pub enum ApplyOutcome {
    Accepted,
    Rejected(ReduceError),
}

/// An outcome, as values.
pub enum OutcomeValue {
    Accepted,
    Rejected(Refusal),
}

impl View for ApplyOutcome {
    type V = OutcomeValue;

    open spec fn view(&self) -> OutcomeValue {
        match self {
            ApplyOutcome::Accepted => OutcomeValue::Accepted,
            ApplyOutcome::Rejected(e) => OutcomeValue::Rejected(e@),
        }
    }
}

/// The projection, as values.
pub struct ProjectionValue {
    pub revision: u64,
    pub last_sequence: Option<u64>,
    pub agents: Seq<(Seq<char>, AgentValue)>,
    pub owners: Seq<(Seq<char>, Seq<char>)>,
    /// The latest usage reported for each agent, kept for diagnostics; nothing paints it.
    pub usage: Seq<(Seq<char>, (Seq<char>, TokenUsage))>,
    /// The requests waiting for the user, keyed by identity, in arrival order.
    pub attention: Seq<(Seq<char>, AttentionEntry)>,
    /// Which request the user is on, as stored.
    pub attention_cursor: int,
    /// The approval cards that are open.
    pub approval: SurfaceModel,
    /// The surface the user's focus prefers.
    pub focus: Option<SurfaceId>,
    pub notices: Seq<NoticeValue>,
    pub dropped: u64,
}

/// The projection with its revision advanced.
pub open spec fn touched(p: ProjectionValue) -> ProjectionValue {
    ProjectionValue { revision: sat_inc(p.revision), ..p }
}

/// The projection with `notice` logged, the oldest discarded and counted once the log is full;
/// a notice is visible, so the revision advances.
pub open spec fn noticed(p: ProjectionValue, notice: NoticeValue) -> ProjectionValue {
    if p.notices.len() >= NOTICE_CAPACITY {
        touched(ProjectionValue { notices: p.notices.drop_first().push(notice), dropped: sat_inc(p.dropped), ..p })
    } else {
        touched(ProjectionValue { notices: p.notices.push(notice), ..p })
    }
}

/// Why an entry event of agent `agent` for `item` is refused before it reaches the agent: another
/// agent owns the entry, or the agent is unknown.
pub open spec fn entry_refusal(p: ProjectionValue, agent: Seq<char>, item: Seq<char>) -> Option<Refusal> {
    if has_key(p.owners, item) && lookup(p.owners, item) != agent {
        Some(Refusal::EntryOwnerMismatch { item_id: item, expected: lookup(p.owners, item), received: agent })
    } else if !has_key(p.agents, agent) {
        Some(Refusal::UnknownAgent(agent))
    } else {
        None
    }
}

/// `p` with the transcript of `agent` replaced by `entries`, and, when `remember`, `item`
/// recorded as owned by `agent` if no owner was recorded yet.
pub open spec fn filed(p: ProjectionValue, agent: Seq<char>, item: Seq<char>, entries: Entries, remember: bool) -> ProjectionValue {
    let a = lookup(p.agents, agent);
    ProjectionValue {
        agents: p.agents.update(key_pos(p.agents, agent), (agent, AgentValue { entries, ..a })),
        owners: if remember && !has_key(p.owners, item) { p.owners.push((item, agent)) } else { p.owners },
        ..p
    }
}

/// The transcript of a known agent.
pub open spec fn entries_of(p: ProjectionValue, agent: Seq<char>) -> Entries {
    lookup(p.agents, agent).entries
}

/// An entry that arrives once, whole: refused when its identity is already in the transcript.
pub open spec fn terminal_step(p: ProjectionValue, agent: Seq<char>, item: Seq<char>, entry: EntryValue) -> Result<(ProjectionValue, bool), Refusal> {
    if has_key(entries_of(p, agent), item) {
        Err(Refusal::DuplicateTranscriptItem(item))
    } else {
        Ok((filed(p, agent, item, entries_of(p, agent).push((item, entry)), true), true))
    }
}

/// The primary conversation: the agent that arrived first.
pub open spec fn primary_of(p: ProjectionValue) -> Option<Seq<char>> {
    if p.agents.len() > 0 {
        Some(p.agents[0].0)
    } else {
        None
    }
}

/// The first queued approval request `agent` raised, by identity.
pub open spec fn first_approval_from(items: Seq<(Seq<char>, AttentionEntry)>, agent: Seq<char>) -> Option<Seq<char>>
    decreases items.len(),
{
    if items.len() == 0 {
        None
    } else if items[0].1.agent_id == agent && items[0].1.request is Approval {
        Some(items[0].1.id)
    } else {
        first_approval_from(items.drop_first(), agent)
    }
}

/// The primary conversation's oldest approval request opens as its inline card, with focus on
/// it, unless a card is already open there: one card drains the queue, and a later arrival never
/// replaces it. Also whether a card opened.
pub open spec fn opened_next(p: ProjectionValue) -> (ProjectionValue, bool) {
    if p.approval.primary is Some {
        (p, false)
    } else {
        match primary_of(p) {
            None => (p, false),
            Some(agent) => match first_approval_from(p.attention, agent) {
                None => (p, false),
                Some(id) => (ProjectionValue {
                    approval: with_primary(p.approval, Some(fresh_card(id, SurfaceId::Composer))),
                    focus: Some(SurfaceId::Approval),
                    ..p
                }, true),
            },
        }
    }
}

/// The queue with the request `id` resolved, and where its cursor then stands.
pub open spec fn resolved_queue(items: Seq<(Seq<char>, AttentionEntry)>, cursor: int, id: Seq<char>) -> (Seq<(Seq<char>, AttentionEntry)>, int) {
    if has_key(items, id) {
        let i = key_pos(items, id);
        let shifted = if i < cursor { cursor - 1 } else { cursor };
        let rest = items.remove(i);
        (rest, clamped_cursor(shifted, rest.len() as int))
    } else {
        (items, cursor)
    }
}

/// The cards with the one on the resolved request `id` closed, and where focus returns: a visited
/// card is dismissed; a primary card closes, returning focus only when no visited card stands
/// over it.
pub open spec fn resolved_cards(s: SurfaceModel, id: Seq<char>) -> (SurfaceModel, Option<SurfaceId>) {
    if s.background is Some && s.background->0.attention_id == id {
        (with_background(s, None), Some(s.background->0.return_focus))
    } else if s.primary is Some && s.primary->0.attention_id == id {
        (with_primary(s, None), if s.background is None { Some(s.primary->0.return_focus) } else { None })
    } else {
        (s, None)
    }
}

/// What one event does to the projection, and whether the user can see it; or why it is refused,
/// leaving the projection as it was.
pub open spec fn event_step(p: ProjectionValue, e: EventValue) -> Result<(ProjectionValue, bool), Refusal> {
    match e {
        EventValue::AgentCreated { agent_id, label, status } => if has_key(p.agents, agent_id) {
            Err(Refusal::DuplicateAgent(agent_id))
        } else {
            Ok((ProjectionValue {
                agents: p.agents.push((agent_id, AgentValue { id: agent_id, label, status, entries: Seq::empty() })),
                ..p
            }, true))
        },
        EventValue::AgentStatusChanged { agent_id, status } => if !has_key(p.agents, agent_id) {
            Err(Refusal::UnknownAgent(agent_id))
        } else {
            let a = lookup(p.agents, agent_id);
            Ok((ProjectionValue {
                agents: p.agents.update(key_pos(p.agents, agent_id), (agent_id, AgentValue { status, ..a })),
                ..p
            }, a.status != status))
        },
        EventValue::TurnUsageUpdated { agent_id, turn_id, usage } => if !has_key(p.agents, agent_id) {
            Err(Refusal::UnknownAgent(agent_id))
        } else {
            Ok((ProjectionValue { usage: upsert_spec(p.usage, agent_id, (turn_id, usage)), ..p }, false))
        },
        EventValue::TranscriptItemStarted { agent_id, item_id, role } => match entry_refusal(p, agent_id, item_id) {
            Some(r) => Err(r),
            None => terminal_step(p, agent_id, item_id, opened_item(item_id, role)),
        },
        EventValue::TranscriptDelta { agent_id, item_id, item_revision, text } => match entry_refusal(p, agent_id, item_id) {
            Some(r) => Err(r),
            None => match text_refusal(entries_of(p, agent_id), item_id, item_revision) {
                Some(r) => Err(r),
                None => Ok((filed(p, agent_id, item_id, with_delta(entries_of(p, agent_id), item_id, item_revision, text), false), true)),
            },
        },
        EventValue::TranscriptItemFinalized { agent_id, item_id, item_revision } => match entry_refusal(p, agent_id, item_id) {
            Some(r) => Err(r),
            None => match text_refusal(entries_of(p, agent_id), item_id, item_revision) {
                Some(r) => Err(r),
                None => Ok((filed(p, agent_id, item_id, with_finalized(entries_of(p, agent_id), item_id, item_revision), false), true)),
            },
        },
        EventValue::ToolCallChanged { agent_id, item_id, item_revision, call_id, label, status, presentation } =>
            match entry_refusal(p, agent_id, item_id) {
            Some(r) => Err(r),
            None => match tool_refusal(entries_of(p, agent_id), item_id, item_revision, call_id, label, status) {
                Some(r) => Err(r),
                None => Ok((filed(p, agent_id, item_id, with_tool(entries_of(p, agent_id), item_id, item_revision, call_id, label, status, presentation), true), true)),
            },
        },
        EventValue::MailDelivered { agent_id, item_id, mail_id, from, to, summary } => if !has_key(p.agents, from) {
            Err(Refusal::UnknownAgent(from))
        } else if !has_key(p.agents, to) {
            Err(Refusal::UnknownAgent(to))
        } else {
            match entry_refusal(p, agent_id, item_id) {
                Some(r) => Err(r),
                None => terminal_step(p, agent_id, item_id, EntryValue::Mail(MailValue {
                    entry_id: item_id,
                    id: mail_id,
                    owner: lookup(p.agents, agent_id).id,
                    from,
                    to,
                    summary,
                    revision: 0,
                })),
            }
        },
        EventValue::ServerToolCalled { agent_id, item_id, call } => match entry_refusal(p, agent_id, item_id) {
            Some(r) => Err(r),
            None => terminal_step(p, agent_id, item_id, EntryValue::ServerTool(ServerToolValue {
                entry_id: item_id,
                call,
                revision: 0,
            })),
        },
        EventValue::TaskAssigned { agent_id, item_id, from, to, task } => if !has_key(p.agents, from) {
            Err(Refusal::UnknownAgent(from))
        } else if !has_key(p.agents, to) {
            Err(Refusal::UnknownAgent(to))
        } else {
            match entry_refusal(p, agent_id, item_id) {
                Some(r) => Err(r),
                None => terminal_step(p, agent_id, item_id, EntryValue::Task(TaskValue {
                    entry_id: item_id,
                    owner: lookup(p.agents, agent_id).id,
                    from,
                    to,
                    task,
                    revision: 0,
                })),
            }
        },
        EventValue::ArtifactAnnounced { agent_id, item_id, artifact_id, label, pointer } => match entry_refusal(p, agent_id, item_id) {
            Some(r) => Err(r),
            None => terminal_step(p, agent_id, item_id, EntryValue::Artifact(ArtifactValue {
                entry_id: item_id,
                id: artifact_id,
                label,
                pointer,
                revision: 0,
            })),
        },
        EventValue::AttentionRequested { agent_id, attention_id, request } => if !has_key(p.agents, agent_id) {
            Err(Refusal::UnknownAgent(agent_id))
        } else {
            let entry = AttentionEntry { id: attention_id, agent_id, request, acknowledged: false };
            let queued = !has_key(p.attention, attention_id) || lookup(p.attention, attention_id) != entry;
            let p1 = ProjectionValue { attention: upsert_spec(p.attention, attention_id, entry), ..p };
            if request is Approval && primary_of(p) == Some(agent_id) {
                Ok((opened_next(p1).0, queued || opened_next(p1).1))
            } else {
                Ok((p1, queued))
            }
        },
        EventValue::AttentionResolved { agent_id, attention_id } => if !has_key(p.agents, agent_id) {
            Err(Refusal::UnknownAgent(agent_id))
        } else if has_key(p.attention, attention_id) && lookup(p.attention, attention_id).agent_id != agent_id {
            Err(Refusal::AttentionOwnerMismatch {
                attention_id,
                expected: lookup(p.attention, attention_id).agent_id,
                received: agent_id,
            })
        } else {
            let cards = resolved_cards(p.approval, attention_id);
            let queue = resolved_queue(p.attention, p.attention_cursor, attention_id);
            let p1 = ProjectionValue { approval: cards.0, attention: queue.0, attention_cursor: queue.1, ..p };
            let next = opened_next(p1);
            let removed = has_key(p.attention, attention_id);
            if !next.1 && cards.1 is Some {
                Ok((ProjectionValue { focus: cards.1, ..next.0 }, removed || next.0.focus != cards.1))
            } else {
                Ok((next.0, removed || next.1))
            }
        },
        EventValue::RuntimeMessage { agent_id, item_id, message, error } => match entry_refusal(p, agent_id, item_id) {
            Some(r) => Err(r),
            None => terminal_step(p, agent_id, item_id, EntryValue::Text(TextValue {
                id: item_id,
                role: TranscriptRole::System,
                kind: if error { TranscriptTextKind::Error } else { TranscriptTextKind::Warning },
                source: message,
                revision: 0,
                finalized: true,
            })),
        },
    }
}

/// Offering one event at position `sequence`: a stale position is refused and logged without
/// rewinding; a forward gap is logged and the projection resynchronizes; the event is applied or
/// refused whole, a refusal logged; the position is consumed either way, and the revision
/// advances only when the user can see something new.
pub open spec fn apply_spec(p: ProjectionValue, sequence: u64, e: EventValue) -> (ProjectionValue, OutcomeValue) {
    let expected = expected_sequence(p.last_sequence);
    if sequence < expected {
        let r = Refusal::StaleSequence { expected: clamp_u64(expected), received: sequence };
        (noticed(p, NoticeValue::Rejected { sequence, error: r }), OutcomeValue::Rejected(r))
    } else {
        let p1 = if sequence > expected {
            noticed(p, NoticeValue::SequenceGap { expected: clamp_u64(expected), received: sequence })
        } else {
            p
        };
        match event_step(p1, e) {
            Ok((p2, changed)) => (
                ProjectionValue { last_sequence: Some(sequence), ..if changed { touched(p2) } else { p2 } },
                OutcomeValue::Accepted,
            ),
            Err(r) => (
                ProjectionValue { last_sequence: Some(sequence), ..noticed(p1, NoticeValue::Rejected { sequence, error: r }) },
                OutcomeValue::Rejected(r),
            ),
        }
    }
}

/// Every open text item of `agent` has room for one more revision, where the event updates it.
pub open spec fn event_room(p: ProjectionValue, e: EventValue) -> bool {
    match e {
        EventValue::TranscriptDelta { agent_id, item_id, .. } => has_key(p.agents, agent_id) ==> crate::agent::revision_room(entries_of(p, agent_id), item_id),
        EventValue::TranscriptItemFinalized { agent_id, item_id, .. } => has_key(p.agents, agent_id) ==> crate::agent::revision_room(entries_of(p, agent_id), item_id),
        _ => true,
    }
}

/// The notices, as values.
pub open spec fn notices_view(notices: Seq<Notice>) -> Seq<NoticeValue> {
    notices.map_values(|n: Notice| n@)
}

/// The projection of the agents' conversation events.
#[derive(Debug)]
pub struct Projection {
    revision: u64,
    last_sequence: Option<u64>,
    agents: OrderedById<AgentView>,
    owners: OrderedById<Identity>,
    usage: OrderedById<TurnUsage>,
    attention: AttentionQueue,
    approval: ApprovalSurface,
    focus: Focus,
    notices: Vec<Notice>,
    dropped: u64,
}

impl View for Projection {
    type V = ProjectionValue;

    closed spec fn view(&self) -> ProjectionValue {
        ProjectionValue {
            revision: self.revision,
            last_sequence: self.last_sequence,
            agents: self.agents@,
            owners: self.owners@,
            usage: self.usage@,
            attention: self.attention.entries(),
            attention_cursor: self.attention.raw_cursor(),
            approval: self.approval.model(),
            focus: self.focus.preference(),
            notices: notices_view(self.notices@),
            dropped: self.dropped,
        }
    }
}

impl Projection {
    /// The collections line up, every agent is well formed, and the log is within its bound.
    pub closed spec fn wf(&self) -> bool {
        &&& self.agents.wf()
        &&& self.owners.wf()
        &&& self.usage.wf()
        &&& forall|i: int| 0 <= i < self.agents.items().len() ==> #[trigger] self.agents.items()[i].wf()
        &&& self.notices@.len() <= NOTICE_CAPACITY
    }

    /// An empty projection at revision zero that expects the first event.
    pub fn new() -> (p: Self)
        ensures
            p.wf(),
            p@ == (ProjectionValue {
                revision: 0,
                last_sequence: None,
                agents: Seq::empty(),
                owners: Seq::empty(),
                usage: Seq::empty(),
                attention: Seq::empty(),
                attention_cursor: 0,
                approval: SurfaceModel { primary: None, background: None },
                focus: None,
                notices: Seq::empty(),
                dropped: 0,
            }),
    {
        let p = Projection {
            revision: 0,
            last_sequence: None,
            agents: OrderedById::new(),
            owners: OrderedById::new(),
            usage: OrderedById::new(),
            attention: AttentionQueue::new(),
            approval: ApprovalSurface::new(),
            focus: Focus::new(),
            notices: Vec::new(),
            dropped: 0,
        };
        proof {
            p.agents.lemma_items();
        }
        assert(notices_view(p.notices@) =~= Seq::<NoticeValue>::empty());
        p
    }

    /// The projection's revision.
    pub fn revision(&self) -> (revision: u64)
        ensures
            revision == self@.revision,
    {
        self.revision
    }

    /// The requests waiting for the user.
    pub fn attention(&self) -> (queue: &AttentionQueue)
        ensures
            queue.entries() == self@.attention,
            queue.raw_cursor() == self@.attention_cursor,
    {
        &self.attention
    }

    /// The approval cards that are open.
    pub fn approval(&self) -> (cards: &ApprovalSurface)
        ensures
            cards.model() == self@.approval,
    {
        &self.approval
    }

    /// The user's focus preference.
    pub fn focus(&self) -> (focus: Focus)
        ensures
            focus.preference() == self@.focus,
    {
        self.focus
    }

    /// The agents, in arrival order.
    pub fn agents(&self) -> (agents: &[AgentView])
        requires
            self.wf(),
        ensures
            agents@.len() == self@.agents.len(),
            forall|i: int| 0 <= i < agents@.len() ==> #[trigger] agents@[i]@ == self@.agents[i].1,
    {
        proof {
            self.agents.lemma_items();
        }
        self.agents.iter()
    }

    /// The notices, oldest first.
    pub fn notices(&self) -> (notices: &[Notice])
        ensures
            notices_view(notices@) == self@.notices,
    {
        self.notices.as_slice()
    }

    fn touch(&mut self)
        requires
            old(self).wf(),
        ensures
            final(self).wf(),
            final(self)@ == touched(old(self)@),
    {
        self.revision = self.revision.saturating_add(1);
    }

    fn push_notice(&mut self, notice: Notice)
        requires
            old(self).wf(),
        ensures
            final(self).wf(),
            final(self)@ == noticed(old(self)@, notice@),
    {
        let ghost before = notices_view(self.notices@);
        let ghost nv = notice@;
        if self.notices.len() >= NOTICE_CAPACITY {
            self.notices.remove(0);
            self.notices.push(notice);
            self.dropped = self.dropped.saturating_add(1);
            assert(notices_view(self.notices@) =~= before.drop_first().push(nv));
        } else {
            self.notices.push(notice);
            assert(notices_view(self.notices@) =~= before.push(nv));
        }
        self.touch();
    }

    /// Where agent `agent` is, or why an entry event for `item` is refused first.
    fn entry_check(&self, agent: &AgentId, item: &TranscriptItemId) -> (r: Result<usize, ReduceError>)
        requires
            self.wf(),
        ensures
            match entry_refusal(self@, agent@, item@) {
                Some(e) => r matches Err(x) && x@ == e,
                None => r matches Ok(i) && i == key_pos(self@.agents, agent@) && i < self@.agents.len()
                    && self@.agents[i as int].0 == agent@,
            },
    {
        match self.owners.get(item) {
            Some(owner) => if !owner.same(agent) {
                return Err(ReduceError::EntryOwnerMismatch {
                    item_id: item.duplicate(),
                    expected: owner.duplicate(),
                    received: agent.duplicate(),
                });
            },
            None => {},
        }
        match self.agents.index_of(agent) {
            Some(i) => {
                proof {
                    let k = choose|k: int| 0 <= k < self@.agents.len() && self@.agents[k].0 == agent@;
                    assert(self@.agents[k].0 == agent@);
                }
                Ok(i)
            },
            None => Err(ReduceError::UnknownAgent(agent.duplicate())),
        }
    }

    /// Records `agent` as the owner of `item`, unless an owner is recorded.
    fn remember(&mut self, item: &TranscriptItemId, agent: &AgentId)
        requires
            old(self).wf(),
        ensures
            final(self).wf(),
            final(self)@ == (ProjectionValue {
                owners: if !has_key(old(self)@.owners, item@) { old(self)@.owners.push((item@, agent@)) } else { old(self)@.owners },
                ..old(self)@
            }),
    {
        if !self.owners.contains(item) {
            self.owners.upsert(item.duplicate(), agent.duplicate());
        }
    }
}

impl Projection {
    /// Applies a delta to the text item `item` of agent `agent`.
    fn delta(&mut self, agent: &AgentId, item: &TranscriptItemId, revision: u64, text: &str) -> (r: Result<bool, ReduceError>)
        requires
            old(self).wf(),
            event_room(old(self)@, EventValue::TranscriptDelta { agent_id: agent@, item_id: item@, item_revision: revision, text: text@ }),
        ensures
            final(self).wf(),
            match event_step(old(self)@, EventValue::TranscriptDelta { agent_id: agent@, item_id: item@, item_revision: revision, text: text@ }) {
                Ok((p, c)) => r matches Ok(x) && x == c && final(self)@ == p,
                Err(e) => r matches Err(x) && x@ == e && final(self)@ == old(self)@,
            },
    {
        let i = match self.entry_check(agent, item) {
            Ok(i) => i,
            Err(e) => return Err(e),
        };
        proof {
            self.agents.lemma_items();
            self.agents.items()[i as int].lemma_view();
        }
        let ghost before = self@;
        let slot = self.agents.get_mut_at(i);
        let r = slot.append_delta(item, revision, text);
        proof {
            slot.lemma_view();
        }
        assert(self@.agents =~= match r {
            Ok(()) => before.agents.update(i as int, (agent@, AgentValue {
                entries: with_delta(entries_of(before, agent@), item@, revision, text@),
                ..lookup(before.agents, agent@)
            })),
            Err(_) => before.agents,
        });
        match r {
            Ok(()) => Ok(true),
            Err(e) => Err(e),
        }
    }
}

impl Projection {
    /// Opens a transcript item of agent `agent`.
    fn started(&mut self, agent: &AgentId, item: &TranscriptItemId, role: TranscriptRole) -> (r: Result<bool, ReduceError>)
        requires
            old(self).wf(),
        ensures
            final(self).wf(),
            match event_step(old(self)@, EventValue::TranscriptItemStarted { agent_id: agent@, item_id: item@, role }) {
                Ok((p, c)) => r matches Ok(x) && x == c && final(self)@ == p,
                Err(e) => r matches Err(x) && x@ == e && final(self)@ == old(self)@,
            },
    {
        let i = match self.entry_check(agent, item) {
            Ok(i) => i,
            Err(e) => return Err(e),
        };
        proof {
            self.agents.lemma_items();
            self.agents.items()[i as int].lemma_view();
        }
        let ghost before = self@;
        let slot = self.agents.get_mut_at(i);
        let r = match slot.start_item(item.duplicate(), role) { Ok(()) => Ok(true), Err(e) => Err(e) };
        proof {
            slot.lemma_view();
        }
        let ok = r.is_ok();
        assert(self@.agents =~= if ok {
            before.agents.update(i as int, (agent@, AgentValue {
                entries: entries_of(before, agent@).push((item@, opened_item(item@, role))),
                ..lookup(before.agents, agent@)
            }))
        } else {
            before.agents
        });
        match r {
            Ok(_) => {
                self.remember(item, agent);
                Ok(true)
            },
            Err(e) => Err(e),
        }
    }

    /// Files an announced artifact of agent `agent`.
    fn artifact(&mut self, agent: &AgentId, item: &TranscriptItemId, artifact: &ArtifactId, label: &str, pointer: &str) -> (r: Result<bool, ReduceError>)
        requires
            old(self).wf(),
        ensures
            final(self).wf(),
            match event_step(old(self)@, EventValue::ArtifactAnnounced { agent_id: agent@, item_id: item@, artifact_id: artifact@, label: label@, pointer: pointer@ }) {
                Ok((p, c)) => r matches Ok(x) && x == c && final(self)@ == p,
                Err(e) => r matches Err(x) && x@ == e && final(self)@ == old(self)@,
            },
    {
        let i = match self.entry_check(agent, item) {
            Ok(i) => i,
            Err(e) => return Err(e),
        };
        proof {
            self.agents.lemma_items();
            self.agents.items()[i as int].lemma_view();
        }
        let ghost before = self@;
        let slot = self.agents.get_mut_at(i);
        let r = slot.announce_artifact(item.duplicate(), artifact.duplicate(), label.to_owned(), pointer.to_owned());
        proof {
            slot.lemma_view();
        }
        let ok = r.is_ok();
        assert(self@.agents =~= if ok {
            before.agents.update(i as int, (agent@, AgentValue {
                entries: entries_of(before, agent@).push((item@, EntryValue::Artifact(ArtifactValue { entry_id: item@, id: artifact@, label: label@, pointer: pointer@, revision: 0 }))),
                ..lookup(before.agents, agent@)
            }))
        } else {
            before.agents
        });
        match r {
            Ok(_) => {
                self.remember(item, agent);
                Ok(true)
            },
            Err(e) => Err(e),
        }
    }

    /// Files a tool call the provider ran on its own side for agent `agent`.
    fn server_tool(&mut self, agent: &AgentId, item: &TranscriptItemId, call: ServerToolCall) -> (r: Result<bool, ReduceError>)
        requires
            old(self).wf(),
        ensures
            final(self).wf(),
            match event_step(old(self)@, EventValue::ServerToolCalled { agent_id: agent@, item_id: item@, call: call@ }) {
                Ok((p, c)) => r matches Ok(x) && x == c && final(self)@ == p,
                Err(e) => r matches Err(x) && x@ == e && final(self)@ == old(self)@,
            },
    {
        let i = match self.entry_check(agent, item) {
            Ok(i) => i,
            Err(e) => return Err(e),
        };
        proof {
            self.agents.lemma_items();
            self.agents.items()[i as int].lemma_view();
        }
        let ghost before = self@;
        let ghost called = call@;
        let slot = self.agents.get_mut_at(i);
        let r = slot.note_server_tool(item.duplicate(), call);
        proof {
            slot.lemma_view();
        }
        let ok = r.is_ok();
        assert(self@.agents =~= if ok {
            before.agents.update(i as int, (agent@, AgentValue {
                entries: entries_of(before, agent@).push((item@, EntryValue::ServerTool(ServerToolValue { entry_id: item@, call: called, revision: 0 }))),
                ..lookup(before.agents, agent@)
            }))
        } else {
            before.agents
        });
        match r {
            Ok(_) => {
                self.remember(item, agent);
                Ok(true)
            },
            Err(e) => Err(e),
        }
    }

    /// The first queued approval request `agent` raised.
    fn first_approval(&self, agent: &AgentId) -> (found: Option<AttentionId>)
        ensures
            match first_approval_from(self@.attention, agent@) {
                Some(id) => found matches Some(f) && f@ == id,
                None => found is None,
            },
    {
        let items = self.attention.iter();
        let ghost all = self@.attention;
        assert(all.skip(0) =~= all);
        let mut i: usize = 0;
        while i < items.len()
            invariant
                all == self@.attention,
                items@.len() == all.len(),
                forall|k: int| 0 <= k < items@.len() ==> #[trigger] items@[k]@ == all[k].1,
                i <= all.len(),
                first_approval_from(all, agent@) == first_approval_from(all.skip(i as int), agent@),
            decreases all.len() - i,
        {
            let item = &items[i];
            let is_approval = match &item.request {
                AttentionRequest::Approval(_) => true,
                _ => false,
            };
            let ghost rest = all.skip(i as int);
            proof {
                assert(items@[i as int]@ == all[i as int].1);
                assert(rest[0] == all[i as int]);
                assert(is_approval == (rest[0].1.request is Approval));
                assert(rest.drop_first() =~= all.skip(i + 1));
            }
            if item.agent_id.same(agent) && is_approval {
                assert(first_approval_from(rest, agent@) == Some(rest[0].1.id));
                return Some(item.id.duplicate());
            }
            assert(first_approval_from(rest, agent@) == first_approval_from(rest.drop_first(), agent@));
            i = i + 1;
        }
        assert(all.skip(i as int).len() == 0);
        None
    }

    /// Opens the primary conversation's oldest approval request as its inline card, unless a
    /// card is open there already; reports whether one opened.
    fn open_next_primary_approval(&mut self) -> (opened: bool)
        requires
            old(self).wf(),
        ensures
            final(self).wf(),
            (final(self)@, opened) == opened_next(old(self)@),
    {
        if self.approval.has_primary() {
            return false;
        }
        let primary = match self.agents.key_at(0) {
            Some(key) => key.duplicate(),
            None => return false,
        };
        let next = match self.first_approval(&primary) {
            Some(id) => id,
            None => return false,
        };
        let ghost before = self@;
        if self.approval.open(next, SurfaceId::Composer) {
            self.focus.prefer(SurfaceId::Approval);
            assert(self@ == opened_next(before).0);
            true
        } else {
            false
        }
    }

    /// Queues an agent's request for the user. An approval from the primary conversation opens
    /// where the composer is, in that conversation's box, when no card is open there yet.
    fn attention_requested(&mut self, agent: &AgentId, id: AttentionId, request: AttentionRequest) -> (r: Result<bool, ReduceError>)
        requires
            old(self).wf(),
        ensures
            final(self).wf(),
            match event_step(old(self)@, EventValue::AttentionRequested { agent_id: agent@, attention_id: id@, request: request@ }) {
                Ok((p, c)) => r matches Ok(x) && x == c && final(self)@ == p,
                Err(e) => r matches Err(x) && x@ == e && final(self)@ == old(self)@,
            },
    {
        if !self.agents.contains(agent) {
            return Err(ReduceError::UnknownAgent(agent.duplicate()));
        }
        let is_approval = match &request {
            AttentionRequest::Approval(_) => true,
            _ => false,
        };
        let from_primary = match self.agents.key_at(0) {
            Some(key) => key.same(agent),
            None => false,
        };
        let answer_here = is_approval && from_primary;
        let queued = self.attention.request(AttentionView { id, agent_id: agent.duplicate(), request, acknowledged: false });
        let opened = if answer_here {
            self.open_next_primary_approval()
        } else {
            false
        };
        Ok(queued || opened)
    }

    /// Resolves a request its agent answered: its card closes, the primary conversation's next
    /// approval opens, and otherwise focus goes back where the card came from.
    fn attention_resolved(&mut self, agent: &AgentId, id: &AttentionId) -> (r: Result<bool, ReduceError>)
        requires
            old(self).wf(),
        ensures
            final(self).wf(),
            match event_step(old(self)@, EventValue::AttentionResolved { agent_id: agent@, attention_id: id@ }) {
                Ok((p, c)) => r matches Ok(x) && x == c && final(self)@ == p,
                Err(e) => r matches Err(x) && x@ == e && final(self)@ == old(self)@,
            },
    {
        if !self.agents.contains(agent) {
            return Err(ReduceError::UnknownAgent(agent.duplicate()));
        }
        match self.attention.get(id) {
            Some(item) => if !item.agent_id.same(agent) {
                return Err(ReduceError::AttentionOwnerMismatch {
                    attention_id: id.duplicate(),
                    expected: item.agent_id.duplicate(),
                    received: agent.duplicate(),
                });
            },
            None => {},
        }
        let back = self.approval.resolved(id);
        let removed = self.attention.resolve(id);
        let advanced = self.open_next_primary_approval();
        let restored = if !advanced {
            match back {
                Some(surface) => self.focus.prefer(surface),
                None => false,
            }
        } else {
            false
        };
        Ok(removed || restored || advanced)
    }

    /// Files a runtime warning or error of agent `agent`.
    fn runtime(&mut self, agent: &AgentId, item: &TranscriptItemId, message: &str, error: bool) -> (r: Result<bool, ReduceError>)
        requires
            old(self).wf(),
        ensures
            final(self).wf(),
            match event_step(old(self)@, EventValue::RuntimeMessage { agent_id: agent@, item_id: item@, message: message@, error }) {
                Ok((p, c)) => r matches Ok(x) && x == c && final(self)@ == p,
                Err(e) => r matches Err(x) && x@ == e && final(self)@ == old(self)@,
            },
    {
        let i = match self.entry_check(agent, item) {
            Ok(i) => i,
            Err(e) => return Err(e),
        };
        proof {
            self.agents.lemma_items();
            self.agents.items()[i as int].lemma_view();
        }
        let ghost before = self@;
        let slot = self.agents.get_mut_at(i);
        let r = slot.runtime_message(item.duplicate(), message.to_owned(), error);
        proof {
            slot.lemma_view();
        }
        let ok = r.is_ok();
        assert(self@.agents =~= if ok {
            before.agents.update(i as int, (agent@, AgentValue {
                entries: entries_of(before, agent@).push((item@, EntryValue::Text(TextValue { id: item@, role: TranscriptRole::System, kind: if error { TranscriptTextKind::Error } else { TranscriptTextKind::Warning }, source: message@, revision: 0, finalized: true }))),
                ..lookup(before.agents, agent@)
            }))
        } else {
            before.agents
        });
        match r {
            Ok(_) => {
                self.remember(item, agent);
                Ok(true)
            },
            Err(e) => Err(e),
        }
    }

}

impl Projection {
    /// Closes the text item `item` of agent `agent`.
    fn finalize(&mut self, agent: &AgentId, item: &TranscriptItemId, revision: u64) -> (r: Result<bool, ReduceError>)
        requires
            old(self).wf(),
            event_room(old(self)@, EventValue::TranscriptItemFinalized { agent_id: agent@, item_id: item@, item_revision: revision }),
        ensures
            final(self).wf(),
            match event_step(old(self)@, EventValue::TranscriptItemFinalized { agent_id: agent@, item_id: item@, item_revision: revision }) {
                Ok((p, c)) => r matches Ok(x) && x == c && final(self)@ == p,
                Err(e) => r matches Err(x) && x@ == e && final(self)@ == old(self)@,
            },
    {
        let i = match self.entry_check(agent, item) {
            Ok(i) => i,
            Err(e) => return Err(e),
        };
        proof {
            self.agents.lemma_items();
            self.agents.items()[i as int].lemma_view();
        }
        let ghost before = self@;
        let slot = self.agents.get_mut_at(i);
        let r = slot.finalize_item(item, revision);
        proof {
            slot.lemma_view();
        }
        assert(self@.agents =~= match r {
            Ok(()) => before.agents.update(i as int, (agent@, AgentValue {
                entries: with_finalized(entries_of(before, agent@), item@, revision),
                ..lookup(before.agents, agent@)
            })),
            Err(_) => before.agents,
        });
        match r {
            Ok(()) => Ok(true),
            Err(e) => Err(e),
        }
    }

    /// Creates or moves the tool call entry `item` of agent `agent`.
    fn tool(
        &mut self,
        agent: &AgentId,
        item: &TranscriptItemId,
        revision: u64,
        call: &ToolCallId,
        label: &str,
        status: ToolCallStatus,
        presentation: &str,
    ) -> (r: Result<bool, ReduceError>)
        requires
            old(self).wf(),
        ensures
            final(self).wf(),
            match event_step(old(self)@, EventValue::ToolCallChanged {
                agent_id: agent@,
                item_id: item@,
                item_revision: revision,
                call_id: call@,
                label: label@,
                status,
                presentation: presentation@,
            }) {
                Ok((p, c)) => r matches Ok(x) && x == c && final(self)@ == p,
                Err(e) => r matches Err(x) && x@ == e && final(self)@ == old(self)@,
            },
    {
        let i = match self.entry_check(agent, item) {
            Ok(i) => i,
            Err(e) => return Err(e),
        };
        proof {
            self.agents.lemma_items();
            self.agents.items()[i as int].lemma_view();
        }
        let ghost before = self@;
        let slot = self.agents.get_mut_at(i);
        let r = slot.set_tool_activity(item.duplicate(), revision, call.duplicate(), label.to_owned(), status, presentation.to_owned());
        proof {
            slot.lemma_view();
        }
        let ok = r.is_ok();
        assert(self@.agents =~= if ok {
            before.agents.update(i as int, (agent@, AgentValue {
                entries: with_tool(entries_of(before, agent@), item@, revision, call@, label@, status, presentation@),
                ..lookup(before.agents, agent@)
            }))
        } else {
            before.agents
        });
        match r {
            Ok(_) => {
                self.remember(item, agent);
                Ok(true)
            },
            Err(e) => Err(e),
        }
    }

    /// Files one side of a letter into the conversation of agent `agent`; both endpoints must be
    /// known.
    fn mail(
        &mut self,
        agent: &AgentId,
        item: &TranscriptItemId,
        mail: &MailId,
        from: &AgentId,
        to: &AgentId,
        summary: &str,
    ) -> (r: Result<bool, ReduceError>)
        requires
            old(self).wf(),
        ensures
            final(self).wf(),
            match event_step(old(self)@, EventValue::MailDelivered {
                agent_id: agent@,
                item_id: item@,
                mail_id: mail@,
                from: from@,
                to: to@,
                summary: summary@,
            }) {
                Ok((p, c)) => r matches Ok(x) && x == c && final(self)@ == p,
                Err(e) => r matches Err(x) && x@ == e && final(self)@ == old(self)@,
            },
    {
        if !self.agents.contains(from) {
            return Err(ReduceError::UnknownAgent(from.duplicate()));
        }
        if !self.agents.contains(to) {
            return Err(ReduceError::UnknownAgent(to.duplicate()));
        }
        let i = match self.entry_check(agent, item) {
            Ok(i) => i,
            Err(e) => return Err(e),
        };
        proof {
            self.agents.lemma_items();
            self.agents.items()[i as int].lemma_view();
        }
        let ghost before = self@;
        let slot = self.agents.get_mut_at(i);
        let r = slot.deliver_mail(item.duplicate(), mail.duplicate(), from.duplicate(), to.duplicate(), summary.to_owned());
        proof {
            slot.lemma_view();
        }
        let ok = r.is_ok();
        assert(self@.agents =~= if ok {
            before.agents.update(i as int, (agent@, AgentValue {
                entries: entries_of(before, agent@).push((item@, EntryValue::Mail(MailValue {
                    entry_id: item@,
                    id: mail@,
                    owner: lookup(before.agents, agent@).id,
                    from: from@,
                    to: to@,
                    summary: summary@,
                    revision: 0,
                }))),
                ..lookup(before.agents, agent@)
            }))
        } else {
            before.agents
        });
        match r {
            Ok(_) => {
                self.remember(item, agent);
                Ok(true)
            },
            Err(e) => Err(e),
        }
    }

    /// Files one side of a task: both of its conversations must be known.
    fn task(
        &mut self,
        agent: &AgentId,
        item: &TranscriptItemId,
        from: &AgentId,
        to: &AgentId,
        task: &str,
    ) -> (r: Result<bool, ReduceError>)
        requires
            old(self).wf(),
        ensures
            final(self).wf(),
            match event_step(old(self)@, EventValue::TaskAssigned {
                agent_id: agent@,
                item_id: item@,
                from: from@,
                to: to@,
                task: task@,
            }) {
                Ok((p, c)) => r matches Ok(x) && x == c && final(self)@ == p,
                Err(e) => r matches Err(x) && x@ == e && final(self)@ == old(self)@,
            },
    {
        if !self.agents.contains(from) {
            return Err(ReduceError::UnknownAgent(from.duplicate()));
        }
        if !self.agents.contains(to) {
            return Err(ReduceError::UnknownAgent(to.duplicate()));
        }
        let i = match self.entry_check(agent, item) {
            Ok(i) => i,
            Err(e) => return Err(e),
        };
        proof {
            self.agents.lemma_items();
            self.agents.items()[i as int].lemma_view();
        }
        let ghost before = self@;
        let slot = self.agents.get_mut_at(i);
        let r = slot.assign_task(item.duplicate(), from.duplicate(), to.duplicate(), task.to_owned());
        proof {
            slot.lemma_view();
        }
        let ok = r.is_ok();
        assert(self@.agents =~= if ok {
            before.agents.update(i as int, (agent@, AgentValue {
                entries: entries_of(before, agent@).push((item@, EntryValue::Task(TaskValue {
                    entry_id: item@,
                    owner: lookup(before.agents, agent@).id,
                    from: from@,
                    to: to@,
                    task: task@,
                    revision: 0,
                }))),
                ..lookup(before.agents, agent@)
            }))
        } else {
            before.agents
        });
        match r {
            Ok(_) => {
                self.remember(item, agent);
                Ok(true)
            },
            Err(e) => Err(e),
        }
    }

    /// Adds a new agent.
    fn created(&mut self, agent: &AgentId, label: &str, status: AgentStatus) -> (r: Result<bool, ReduceError>)
        requires
            old(self).wf(),
        ensures
            final(self).wf(),
            match event_step(old(self)@, EventValue::AgentCreated { agent_id: agent@, label: label@, status }) {
                Ok((p, c)) => r matches Ok(x) && x == c && final(self)@ == p,
                Err(e) => r matches Err(x) && x@ == e && final(self)@ == old(self)@,
            },
    {
        if self.agents.contains(agent) {
            return Err(ReduceError::DuplicateAgent(agent.duplicate()));
        }
        let view = AgentView::new(agent.duplicate(), label.to_owned(), status);
        proof {
            view.lemma_view();
            self.agents.lemma_items();
        }
        self.agents.upsert(agent.duplicate(), view);
        proof {
            self.agents.lemma_items();
            assert forall|j: int| 0 <= j < self.agents.items().len() implies #[trigger] self.agents.items()[j].wf() by {
                if j < self.agents.items().len() - 1 {
                    assert(self.agents.items()[j] == old(self).agents.items()[j]);
                }
            }
        }
        Ok(true)
    }

    /// Keeps the usage reported for a turn of agent `agent`. Nothing paints it yet, so it changes
    /// nothing the user can see.
    fn usage_reported(&mut self, agent: &AgentId, turn: TurnId, usage: TokenUsage) -> (r: Result<bool, ReduceError>)
        requires
            old(self).wf(),
        ensures
            final(self).wf(),
            match event_step(old(self)@, EventValue::TurnUsageUpdated { agent_id: agent@, turn_id: turn@, usage }) {
                Ok((p, c)) => r matches Ok(x) && x == c && final(self)@ == p,
                Err(e) => r matches Err(x) && x@ == e && final(self)@ == old(self)@,
            },
    {
        if !self.agents.contains(agent) {
            return Err(ReduceError::UnknownAgent(agent.duplicate()));
        }
        self.usage.upsert(agent.duplicate(), TurnUsage { turn_id: turn, usage });
        Ok(false)
    }

    /// The latest usage reported for agent `agent`, if any was.
    pub fn usage(&self, agent: &AgentId) -> (found: Option<&TurnUsage>)
        requires
            self.wf(),
        ensures
            found is Some == has_key(self@.usage, agent@),
            found matches Some(u) ==> u@ == lookup(self@.usage, agent@),
    {
        self.usage.get(agent)
    }

    /// Sets what agent `agent` is doing; reports whether that changed.
    fn status(&mut self, agent: &AgentId, status: AgentStatus) -> (r: Result<bool, ReduceError>)
        requires
            old(self).wf(),
        ensures
            final(self).wf(),
            match event_step(old(self)@, EventValue::AgentStatusChanged { agent_id: agent@, status }) {
                Ok((p, c)) => r matches Ok(x) && x == c && final(self)@ == p,
                Err(e) => r matches Err(x) && x@ == e && final(self)@ == old(self)@,
            },
    {
        let i = match self.agents.index_of(agent) {
            Some(i) => i,
            None => return Err(ReduceError::UnknownAgent(agent.duplicate())),
        };
        proof {
            self.agents.lemma_items();
            self.agents.items()[i as int].lemma_view();
            let k = choose|k: int| 0 <= k < self@.agents.len() && self@.agents[k].0 == agent@;
            assert(self@.agents[k].0 == agent@);
        }
        let ghost before = self@;
        let slot = self.agents.get_mut_at(i);
        let moved = slot.current_status() != status;
        slot.set_status(status);
        proof {
            slot.lemma_view();
        }
        assert(self@.agents =~= before.agents.update(i as int, (agent@, AgentValue {
            status,
            ..lookup(before.agents, agent@)
        })));
        Ok(moved)
    }
}

impl Projection {
    /// Applies one event, reporting whether anything the user can see changed; a refused event
    /// leaves the projection as it was.
    pub fn apply_event(&mut self, event: ConversationEvent) -> (r: Result<bool, ReduceError>)
        requires
            old(self).wf(),
            event_room(old(self)@, event@),
        ensures
            final(self).wf(),
            match event_step(old(self)@, event@) {
                Ok((p, c)) => r matches Ok(x) && x == c && final(self)@ == p,
                Err(e) => r matches Err(x) && x@ == e && final(self)@ == old(self)@,
            },
    {
        match event {
            ConversationEvent::AgentCreated { agent_id, label, status } => self.created(&agent_id, label.as_str(), status),
            ConversationEvent::AgentStatusChanged { agent_id, status } => self.status(&agent_id, status),
            ConversationEvent::TurnUsageUpdated { agent_id, turn_id, usage } => self.usage_reported(&agent_id, turn_id, usage),
            ConversationEvent::TranscriptItemStarted { agent_id, item_id, role } => self.started(&agent_id, &item_id, role),
            ConversationEvent::TranscriptDelta { agent_id, item_id, item_revision, text } =>
                self.delta(&agent_id, &item_id, item_revision, text.as_str()),
            ConversationEvent::TranscriptItemFinalized { agent_id, item_id, item_revision } =>
                self.finalize(&agent_id, &item_id, item_revision),
            ConversationEvent::ToolCallChanged { agent_id, item_id, item_revision, call_id, label, status, presentation } =>
                self.tool(&agent_id, &item_id, item_revision, &call_id, label.as_str(), status, presentation.as_str()),
            ConversationEvent::MailDelivered { agent_id, item_id, mail_id, from, to, summary } =>
                self.mail(&agent_id, &item_id, &mail_id, &from, &to, summary.as_str()),
            ConversationEvent::ServerToolCalled { agent_id, item_id, call } =>
                self.server_tool(&agent_id, &item_id, call),
            ConversationEvent::TaskAssigned { agent_id, item_id, from, to, task } =>
                self.task(&agent_id, &item_id, &from, &to, task.as_str()),
            ConversationEvent::ArtifactAnnounced { agent_id, item_id, artifact_id, label, pointer } =>
                self.artifact(&agent_id, &item_id, &artifact_id, label.as_str(), pointer.as_str()),
            ConversationEvent::RuntimeWarning { agent_id, item_id, message } =>
                self.runtime(&agent_id, &item_id, message.as_str(), false),
            ConversationEvent::RuntimeError { agent_id, item_id, message } =>
                self.runtime(&agent_id, &item_id, message.as_str(), true),
            ConversationEvent::AttentionRequested { agent_id, attention_id, request } =>
                self.attention_requested(&agent_id, attention_id, request),
            ConversationEvent::AttentionResolved { agent_id, attention_id } =>
                self.attention_resolved(&agent_id, &attention_id),
        }
    }

    /// Offers one ordered event to the projection. A stale position is refused without rewinding;
    /// a forward gap resynchronizes and is logged; a refused event is logged and drops alone; the
    /// revision advances only for what the user can see.
    pub fn apply(&mut self, envelope: ConversationEventEnvelope) -> (o: ApplyOutcome)
        requires
            old(self).wf(),
            event_room(old(self)@, envelope.event@),
        ensures
            final(self).wf(),
            (final(self)@, o@) == apply_spec(old(self)@, envelope.sequence, envelope.event@),
    {
        let received = envelope.sequence;
        let stale = match self.last_sequence {
            Some(last) => received <= last,
            None => received < 1,
        };
        if stale {
            let expected = match self.last_sequence {
                Some(last) => last.saturating_add(1),
                None => 1,
            };
            let error = ReduceError::StaleSequence { expected, received };
            self.push_notice(Notice::Rejected { sequence: received, error: error.duplicate() });
            return ApplyOutcome::Rejected(error);
        }
        let expected = match self.last_sequence {
            Some(last) => last + 1,
            None => 1,
        };
        if received > expected {
            self.push_notice(Notice::SequenceGap { expected, received });
        }
        let outcome = match self.apply_event(envelope.event) {
            Ok(changed) => {
                if changed {
                    self.touch();
                }
                ApplyOutcome::Accepted
            },
            Err(error) => {
                self.push_notice(Notice::Rejected { sequence: received, error: error.duplicate() });
                ApplyOutcome::Rejected(error)
            },
        };
        self.last_sequence = Some(received);
        outcome
    }
}

/// The projection after offering `envelopes` in order, and the outcomes in the same order.
pub open spec fn applied_all(p: ProjectionValue, envelopes: Seq<(u64, EventValue)>) -> (ProjectionValue, Seq<OutcomeValue>)
    decreases envelopes.len(),
{
    if envelopes.len() == 0 {
        (p, Seq::empty())
    } else {
        let (before, outcomes) = applied_all(p, envelopes.drop_last());
        let (after, outcome) = apply_spec(before, envelopes.last().0, envelopes.last().1);
        (after, outcomes.push(outcome))
    }
}

/// The projection is a pure reduction of the envelopes: two equal projections fed the same
/// envelopes give the same outcomes and end equal.
pub proof fn law_two_projections_of_the_same_envelopes_agree(
    a: ProjectionValue,
    b: ProjectionValue,
    envelopes: Seq<(u64, EventValue)>,
)
    requires
        a == b,
    ensures
        applied_all(a, envelopes) == applied_all(b, envelopes),
{
}

/// The revision never moves back, whatever arrives.
pub proof fn law_the_revision_never_moves_back(p: ProjectionValue, envelopes: Seq<(u64, EventValue)>)
    ensures
        applied_all(p, envelopes).0.revision >= p.revision,
    decreases envelopes.len(),
{
    if envelopes.len() > 0 {
        law_the_revision_never_moves_back(p, envelopes.drop_last());
    }
}

/// An accepted event that changes nothing the user can see costs no revision; one that does, or a
/// refusal, which is logged, advances it until its bound.
pub proof fn law_only_a_visible_change_costs_a_revision(p: ProjectionValue, sequence: u64, e: EventValue)
    requires
        sequence == expected_sequence(p.last_sequence),
    ensures
        match event_step(p, e) {
            Ok((_, changed)) => apply_spec(p, sequence, e).0.revision == if changed { sat_inc(p.revision) } else { p.revision },
            Err(_) => apply_spec(p, sequence, e).0.revision == sat_inc(p.revision),
        },
{
}


/// A refused event is never partly applied: what it touched stays as it was, and only the
/// notice log, the position and the revision tell that it came.
pub proof fn law_a_refused_event_changes_nothing_it_names(p: ProjectionValue, sequence: u64, e: EventValue)
    requires
        event_step(p, e) is Err || sequence < expected_sequence(p.last_sequence),
    ensures
        ({
            let q = apply_spec(p, sequence, e).0;
            &&& q.agents == p.agents
            &&& q.owners == p.owners
            &&& q.usage == p.usage
            &&& q.attention == p.attention
            &&& q.attention_cursor == p.attention_cursor
            &&& q.approval == p.approval
            &&& q.focus == p.focus
        }),
{
}

/// Whether every event of `envelopes` has room for the revisions it adds, in the projection it
/// meets after the ones before it.
pub open spec fn room_throughout(p: ProjectionValue, envelopes: Seq<(u64, EventValue)>) -> bool {
    forall|k: int|
        0 <= k < envelopes.len() ==> event_room(#[trigger] applied_all(p, envelopes.take(k)).0, envelopes[k].1)
}

/// The envelopes, as values.
pub open spec fn envelopes_view(envelopes: Seq<ConversationEventEnvelope>) -> Seq<(u64, EventValue)> {
    envelopes.map_values(|e: ConversationEventEnvelope| (e.sequence, e.event@))
}

/// The outcomes, as values.
pub open spec fn outcomes_view(outcomes: Seq<ApplyOutcome>) -> Seq<OutcomeValue> {
    outcomes.map_values(|o: ApplyOutcome| o@)
}

impl Projection {
    /// Offers `envelopes` in order, and reports each outcome in the same order.
    pub fn apply_all(&mut self, envelopes: Vec<ConversationEventEnvelope>) -> (outcomes: Vec<ApplyOutcome>)
        requires
            old(self).wf(),
            room_throughout(old(self)@, envelopes_view(envelopes@)),
        ensures
            final(self).wf(),
            (final(self)@, outcomes_view(outcomes@)) == applied_all(old(self)@, envelopes_view(envelopes@)),
    {
        let ghost all = envelopes_view(envelopes@);
        let ghost start = self@;
        let count = envelopes.len();
        let mut rest = envelopes;
        let mut outcomes: Vec<ApplyOutcome> = Vec::new();
        let mut i: usize = 0;
        assert(all.take(0) =~= Seq::<(u64, EventValue)>::empty());
        while rest.len() > 0
            invariant
                self.wf(),
                i <= all.len(),
                all.len() == count,
                i + rest@.len() == count,
                envelopes_view(rest@) == all.skip(i as int),
                room_throughout(start, all),
                (self@, outcomes_view(outcomes@)) == applied_all(start, all.take(i as int)),
            decreases rest@.len(),
        {
            let ghost before = rest@;
            proof {
                assert(envelopes_view(before).len() == before.len());
                assert(all.skip(i as int)[0] == all[i as int]);
            }
            let envelope = rest.remove(0);
            proof {
                assert(rest@ == before.remove(0));
                assert(envelope == before[0]);
                assert(envelopes_view(before)[0] == (before[0].sequence, before[0].event@));
                assert forall|k: int| 0 <= k < rest@.len() implies envelopes_view(rest@)[k] == all.skip(i + 1)[k] by {
                    assert(rest@[k] == before[k + 1]);
                    assert(envelopes_view(before)[k + 1] == all.skip(i as int)[k + 1]);
                };
                assert(envelopes_view(rest@) =~= all.skip(i + 1));
                assert(event_room(applied_all(start, all.take(i as int)).0, all[i as int].1));
                assert(all.take(i + 1).drop_last() =~= all.take(i as int));
            }
            let outcome = self.apply(envelope);
            outcomes.push(outcome);
            i = i + 1;
            proof {
                assert(outcomes_view(outcomes@) =~= applied_all(start, all.take(i as int)).1);
            }
        }
        proof {
            assert(all.skip(i as int).len() == 0);
            assert(all.take(i as int) =~= all);
        }
        outcomes
    }
}

} // verus!

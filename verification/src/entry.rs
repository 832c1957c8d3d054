//! Typed entries in one agent's ordered transcript: how text is treated, a tool call's
//! lifecycle, and how one entry is painted this frame.
use vstd::prelude::*;

use crate::ids::{
    AgentId, ArtifactId, Identity, MailId, PermissionGrantId, ToolCallId, TranscriptItemId,
};
use crate::view::TranscriptRole;

verus! {

/// Semantic treatment of text-shaped transcript content.
#[derive(Clone, Copy, Debug, PartialEq, Eq, Structural)]
pub enum TranscriptTextKind {
    /// Ordinary user, assistant, reasoning, or system text.
    Message,
    /// A non-fatal producer condition.
    Warning,
    /// A failed producer operation.
    Error,
}

/// How one entry should be painted this frame.
#[derive(Clone, Copy, Debug, Default, PartialEq, Eq, Structural)]
pub struct EntryAppearance {
    pub selected: bool,
    pub open: bool,
    pub hovered: bool,
    pub copy_hovered: bool,
}

impl EntryAppearance {
    /// A closed entry under no pointer, selected or not.
    pub fn compact(selected: bool) -> (appearance: Self)
        ensures
            appearance == (EntryAppearance { selected, open: false, hovered: false, copy_hovered: false }),
    {
        EntryAppearance { selected, open: false, hovered: false, copy_hovered: false }
    }
}

/// Where one tool call is in its lifecycle.
#[derive(Clone, Copy, Debug, PartialEq, Eq, Structural)]
pub enum ToolCallStatus {
    Queued,
    AwaitingApproval,
    Running,
    Succeeded,
    Failed,
    Cancelled,
}

/// Whether a call in `status` has finished for good.
pub open spec fn is_terminal(status: ToolCallStatus) -> bool {
    status is Succeeded || status is Failed || status is Cancelled
}

/// Whether a call may move from `from` to `to`: a finished call stays finished, a call never
/// returns to the queue, a move always changes the status, and only a running call succeeds.
pub open spec fn transition_allowed(from: ToolCallStatus, to: ToolCallStatus) -> bool {
    !is_terminal(from) && !(to is Queued) && from != to && (to is Succeeded ==> from is Running)
}

impl ToolCallStatus {
    /// Whether a call in this status may move to `to`.
    pub fn can_transition_to(self, to: ToolCallStatus) -> (allowed: bool)
        ensures
            allowed == transition_allowed(self, to),
    {
        let finished = match self {
            ToolCallStatus::Succeeded | ToolCallStatus::Failed | ToolCallStatus::Cancelled => true,
            _ => false,
        };
        !finished && !matches!(to, ToolCallStatus::Queued) && self != to && (!matches!(
            to,
            ToolCallStatus::Succeeded,
        ) || matches!(self, ToolCallStatus::Running))
    }
}

/// Projected transcript content. Semantic source is retained separately from terminal cells.
#[derive(Debug)]
pub struct TranscriptItemView {
    pub id: TranscriptItemId,
    pub role: TranscriptRole,
    pub kind: TranscriptTextKind,
    pub source: String,
    pub revision: u64,
    pub finalized: bool,
}

/// A transcript item, as values.
pub struct TextValue {
    pub id: Seq<char>,
    pub role: TranscriptRole,
    pub kind: TranscriptTextKind,
    pub source: Seq<char>,
    pub revision: u64,
    pub finalized: bool,
}

impl View for TranscriptItemView {
    type V = TextValue;

    open spec fn view(&self) -> TextValue {
        TextValue {
            id: self.id@,
            role: self.role,
            kind: self.kind,
            source: self.source@,
            revision: self.revision,
            finalized: self.finalized,
        }
    }
}

/// One visible tool call and its current lifecycle state.
#[derive(Debug)]
pub struct ToolCallView {
    /// The saved project permission shown beside this call, if the producer reported one.
    pub saved_project_permission: Option<PermissionGrantId>,
    pub entry_id: TranscriptItemId,
    pub id: ToolCallId,
    pub label: String,
    pub status: ToolCallStatus,
    /// How the call is presented, as the producer described it.
    pub presentation: String,
    pub revision: u64,
}

/// A tool call, as values.
pub struct ToolValue {
    pub saved_project_permission: Option<Seq<char>>,
    pub entry_id: Seq<char>,
    pub id: Seq<char>,
    pub label: Seq<char>,
    pub status: ToolCallStatus,
    pub presentation: Seq<char>,
    pub revision: u64,
}

/// An optional identity, by its text.
pub open spec fn optional_id(id: Option<Identity>) -> Option<Seq<char>> {
    match id {
        Some(i) => Some(i@),
        None => None,
    }
}

impl View for ToolCallView {
    type V = ToolValue;

    open spec fn view(&self) -> ToolValue {
        ToolValue {
            saved_project_permission: optional_id(self.saved_project_permission),
            entry_id: self.entry_id@,
            id: self.id@,
            label: self.label@,
            status: self.status,
            presentation: self.presentation@,
            revision: self.revision,
        }
    }
}

/// Durable work product announced by an agent, referenced by pointer rather than copied inline.
#[derive(Debug)]
pub struct ArtifactView {
    pub entry_id: TranscriptItemId,
    pub id: ArtifactId,
    pub label: String,
    pub pointer: String,
    pub revision: u64,
}

/// An artifact, as values.
pub struct ArtifactValue {
    pub entry_id: Seq<char>,
    pub id: Seq<char>,
    pub label: Seq<char>,
    pub pointer: Seq<char>,
    pub revision: u64,
}

impl View for ArtifactView {
    type V = ArtifactValue;

    open spec fn view(&self) -> ArtifactValue {
        ArtifactValue {
            entry_id: self.entry_id@,
            id: self.id@,
            label: self.label@,
            pointer: self.pointer@,
            revision: self.revision,
        }
    }
}

/// Typed mail delivered between sessions, as one of its two conversations holds it: `owner` is
/// which side this item is.
#[derive(Debug)]
pub struct MailView {
    pub entry_id: TranscriptItemId,
    pub id: MailId,
    pub owner: AgentId,
    pub from: AgentId,
    pub to: AgentId,
    pub summary: String,
    pub revision: u64,
}

/// A mail, as values.
pub struct MailValue {
    pub entry_id: Seq<char>,
    pub id: Seq<char>,
    pub owner: Seq<char>,
    pub from: Seq<char>,
    pub to: Seq<char>,
    pub summary: Seq<char>,
    pub revision: u64,
}

impl View for MailView {
    type V = MailValue;

    open spec fn view(&self) -> MailValue {
        MailValue {
            entry_id: self.entry_id@,
            id: self.id@,
            owner: self.owner@,
            from: self.from@,
            to: self.to@,
            summary: self.summary@,
            revision: self.revision,
        }
    }
}

/// One task assigned to a delegated session, as one of its two conversations holds it.
#[derive(Debug)]
pub struct TaskView {
    pub entry_id: TranscriptItemId,
    pub owner: AgentId,
    pub from: AgentId,
    pub to: AgentId,
    pub task: String,
    pub revision: u64,
}

/// A task, as values.
pub struct TaskValue {
    pub entry_id: Seq<char>,
    pub owner: Seq<char>,
    pub from: Seq<char>,
    pub to: Seq<char>,
    pub task: Seq<char>,
    pub revision: u64,
}

impl View for TaskView {
    type V = TaskValue;

    open spec fn view(&self) -> TaskValue {
        TaskValue {
            entry_id: self.entry_id@,
            owner: self.owner@,
            from: self.from@,
            to: self.to@,
            task: self.task@,
            revision: self.revision,
        }
    }
}

/// A tool the provider runs on its own side.
#[derive(Clone, Copy, Debug, PartialEq, Eq, Structural)]
pub enum ServerTool {
    WebSearch,
}

/// What a server-side tool call did.
#[derive(Clone, Debug, PartialEq, Eq)]
pub enum ServerToolAction {
    Search { queries: Vec<String> },
}

/// An action, as values.
pub enum ServerActionValue {
    Search { queries: Seq<Seq<char>> },
}

impl View for ServerToolAction {
    type V = ServerActionValue;

    open spec fn view(&self) -> ServerActionValue {
        match self {
            ServerToolAction::Search { queries } => ServerActionValue::Search {
                queries: queries@.map_values(|q: String| q@),
            },
        }
    }
}

/// How a server-side tool call ended: it is reported once it has.
#[derive(Clone, Copy, Debug, PartialEq, Eq, Structural)]
pub enum ServerToolStatus {
    Completed,
}

/// A call the provider made on its own side, reported whole.
#[derive(Clone, Debug, PartialEq, Eq)]
pub struct ServerToolCall {
    pub tool: ServerTool,
    pub action: ServerToolAction,
    pub status: ServerToolStatus,
}

/// A server-side call, as values.
pub struct ServerCallValue {
    pub tool: ServerTool,
    pub action: ServerActionValue,
    pub status: ServerToolStatus,
}

impl View for ServerToolCall {
    type V = ServerCallValue;

    open spec fn view(&self) -> ServerCallValue {
        ServerCallValue { tool: self.tool, action: self.action@, status: self.status }
    }
}

/// A server-side tool call in a transcript: it arrives finished and never moves.
#[derive(Debug)]
pub struct ServerToolView {
    pub entry_id: TranscriptItemId,
    pub call: ServerToolCall,
    pub revision: u64,
}

/// A server-side tool entry, as values.
pub struct ServerToolValue {
    pub entry_id: Seq<char>,
    pub call: ServerCallValue,
    pub revision: u64,
}

impl View for ServerToolView {
    type V = ServerToolValue;

    open spec fn view(&self) -> ServerToolValue {
        ServerToolValue { entry_id: self.entry_id@, call: self.call@, revision: self.revision }
    }
}

/// One stable position in an agent's semantic transcript.
#[derive(Debug)]
pub enum TranscriptEntryView {
    /// User, assistant, reasoning, or system-authored text.
    Text(TranscriptItemView),
    /// One tool call throughout its lifecycle.
    Tool(ToolCallView),
    /// One announced durable work product.
    Artifact(ArtifactView),
    /// One delivered mail summary.
    Mail(MailView),
    /// One task assigned to a delegated session.
    Task(TaskView),
    /// One tool call the provider ran on its own side.
    ServerTool(ServerToolView),
}

/// A transcript entry, as values.
pub enum EntryValue {
    Text(TextValue),
    Tool(ToolValue),
    Artifact(ArtifactValue),
    Mail(MailValue),
    Task(TaskValue),
    ServerTool(ServerToolValue),
}

impl View for TranscriptEntryView {
    type V = EntryValue;

    open spec fn view(&self) -> EntryValue {
        match self {
            TranscriptEntryView::Text(item) => EntryValue::Text(item@),
            TranscriptEntryView::Tool(tool) => EntryValue::Tool(tool@),
            TranscriptEntryView::Artifact(artifact) => EntryValue::Artifact(artifact@),
            TranscriptEntryView::Mail(mail) => EntryValue::Mail(mail@),
            TranscriptEntryView::Task(task) => EntryValue::Task(task@),
            TranscriptEntryView::ServerTool(call) => EntryValue::ServerTool(call@),
        }
    }
}

/// The stable first-appearance identity of an entry.
pub open spec fn entry_identity(entry: EntryValue) -> Seq<char> {
    match entry {
        EntryValue::Text(item) => item.id,
        EntryValue::Tool(tool) => tool.entry_id,
        EntryValue::Artifact(artifact) => artifact.entry_id,
        EntryValue::Mail(mail) => mail.entry_id,
        EntryValue::Task(task) => task.entry_id,
        EntryValue::ServerTool(call) => call.entry_id,
    }
}

/// The revision of an entry.
pub open spec fn entry_revision(entry: EntryValue) -> u64 {
    match entry {
        EntryValue::Text(item) => item.revision,
        EntryValue::Tool(tool) => tool.revision,
        EntryValue::Artifact(artifact) => artifact.revision,
        EntryValue::Mail(mail) => mail.revision,
        EntryValue::Task(task) => task.revision,
        EntryValue::ServerTool(call) => call.revision,
    }
}

impl TranscriptEntryView {
    /// Stable first-appearance identity of this entry.
    pub fn id(&self) -> (id: &TranscriptItemId)
        ensures
            id@ == entry_identity(self@),
    {
        match self {
            TranscriptEntryView::Text(item) => &item.id,
            TranscriptEntryView::Tool(tool) => &tool.entry_id,
            TranscriptEntryView::Artifact(artifact) => &artifact.entry_id,
            TranscriptEntryView::Mail(mail) => &mail.entry_id,
            TranscriptEntryView::Task(task) => &task.entry_id,
            TranscriptEntryView::ServerTool(call) => &call.entry_id,
        }
    }

    /// Revision used by replay validation and height caching.
    pub fn revision(&self) -> (revision: u64)
        ensures
            revision == entry_revision(self@),
    {
        match self {
            TranscriptEntryView::Text(item) => item.revision,
            TranscriptEntryView::Tool(tool) => tool.revision,
            TranscriptEntryView::Artifact(artifact) => artifact.revision,
            TranscriptEntryView::Mail(mail) => mail.revision,
            TranscriptEntryView::Task(task) => task.revision,
            TranscriptEntryView::ServerTool(call) => call.revision,
        }
    }

    /// The saved project permission a tool call carries.
    pub fn saved_project_permission(&self) -> (grant: Option<&PermissionGrantId>)
        ensures
            match grant {
                Some(g) => self@ matches EntryValue::Tool(tool) && tool.saved_project_permission
                    == Some(g@),
                None => !(self@ matches EntryValue::Tool(tool) && tool.saved_project_permission is Some),
            },
    {
        match self {
            TranscriptEntryView::Tool(tool) => match &tool.saved_project_permission {
                Some(g) => Some(g),
                None => None,
            },
            _ => None,
        }
    }
}

} // verus!

verus! {

/// A call that has not finished may move to any status but its own and the queue; only a
/// success needs the call to have been running. So a queued call may wait for approval or start,
/// an approved call may start running, and a running call may end any way.
pub proof fn law_a_live_call_moves_on(from: ToolCallStatus, to: ToolCallStatus)
    ensures
        transition_allowed(from, to) == (!(from is Succeeded || from is Failed || from is Cancelled)
            && !(to is Queued) && from != to && (to is Succeeded ==> from is Running)),
        transition_allowed(ToolCallStatus::Queued, ToolCallStatus::AwaitingApproval),
        transition_allowed(ToolCallStatus::Queued, ToolCallStatus::Running),
        transition_allowed(ToolCallStatus::AwaitingApproval, ToolCallStatus::Running),
        transition_allowed(ToolCallStatus::AwaitingApproval, ToolCallStatus::Cancelled),
        transition_allowed(ToolCallStatus::Running, ToolCallStatus::Succeeded),
        transition_allowed(ToolCallStatus::Running, ToolCallStatus::Failed),
{
}

} // verus!

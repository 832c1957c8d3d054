//! One agent's transcript projection: item identity, per-item revision continuity and the tool
//! lifecycle, kept in first-appearance order.
//!
//! Every operation validates before it writes, so a refused event leaves the projection exactly as
//! it was.
use vstd::prelude::*;

use crate::entry::{
    entry_identity, is_terminal, transition_allowed, ArtifactValue, ArtifactView, EntryValue, MailValue,
    MailView, ServerToolCall, ServerToolValue, ServerToolView, TaskValue, TaskView, TextValue, ToolCallStatus, ToolCallView, ToolValue, TranscriptEntryView,
    TranscriptItemView, TranscriptTextKind,
};
use crate::ids::{AgentId, ArtifactId, AttentionId, MailId, ToolCallId, TranscriptItemId};
use crate::ordered::{has_key, key_pos, keys_of, keys_unique, lemma_key_pos, lookup, OrderedById};
use crate::view::{AgentStatus, TranscriptRole};

verus! {

/// Why the projection rejected one semantic event.
#[derive(Debug)]
pub enum ReduceError {
    StaleSequence { expected: u64, received: u64 },
    DuplicateAgent(AgentId),
    UnknownAgent(AgentId),
    AttentionOwnerMismatch { attention_id: AttentionId, expected: AgentId, received: AgentId },
    DuplicateTranscriptItem(TranscriptItemId),
    UnknownTranscriptItem(TranscriptItemId),
    ItemAlreadyFinalized(TranscriptItemId),
    ItemRevisionGap { item_id: TranscriptItemId, expected: u64, received: u64 },
    EntryKindChanged(TranscriptItemId),
    EntryOwnerMismatch { item_id: TranscriptItemId, expected: AgentId, received: AgentId },
    ToolCorrelationChanged(TranscriptItemId),
    DuplicateToolCall(ToolCallId),
    InvalidToolTransition { call_id: ToolCallId, from: ToolCallStatus, to: ToolCallStatus },
}

/// A refusal, as values.
pub enum Refusal {
    StaleSequence { expected: u64, received: u64 },
    DuplicateAgent(Seq<char>),
    UnknownAgent(Seq<char>),
    AttentionOwnerMismatch { attention_id: Seq<char>, expected: Seq<char>, received: Seq<char> },
    DuplicateTranscriptItem(Seq<char>),
    UnknownTranscriptItem(Seq<char>),
    ItemAlreadyFinalized(Seq<char>),
    ItemRevisionGap { item_id: Seq<char>, expected: u64, received: u64 },
    EntryKindChanged(Seq<char>),
    EntryOwnerMismatch { item_id: Seq<char>, expected: Seq<char>, received: Seq<char> },
    ToolCorrelationChanged(Seq<char>),
    DuplicateToolCall(Seq<char>),
    InvalidToolTransition { call_id: Seq<char>, from: ToolCallStatus, to: ToolCallStatus },
}

impl View for ReduceError {
    type V = Refusal;

    open spec fn view(&self) -> Refusal {
        match self {
            ReduceError::StaleSequence { expected, received } => Refusal::StaleSequence {
                expected: *expected,
                received: *received,
            },
            ReduceError::DuplicateAgent(id) => Refusal::DuplicateAgent(id@),
            ReduceError::UnknownAgent(id) => Refusal::UnknownAgent(id@),
            ReduceError::AttentionOwnerMismatch { attention_id, expected, received } =>
                Refusal::AttentionOwnerMismatch {
                attention_id: attention_id@,
                expected: expected@,
                received: received@,
            },
            ReduceError::DuplicateTranscriptItem(id) => Refusal::DuplicateTranscriptItem(id@),
            ReduceError::UnknownTranscriptItem(id) => Refusal::UnknownTranscriptItem(id@),
            ReduceError::ItemAlreadyFinalized(id) => Refusal::ItemAlreadyFinalized(id@),
            ReduceError::ItemRevisionGap { item_id, expected, received } => Refusal::ItemRevisionGap {
                item_id: item_id@,
                expected: *expected,
                received: *received,
            },
            ReduceError::EntryKindChanged(id) => Refusal::EntryKindChanged(id@),
            ReduceError::EntryOwnerMismatch { item_id, expected, received } =>
                Refusal::EntryOwnerMismatch {
                item_id: item_id@,
                expected: expected@,
                received: received@,
            },
            ReduceError::ToolCorrelationChanged(id) => Refusal::ToolCorrelationChanged(id@),
            ReduceError::DuplicateToolCall(id) => Refusal::DuplicateToolCall(id@),
            ReduceError::InvalidToolTransition { call_id, from, to } =>
                Refusal::InvalidToolTransition { call_id: call_id@, from: *from, to: *to },
        }
    }
}

impl ReduceError {
    /// The same refusal, as a separate value.
    pub fn duplicate(&self) -> (copy: Self)
        ensures
            copy@ == self@,
    {
        match self {
            ReduceError::StaleSequence { expected, received } => ReduceError::StaleSequence {
                expected: *expected,
                received: *received,
            },
            ReduceError::DuplicateAgent(id) => ReduceError::DuplicateAgent(id.duplicate()),
            ReduceError::UnknownAgent(id) => ReduceError::UnknownAgent(id.duplicate()),
            ReduceError::AttentionOwnerMismatch { attention_id, expected, received } =>
                ReduceError::AttentionOwnerMismatch {
                attention_id: attention_id.duplicate(),
                expected: expected.duplicate(),
                received: received.duplicate(),
            },
            ReduceError::DuplicateTranscriptItem(id) => ReduceError::DuplicateTranscriptItem(id.duplicate()),
            ReduceError::UnknownTranscriptItem(id) => ReduceError::UnknownTranscriptItem(id.duplicate()),
            ReduceError::ItemAlreadyFinalized(id) => ReduceError::ItemAlreadyFinalized(id.duplicate()),
            ReduceError::ItemRevisionGap { item_id, expected, received } => ReduceError::ItemRevisionGap {
                item_id: item_id.duplicate(),
                expected: *expected,
                received: *received,
            },
            ReduceError::EntryKindChanged(id) => ReduceError::EntryKindChanged(id.duplicate()),
            ReduceError::EntryOwnerMismatch { item_id, expected, received } =>
                ReduceError::EntryOwnerMismatch {
                item_id: item_id.duplicate(),
                expected: expected.duplicate(),
                received: received.duplicate(),
            },
            ReduceError::ToolCorrelationChanged(id) => ReduceError::ToolCorrelationChanged(id.duplicate()),
            ReduceError::DuplicateToolCall(id) => ReduceError::DuplicateToolCall(id.duplicate()),
            ReduceError::InvalidToolTransition { call_id, from, to } => ReduceError::InvalidToolTransition {
                call_id: call_id.duplicate(),
                from: *from,
                to: *to,
            },
        }
    }
}

/// An agent's transcript, keyed by entry identity, in first-appearance order.
pub type Entries = Seq<(Seq<char>, EntryValue)>;

/// Each entry sits under its own identity, and no identity occurs twice.
pub open spec fn entries_wf(m: Entries) -> bool {
    &&& keys_unique(m)
    &&& forall|i: int| 0 <= i < m.len() ==> #[trigger] entry_identity(m[i].1) == m[i].0
}

/// The text item stored under `id`, if that entry is text.
pub open spec fn text_at(m: Entries, id: Seq<char>) -> Option<TextValue> {
    if has_key(m, id) {
        match lookup(m, id) {
            EntryValue::Text(item) => Some(item),
            _ => None,
        }
    } else {
        None
    }
}

/// Why a delta or a finalization for `id` at revision `revision` is refused, if it is: the item
/// must exist, be text, be open, and the revision must be the next one.
pub open spec fn text_refusal(m: Entries, id: Seq<char>, revision: u64) -> Option<Refusal> {
    if !has_key(m, id) {
        Some(Refusal::UnknownTranscriptItem(id))
    } else {
        match lookup(m, id) {
            EntryValue::Text(item) => if item.finalized {
                Some(Refusal::ItemAlreadyFinalized(item.id))
            } else if revision != item.revision + 1 {
                Some(
                    Refusal::ItemRevisionGap {
                        item_id: item.id,
                        expected: (item.revision + 1) as u64,
                        received: revision,
                    },
                )
            } else {
                None
            },
            _ => Some(Refusal::EntryKindChanged(id)),
        }
    }
}

/// The open text item under `id` can take one more revision.
pub open spec fn revision_room(m: Entries, id: Seq<char>) -> bool {
    match text_at(m, id) {
        Some(item) => !item.finalized ==> item.revision < u64::MAX,
        None => true,
    }
}

/// `m` with the text item under `id` replaced by `item`, in place.
pub open spec fn with_text(m: Entries, id: Seq<char>, item: TextValue) -> Entries {
    m.update(key_pos(m, id), (id, EntryValue::Text(item)))
}

/// `m` after an accepted delta: the text grows and the revision advances.
pub open spec fn with_delta(m: Entries, id: Seq<char>, revision: u64, text: Seq<char>) -> Entries {
    let item = text_at(m, id)->0;
    with_text(m, id, TextValue { source: item.source + text, revision, ..item })
}

/// `m` after an accepted finalization: the item closes and the revision advances.
pub open spec fn with_finalized(m: Entries, id: Seq<char>, revision: u64) -> Entries {
    let item = text_at(m, id)->0;
    with_text(m, id, TextValue { finalized: true, revision, ..item })
}

/// A new, empty, open message.
pub open spec fn opened_item(id: Seq<char>, role: TranscriptRole) -> EntryValue {
    EntryValue::Text(
        TextValue {
            id,
            role,
            kind: TranscriptTextKind::Message,
            source: Seq::empty(),
            revision: 0,
            finalized: false,
        },
    )
}

/// Whether some tool entry of `m` is the call `call`.
pub open spec fn has_call(m: Entries, call: Seq<char>) -> bool {
    exists|i: int| 0 <= i < m.len() && (#[trigger] m[i].1 matches EntryValue::Tool(tool) && tool.id == call)
}

/// `r + 1`, or `r` at the top of the range.
pub open spec fn next_revision(r: u64) -> u64 {
    if r == u64::MAX {
        r
    } else {
        (r + 1) as u64
    }
}

/// Why a tool event is refused, if it is. An existing entry must be the same call under the same
/// label, at the next revision, moving by an allowed transition; a new one must be queued at
/// revision zero, for a call that has no entry yet.
pub open spec fn tool_refusal(
    m: Entries,
    entry: Seq<char>,
    revision: u64,
    call: Seq<char>,
    label: Seq<char>,
    status: ToolCallStatus,
) -> Option<Refusal> {
    if has_key(m, entry) {
        match lookup(m, entry) {
            EntryValue::Tool(tool) => if tool.id != call || tool.label != label {
                Some(Refusal::ToolCorrelationChanged(entry))
            } else if revision != next_revision(tool.revision) {
                Some(
                    Refusal::ItemRevisionGap {
                        item_id: entry,
                        expected: next_revision(tool.revision),
                        received: revision,
                    },
                )
            } else if !transition_allowed(tool.status, status) {
                Some(Refusal::InvalidToolTransition { call_id: call, from: tool.status, to: status })
            } else {
                None
            },
            _ => Some(Refusal::EntryKindChanged(entry)),
        }
    } else if revision != 0 || status != ToolCallStatus::Queued {
        Some(Refusal::UnknownTranscriptItem(entry))
    } else if has_call(m, call) {
        Some(Refusal::DuplicateToolCall(call))
    } else {
        None
    }
}

/// `m` after an accepted tool event: an existing call changes status, presentation and revision
/// in place; a new one is appended last.
pub open spec fn with_tool(
    m: Entries,
    entry: Seq<char>,
    revision: u64,
    call: Seq<char>,
    label: Seq<char>,
    status: ToolCallStatus,
    presentation: Seq<char>,
) -> Entries {
    if has_key(m, entry) {
        match lookup(m, entry) {
            EntryValue::Tool(tool) => m.update(
                key_pos(m, entry),
                (entry, EntryValue::Tool(ToolValue { status, presentation, revision, ..tool })),
            ),
            _ => m,
        }
    } else {
        m.push(
            (
                entry,
                EntryValue::Tool(
                    ToolValue {
                        saved_project_permission: None,
                        entry_id: entry,
                        id: call,
                        label,
                        status,
                        presentation,
                        revision: 0,
                    },
                ),
            ),
        )
    }
}

/// The text items of `m`, in order.
pub open spec fn texts_of(m: Entries) -> Seq<TextValue>
    decreases m.len(),
{
    if m.len() == 0 {
        Seq::empty()
    } else {
        texts_of(m.drop_last()) + match m.last().1 {
            EntryValue::Text(item) => seq![item],
            _ => Seq::empty(),
        }
    }
}

/// The tool calls of `m`, in order.
pub open spec fn tools_of(m: Entries) -> Seq<ToolValue>
    decreases m.len(),
{
    if m.len() == 0 {
        Seq::empty()
    } else {
        tools_of(m.drop_last()) + match m.last().1 {
            EntryValue::Tool(tool) => seq![tool],
            _ => Seq::empty(),
        }
    }
}

/// The artifacts of `m`, in order.
pub open spec fn artifacts_of(m: Entries) -> Seq<ArtifactValue>
    decreases m.len(),
{
    if m.len() == 0 {
        Seq::empty()
    } else {
        artifacts_of(m.drop_last()) + match m.last().1 {
            EntryValue::Artifact(artifact) => seq![artifact],
            _ => Seq::empty(),
        }
    }
}

/// The mail of `m`, in order.
pub open spec fn mail_of(m: Entries) -> Seq<MailValue>
    decreases m.len(),
{
    if m.len() == 0 {
        Seq::empty()
    } else {
        mail_of(m.drop_last()) + match m.last().1 {
            EntryValue::Mail(mail) => seq![mail],
            _ => Seq::empty(),
        }
    }
}

/// Per-agent projection consumed by the renderer.
#[derive(Debug)]
pub struct AgentView {
    pub id: AgentId,
    pub label: String,
    pub status: AgentStatus,
    entries: OrderedById<TranscriptEntryView>,
}

/// An agent's projection, as values.
pub struct AgentValue {
    pub id: Seq<char>,
    pub label: Seq<char>,
    pub status: AgentStatus,
    pub entries: Entries,
}

impl View for AgentView {
    type V = AgentValue;

    closed spec fn view(&self) -> AgentValue {
        AgentValue { id: self.id@, label: self.label@, status: self.status, entries: self.entries@ }
    }
}

impl AgentView {
    /// The view is the agent's identity, label, status and transcript.
    pub proof fn lemma_view(&self)
        ensures
            self@ == (AgentValue {
                id: self.id_view(),
                label: self.label_view(),
                status: self.status_view(),
                entries: self.entries_view(),
            }),
    {
    }

    /// Sets what the agent is doing.
    pub fn set_status(&mut self, status: AgentStatus)
        requires
            old(self).wf(),
        ensures
            final(self).wf(),
            final(self)@ == (AgentValue { status, ..old(self)@ }),
    {
        self.status = status;
    }
}

impl AgentView {
    /// The agent's identity, as text.
    pub closed spec fn id_view(&self) -> Seq<char> {
        self.id@
    }

    /// The agent's label, as text.
    pub closed spec fn label_view(&self) -> Seq<char> {
        self.label@
    }

    /// What the agent is doing.
    pub closed spec fn status_view(&self) -> AgentStatus {
        self.status
    }

    /// Everything but the transcript is as in `other`.
    pub open spec fn same_agent(&self, other: &Self) -> bool {
        &&& self.id_view() == other.id_view()
        &&& self.label_view() == other.label_view()
        &&& self.status_view() == other.status_view()
    }

    /// The agent's transcript, as values.
    pub closed spec fn entries_view(&self) -> Entries {
        self.entries@
    }

    /// The transcript is keyed by identity and every entry sits under its own.
    pub closed spec fn wf(&self) -> bool {
        &&& self.entries.wf()
        &&& entries_wf(self.entries@)
    }

    /// An agent with an empty transcript.
    pub fn new(id: AgentId, label: String, status: AgentStatus) -> (agent: Self)
        ensures
            agent.wf(),
            agent.id_view() == id@,
            agent.label_view() == label@,
            agent.status_view() == status,
            agent.entries_view() == Seq::<(Seq<char>, EntryValue)>::empty(),
    {
        let agent = AgentView { id, label, status, entries: OrderedById::new() };
        proof {
            agent.entries.lemma_unique();
        }
        agent
    }

    /// The agent's identity.
    pub fn identity(&self) -> (id: &AgentId)
        ensures
            id@ == self.id_view(),
    {
        &self.id
    }

    /// What the agent is doing.
    pub fn current_status(&self) -> (status: AgentStatus)
        ensures
            status == self.status_view(),
    {
        self.status
    }

    /// Every entry, in first-appearance order.
    pub fn entries(&self) -> (entries: &[TranscriptEntryView])
        requires
            self.wf(),
        ensures
            entries@.len() == self.entries_view().len(),
            forall|i: int| 0 <= i < entries@.len() ==> #[trigger] entries@[i]@ == self.entries_view()[i].1,
    {
        proof {
            self.entries.lemma_items();
        }
        self.entries.iter()
    }
}

impl TranscriptItemView {
    /// Accepts the next per-item revision, refusing a lost or repeated update.
    pub fn advance_revision(&mut self, received: u64) -> (result: Result<(), ReduceError>)
        requires
            old(self).revision < u64::MAX,
        ensures
            match result {
                Ok(()) => received == old(self).revision + 1 && final(self)@ == (TextValue {
                    revision: received,
                    ..old(self)@
                }),
                Err(e) => received != old(self).revision + 1 && final(self)@ == old(self)@
                    && e@ == (Refusal::ItemRevisionGap {
                    item_id: old(self)@.id,
                    expected: (old(self).revision + 1) as u64,
                    received,
                }),
            },
    {
        let expected = self.revision + 1;
        if received != expected {
            return Err(
                ReduceError::ItemRevisionGap { item_id: self.id.duplicate(), expected, received },
            );
        }
        self.revision = received;
        Ok(())
    }

    /// The same item, as a separate value.
    pub fn duplicate(&self) -> (copy: Self)
        ensures
            copy@ == self@,
    {
        TranscriptItemView {
            id: self.id.duplicate(),
            role: self.role,
            kind: self.kind,
            source: self.source.clone(),
            revision: self.revision,
            finalized: self.finalized,
        }
    }
}

impl AgentView {
    /// Adds a terminal entry under a new identity; refuses an identity already in use.
    fn insert_terminal(&mut self, entry_id: TranscriptItemId, entry: TranscriptEntryView) -> (result:
        Result<bool, ReduceError>)
        requires
            old(self).wf(),
            entry_identity(entry@) == entry_id@,
        ensures
            final(self).wf(),
            final(self).same_agent(old(self)),
            match result {
                Ok(added) => added && !has_key(old(self).entries_view(), entry_id@)
                    && final(self).entries_view() == old(self).entries_view().push(
                    (entry_id@, entry@),
                ),
                Err(e) => has_key(old(self).entries_view(), entry_id@) && e@
                    == Refusal::DuplicateTranscriptItem(entry_id@) && final(self).entries_view()
                    == old(self).entries_view(),
            },
    {
        if self.entries.contains(&entry_id) {
            return Err(ReduceError::DuplicateTranscriptItem(entry_id));
        }
        let ghost before = self.entries@;
        let ghost key = entry_id@;
        self.entries.upsert(entry_id, entry);
        proof {
            self.entries.lemma_unique();
            assert forall|i: int| 0 <= i < self.entries@.len() implies #[trigger] entry_identity(
                self.entries@[i].1,
            ) == self.entries@[i].0 by {
                if i < before.len() {
                    assert(self.entries@[i] == before[i]);
                }
            }
        }
        Ok(true)
    }

    /// Opens a transcript item that later deltas will append to.
    pub fn start_item(&mut self, item_id: TranscriptItemId, role: TranscriptRole) -> (result: Result<
        (),
        ReduceError,
    >)
        requires
            old(self).wf(),
        ensures
            final(self).wf(),
            final(self).same_agent(old(self)),
            match result {
                Ok(()) => !has_key(old(self).entries_view(), item_id@) && final(self).entries_view()
                    == old(self).entries_view().push((item_id@, opened_item(item_id@, role))),
                Err(e) => has_key(old(self).entries_view(), item_id@) && e@
                    == Refusal::DuplicateTranscriptItem(item_id@) && final(self).entries_view()
                    == old(self).entries_view(),
            },
    {
        let entry = TranscriptEntryView::Text(
            TranscriptItemView {
                id: item_id.duplicate(),
                role,
                kind: TranscriptTextKind::Message,
                source: String::new(),
                revision: 0,
                finalized: false,
            },
        );
        match self.insert_terminal(item_id, entry) {
            Ok(_) => Ok(()),
            Err(e) => Err(e),
        }
    }

    /// The open text item under `item_id`, as a separate value, or why it cannot take an update.
    fn open_text(&self, item_id: &TranscriptItemId) -> (found: Result<(usize, TranscriptItemView), ReduceError>)
        requires
            self.wf(),
        ensures
            match found {
                Ok((i, item)) => has_key(self.entries_view(), item_id@) && i == key_pos(
                    self.entries_view(),
                    item_id@,
                ) && i < self.entries_view().len() && self.entries_view()[i as int].0 == item_id@
                    && item@.id == item_id@ && text_at(self.entries_view(), item_id@) == Some(item@)
                    && !item.finalized,
                Err(e) => text_refusal(self.entries_view(), item_id@, 0) matches Some(r) && e@ == r
                    && !(r is ItemRevisionGap),
            },
    {
        let i = match self.entries.index_of(item_id) {
            Some(i) => i,
            None => return Err(ReduceError::UnknownTranscriptItem(item_id.duplicate())),
        };
        proof {
            self.entries.lemma_items();
            self.entries.lemma_unique();
        }
        let entries = self.entries.iter();
        proof {
            assert(entries@[i as int]@ == self.entries@[i as int].1);
            assert(self.entries@[i as int].0 == item_id@);
            assert(entry_identity(self.entries@[i as int].1) == item_id@);
        }
        match &entries[i] {
            TranscriptEntryView::Text(item) => {
                if item.finalized {
                    Err(ReduceError::ItemAlreadyFinalized(item.id.duplicate()))
                } else {
                    Ok((i, item.duplicate()))
                }
            },
            _ => Err(ReduceError::EntryKindChanged(item_id.duplicate())),
        }
    }

    /// Replaces the entry at position `i` by one under the same identity.
    fn replace_entry(&mut self, i: usize, entry: TranscriptEntryView)
        requires
            old(self).wf(),
            i < old(self).entries_view().len(),
            old(self).entries_view()[i as int].0 == entry_identity(entry@),
        ensures
            final(self).wf(),
            final(self).same_agent(old(self)),
            final(self).entries_view() == old(self).entries_view().update(
                i as int,
                (entry_identity(entry@), entry@),
            ),
    {
        let ghost before = self.entries@;
        let ghost value = entry@;
        let slot = self.entries.get_mut_at(i);
        *slot = entry;
        proof {
            lemma_replace_keeps_wf(before, i as int, value);
        }
    }

    /// Appends streamed text to an open transcript item. A closed item is refused before its
    /// revision is judged, and a refused delta leaves the text as it was.
    pub fn append_delta(&mut self, item_id: &TranscriptItemId, item_revision: u64, text: &str) -> (result:
        Result<(), ReduceError>)
        requires
            old(self).wf(),
            revision_room(old(self).entries_view(), item_id@),
        ensures
            final(self).wf(),
            final(self).same_agent(old(self)),
            match text_refusal(old(self).entries_view(), item_id@, item_revision) {
                Some(r) => result matches Err(e) && e@ == r && final(self).entries_view() == old(
                    self,
                ).entries_view(),
                None => result is Ok && final(self).entries_view() == with_delta(
                    old(self).entries_view(),
                    item_id@,
                    item_revision,
                    text@,
                ),
            },
    {
        let (i, mut item) = match self.open_text(item_id) {
            Ok(found) => found,
            Err(e) => return Err(e),
        };
        match item.advance_revision(item_revision) {
            Ok(()) => {},
            Err(e) => return Err(e),
        }
        item.source.append(text);
        self.replace_entry(i, TranscriptEntryView::Text(item));
        Ok(())
    }

    /// Closes a transcript item to further deltas. Closing a closed item is refused rather than
    /// absorbed, so it never consumes a revision.
    pub fn finalize_item(&mut self, item_id: &TranscriptItemId, item_revision: u64) -> (result: Result<
        (),
        ReduceError,
    >)
        requires
            old(self).wf(),
            revision_room(old(self).entries_view(), item_id@),
        ensures
            final(self).wf(),
            final(self).same_agent(old(self)),
            match text_refusal(old(self).entries_view(), item_id@, item_revision) {
                Some(r) => result matches Err(e) && e@ == r && final(self).entries_view() == old(
                    self,
                ).entries_view(),
                None => result is Ok && final(self).entries_view() == with_finalized(
                    old(self).entries_view(),
                    item_id@,
                    item_revision,
                ),
            },
    {
        let (i, mut item) = match self.open_text(item_id) {
            Ok(found) => found,
            Err(e) => return Err(e),
        };
        match item.advance_revision(item_revision) {
            Ok(()) => {},
            Err(e) => return Err(e),
        }
        item.finalized = true;
        self.replace_entry(i, TranscriptEntryView::Text(item));
        Ok(())
    }
}

impl AgentView {
    /// Whether some tool entry is the call `call`.
    fn has_tool_call(&self, call: &ToolCallId) -> (found: bool)
        requires
            self.wf(),
        ensures
            found == has_call(self.entries_view(), call@),
    {
        proof {
            self.entries.lemma_items();
        }
        let entries = self.entries.iter();
        let mut k: usize = 0;
        while k < entries.len()
            invariant
                self.wf(),
                entries@.len() == self.entries_view().len(),
                forall|j: int| 0 <= j < entries@.len() ==> #[trigger] entries@[j]@ == self.entries_view()[j].1,
                k <= entries@.len(),
                forall|j: int|
                    0 <= j < k ==> !(#[trigger] self.entries_view()[j].1 matches EntryValue::Tool(tool)
                        && tool.id == call@),
            decreases entries@.len() - k,
        {
            match &entries[k] {
                TranscriptEntryView::Tool(tool) => {
                    if tool.id.same(call) {
                        proof {
                            assert(entries@[k as int]@ == self.entries_view()[k as int].1);
                        }
                        return true;
                    }
                },
                _ => {},
            }
            proof {
                assert(entries@[k as int]@ == self.entries_view()[k as int].1);
            }
            k += 1;
        }
        false
    }

    /// Creates or updates one tool call, keeping its arrival position. Creation needs queued
    /// revision zero; an update must carry the next revision and an allowed transition.
    pub fn set_tool_activity(
        &mut self,
        entry_id: TranscriptItemId,
        item_revision: u64,
        id: ToolCallId,
        label: String,
        status: ToolCallStatus,
        presentation: String,
    ) -> (result: Result<bool, ReduceError>)
        requires
            old(self).wf(),
        ensures
            final(self).wf(),
            final(self).same_agent(old(self)),
            match tool_refusal(old(self).entries_view(), entry_id@, item_revision, id@, label@, status) {
                Some(r) => result matches Err(e) && e@ == r && final(self).entries_view() == old(
                    self,
                ).entries_view(),
                None => result == Ok::<bool, ReduceError>(true) && final(self).entries_view()
                    == with_tool(
                    old(self).entries_view(),
                    entry_id@,
                    item_revision,
                    id@,
                    label@,
                    status,
                    presentation@,
                ),
            },
    {
        proof {
            self.entries.lemma_items();
            self.entries.lemma_unique();
        }
        match self.entries.index_of(&entry_id) {
            Some(i) => {
                let updated = {
                    let entries = self.entries.iter();
                    proof {
                        assert(entries@[i as int]@ == self.entries@[i as int].1);
                        assert(entry_identity(self.entries@[i as int].1) == self.entries@[i as int].0);
                    }
                    match &entries[i] {
                        TranscriptEntryView::Tool(tool) => {
                            if !tool.id.same(&id) || tool.label != label {
                                return Err(ReduceError::ToolCorrelationChanged(entry_id));
                            }
                            let expected = tool.revision.saturating_add(1);
                            if item_revision != expected {
                                return Err(
                                    ReduceError::ItemRevisionGap {
                                        item_id: entry_id,
                                        expected,
                                        received: item_revision,
                                    },
                                );
                            }
                            if !tool.status.can_transition_to(status) {
                                return Err(
                                    ReduceError::InvalidToolTransition {
                                        call_id: id,
                                        from: tool.status,
                                        to: status,
                                    },
                                );
                            }
                            ToolCallView {
                                saved_project_permission: duplicate_grant(&tool.saved_project_permission),
                                entry_id: tool.entry_id.duplicate(),
                                id: tool.id.duplicate(),
                                label: tool.label.clone(),
                                status,
                                presentation,
                                revision: item_revision,
                            }
                        },
                        _ => return Err(ReduceError::EntryKindChanged(entry_id)),
                    }
                };
                self.replace_entry(i, TranscriptEntryView::Tool(updated));
                Ok(true)
            },
            None => {
                if item_revision != 0 || status != ToolCallStatus::Queued {
                    return Err(ReduceError::UnknownTranscriptItem(entry_id));
                }
                if self.has_tool_call(&id) {
                    return Err(ReduceError::DuplicateToolCall(id));
                }
                let key = entry_id.duplicate();
                let tool = ToolCallView {
                    saved_project_permission: None,
                    entry_id,
                    id,
                    label,
                    status,
                    presentation,
                    revision: 0,
                };
                self.insert_terminal(key, TranscriptEntryView::Tool(tool))
            },
        }
    }

    /// Records a published artifact under a new entry.
    pub fn announce_artifact(
        &mut self,
        entry_id: TranscriptItemId,
        id: ArtifactId,
        label: String,
        pointer: String,
    ) -> (result: Result<bool, ReduceError>)
        requires
            old(self).wf(),
        ensures
            final(self).wf(),
            final(self).same_agent(old(self)),
            match result {
                Ok(added) => added && !has_key(old(self).entries_view(), entry_id@)
                    && final(self).entries_view() == old(self).entries_view().push(
                    (
                        entry_id@,
                        EntryValue::Artifact(
                            ArtifactValue {
                                entry_id: entry_id@,
                                id: id@,
                                label: label@,
                                pointer: pointer@,
                                revision: 0,
                            },
                        ),
                    ),
                ),
                Err(e) => has_key(old(self).entries_view(), entry_id@) && e@
                    == Refusal::DuplicateTranscriptItem(entry_id@) && final(self).entries_view()
                    == old(self).entries_view(),
            },
    {
        let key = entry_id.duplicate();
        let artifact = ArtifactView { entry_id, id, label, pointer, revision: 0 };
        self.insert_terminal(key, TranscriptEntryView::Artifact(artifact))
    }

    /// Files a tool call the provider ran on its own side. It arrives finished, so it is filed
    /// once at revision zero and a repeat of its identity is refused.
    pub fn note_server_tool(&mut self, entry_id: TranscriptItemId, call: ServerToolCall) -> (result: Result<bool, ReduceError>)
        requires
            old(self).wf(),
        ensures
            final(self).wf(),
            final(self).same_agent(old(self)),
            match result {
                Ok(added) => added && !has_key(old(self).entries_view(), entry_id@)
                    && final(self).entries_view() == old(self).entries_view().push(
                    (entry_id@, EntryValue::ServerTool(ServerToolValue { entry_id: entry_id@, call: call@, revision: 0 })),
                ),
                Err(e) => has_key(old(self).entries_view(), entry_id@) && e@
                    == Refusal::DuplicateTranscriptItem(entry_id@) && final(self).entries_view()
                    == old(self).entries_view(),
            },
    {
        let key = entry_id.duplicate();
        let noted = ServerToolView { entry_id, call, revision: 0 };
        self.insert_terminal(key, TranscriptEntryView::ServerTool(noted))
    }

    /// Files one side of a task assigned from `from` to `to`: this agent's conversation holds it.
    pub fn assign_task(
        &mut self,
        entry_id: TranscriptItemId,
        from: AgentId,
        to: AgentId,
        task: String,
    ) -> (result: Result<bool, ReduceError>)
        requires
            old(self).wf(),
        ensures
            final(self).wf(),
            final(self).same_agent(old(self)),
            match result {
                Ok(added) => added && !has_key(old(self).entries_view(), entry_id@)
                    && final(self).entries_view() == old(self).entries_view().push(
                    (
                        entry_id@,
                        EntryValue::Task(
                            TaskValue {
                                entry_id: entry_id@,
                                owner: old(self).id_view(),
                                from: from@,
                                to: to@,
                                task: task@,
                                revision: 0,
                            },
                        ),
                    ),
                ),
                Err(e) => has_key(old(self).entries_view(), entry_id@) && e@
                    == Refusal::DuplicateTranscriptItem(entry_id@) && final(self).entries_view()
                    == old(self).entries_view(),
            },
    {
        let key = entry_id.duplicate();
        let owner = self.id.duplicate();
        let assigned = TaskView { entry_id, owner, from, to, task, revision: 0 };
        self.insert_terminal(key, TranscriptEntryView::Task(assigned))
    }

    /// Adds one outgoing mail item to its producer's transcript: this agent owns it.
    pub fn deliver_mail(
        &mut self,
        entry_id: TranscriptItemId,
        id: MailId,
        from: AgentId,
        to: AgentId,
        summary: String,
    ) -> (result: Result<bool, ReduceError>)
        requires
            old(self).wf(),
        ensures
            final(self).wf(),
            final(self).same_agent(old(self)),
            match result {
                Ok(added) => added && !has_key(old(self).entries_view(), entry_id@)
                    && final(self).entries_view() == old(self).entries_view().push(
                    (
                        entry_id@,
                        EntryValue::Mail(
                            MailValue {
                                entry_id: entry_id@,
                                id: id@,
                                owner: old(self).id_view(),
                                from: from@,
                                to: to@,
                                summary: summary@,
                                revision: 0,
                            },
                        ),
                    ),
                ),
                Err(e) => has_key(old(self).entries_view(), entry_id@) && e@
                    == Refusal::DuplicateTranscriptItem(entry_id@) && final(self).entries_view()
                    == old(self).entries_view(),
            },
    {
        let key = entry_id.duplicate();
        let owner = self.id.duplicate();
        let mail = MailView { entry_id, id, owner, from, to, summary, revision: 0 };
        self.insert_terminal(key, TranscriptEntryView::Mail(mail))
    }

    /// Records a runtime condition as a closed system item: an error, or else a warning.
    pub fn runtime_message(&mut self, entry_id: TranscriptItemId, message: String, error: bool) -> (result:
        Result<bool, ReduceError>)
        requires
            old(self).wf(),
        ensures
            final(self).wf(),
            final(self).same_agent(old(self)),
            match result {
                Ok(added) => added && !has_key(old(self).entries_view(), entry_id@)
                    && final(self).entries_view() == old(self).entries_view().push(
                    (
                        entry_id@,
                        EntryValue::Text(
                            TextValue {
                                id: entry_id@,
                                role: TranscriptRole::System,
                                kind: if error {
                                    TranscriptTextKind::Error
                                } else {
                                    TranscriptTextKind::Warning
                                },
                                source: message@,
                                revision: 0,
                                finalized: true,
                            },
                        ),
                    ),
                ),
                Err(e) => has_key(old(self).entries_view(), entry_id@) && e@
                    == Refusal::DuplicateTranscriptItem(entry_id@) && final(self).entries_view()
                    == old(self).entries_view(),
            },
    {
        let key = entry_id.duplicate();
        let item = TranscriptItemView {
            id: entry_id,
            role: TranscriptRole::System,
            kind: if error {
                TranscriptTextKind::Error
            } else {
                TranscriptTextKind::Warning
            },
            source: message,
            revision: 0,
            finalized: true,
        };
        self.insert_terminal(key, TranscriptEntryView::Text(item))
    }
}

impl AgentView {
    /// Transcript items, in arrival order.
    pub fn transcript(&self) -> (found: Vec<&TranscriptItemView>)
        requires
            self.wf(),
        ensures
            found@.map_values(|x: &TranscriptItemView| x@) == texts_of(self.entries_view()),
    {
        proof {
            self.entries.lemma_items();
        }
        let entries = self.entries.iter();
        let ghost m = self.entries_view();
        let mut found: Vec<&TranscriptItemView> = Vec::new();
        let mut k: usize = 0;
        proof {
            assert(m.take(0) =~= Seq::<(Seq<char>, EntryValue)>::empty());
            assert(found@.map_values(|x: &TranscriptItemView| x@) =~= texts_of(m.take(0)));
        }
        while k < entries.len()
            invariant
                m == self.entries_view(),
                entries@.len() == m.len(),
                forall|j: int| 0 <= j < entries@.len() ==> #[trigger] entries@[j]@ == m[j].1,
                k <= entries@.len(),
                found@.map_values(|x: &TranscriptItemView| x@) == texts_of(m.take(k as int)),
            decreases entries@.len() - k,
        {
            proof {
                assert(m.take(k + 1).drop_last() =~= m.take(k as int));
                assert(m.take(k + 1).last() == m[k as int]);
                assert(entries@[k as int]@ == m[k as int].1);
            }
            match &entries[k] {
                TranscriptEntryView::Text(item) => {
                    found.push(item);
                    proof {
                        assert(found@.map_values(|x: &TranscriptItemView| x@) =~= texts_of(m.take(k as int)).push(item@));
                    }
                },
                _ => {
                    proof {
                        assert(found@.map_values(|x: &TranscriptItemView| x@) =~= texts_of(m.take(k as int)) + Seq::empty());
                    }
                },
            }
            k += 1;
        }
        proof {
            assert(m.take(m.len() as int) =~= m);
        }
        found
    }

    /// Tool calls, in arrival order.
    pub fn tool_activity(&self) -> (found: Vec<&ToolCallView>)
        requires
            self.wf(),
        ensures
            found@.map_values(|x: &ToolCallView| x@) == tools_of(self.entries_view()),
    {
        proof {
            self.entries.lemma_items();
        }
        let entries = self.entries.iter();
        let ghost m = self.entries_view();
        let mut found: Vec<&ToolCallView> = Vec::new();
        let mut k: usize = 0;
        proof {
            assert(m.take(0) =~= Seq::<(Seq<char>, EntryValue)>::empty());
            assert(found@.map_values(|x: &ToolCallView| x@) =~= tools_of(m.take(0)));
        }
        while k < entries.len()
            invariant
                m == self.entries_view(),
                entries@.len() == m.len(),
                forall|j: int| 0 <= j < entries@.len() ==> #[trigger] entries@[j]@ == m[j].1,
                k <= entries@.len(),
                found@.map_values(|x: &ToolCallView| x@) == tools_of(m.take(k as int)),
            decreases entries@.len() - k,
        {
            proof {
                assert(m.take(k + 1).drop_last() =~= m.take(k as int));
                assert(m.take(k + 1).last() == m[k as int]);
                assert(entries@[k as int]@ == m[k as int].1);
            }
            match &entries[k] {
                TranscriptEntryView::Tool(tool) => {
                    found.push(tool);
                    proof {
                        assert(found@.map_values(|x: &ToolCallView| x@) =~= tools_of(m.take(k as int)).push(tool@));
                    }
                },
                _ => {
                    proof {
                        assert(found@.map_values(|x: &ToolCallView| x@) =~= tools_of(m.take(k as int)) + Seq::empty());
                    }
                },
            }
            k += 1;
        }
        proof {
            assert(m.take(m.len() as int) =~= m);
        }
        found
    }

    /// Announced artifacts, in arrival order.
    pub fn artifacts(&self) -> (found: Vec<&ArtifactView>)
        requires
            self.wf(),
        ensures
            found@.map_values(|x: &ArtifactView| x@) == artifacts_of(self.entries_view()),
    {
        proof {
            self.entries.lemma_items();
        }
        let entries = self.entries.iter();
        let ghost m = self.entries_view();
        let mut found: Vec<&ArtifactView> = Vec::new();
        let mut k: usize = 0;
        proof {
            assert(m.take(0) =~= Seq::<(Seq<char>, EntryValue)>::empty());
            assert(found@.map_values(|x: &ArtifactView| x@) =~= artifacts_of(m.take(0)));
        }
        while k < entries.len()
            invariant
                m == self.entries_view(),
                entries@.len() == m.len(),
                forall|j: int| 0 <= j < entries@.len() ==> #[trigger] entries@[j]@ == m[j].1,
                k <= entries@.len(),
                found@.map_values(|x: &ArtifactView| x@) == artifacts_of(m.take(k as int)),
            decreases entries@.len() - k,
        {
            proof {
                assert(m.take(k + 1).drop_last() =~= m.take(k as int));
                assert(m.take(k + 1).last() == m[k as int]);
                assert(entries@[k as int]@ == m[k as int].1);
            }
            match &entries[k] {
                TranscriptEntryView::Artifact(artifact) => {
                    found.push(artifact);
                    proof {
                        assert(found@.map_values(|x: &ArtifactView| x@) =~= artifacts_of(m.take(k as int)).push(artifact@));
                    }
                },
                _ => {
                    proof {
                        assert(found@.map_values(|x: &ArtifactView| x@) =~= artifacts_of(m.take(k as int)) + Seq::empty());
                    }
                },
            }
            k += 1;
        }
        proof {
            assert(m.take(m.len() as int) =~= m);
        }
        found
    }

    /// Delivered mail, in arrival order.
    pub fn mail(&self) -> (found: Vec<&MailView>)
        requires
            self.wf(),
        ensures
            found@.map_values(|x: &MailView| x@) == mail_of(self.entries_view()),
    {
        proof {
            self.entries.lemma_items();
        }
        let entries = self.entries.iter();
        let ghost m = self.entries_view();
        let mut found: Vec<&MailView> = Vec::new();
        let mut k: usize = 0;
        proof {
            assert(m.take(0) =~= Seq::<(Seq<char>, EntryValue)>::empty());
            assert(found@.map_values(|x: &MailView| x@) =~= mail_of(m.take(0)));
        }
        while k < entries.len()
            invariant
                m == self.entries_view(),
                entries@.len() == m.len(),
                forall|j: int| 0 <= j < entries@.len() ==> #[trigger] entries@[j]@ == m[j].1,
                k <= entries@.len(),
                found@.map_values(|x: &MailView| x@) == mail_of(m.take(k as int)),
            decreases entries@.len() - k,
        {
            proof {
                assert(m.take(k + 1).drop_last() =~= m.take(k as int));
                assert(m.take(k + 1).last() == m[k as int]);
                assert(entries@[k as int]@ == m[k as int].1);
            }
            match &entries[k] {
                TranscriptEntryView::Mail(mail) => {
                    found.push(mail);
                    proof {
                        assert(found@.map_values(|x: &MailView| x@) =~= mail_of(m.take(k as int)).push(mail@));
                    }
                },
                _ => {
                    proof {
                        assert(found@.map_values(|x: &MailView| x@) =~= mail_of(m.take(k as int)) + Seq::empty());
                    }
                },
            }
            k += 1;
        }
        proof {
            assert(m.take(m.len() as int) =~= m);
        }
        found
    }

}

/// The same optional grant, as a separate value.
fn duplicate_grant(grant: &Option<crate::ids::PermissionGrantId>) -> (copy: Option<crate::ids::PermissionGrantId>)
    ensures
        crate::entry::optional_id(copy) == crate::entry::optional_id(*grant),
{
    match grant {
        Some(g) => Some(g.duplicate()),
        None => None,
    }
}

/// Replacing the entry at `i` by one with the same identity keeps the transcript well formed.
proof fn lemma_replace_keeps_wf(m: Entries, i: int, value: EntryValue)
    requires
        entries_wf(m),
        0 <= i < m.len(),
        entry_identity(value) == m[i].0,
    ensures
        entries_wf(m.update(i, (m[i].0, value))),
{
    let r = m.update(i, (m[i].0, value));
    assert forall|a: int, b: int| 0 <= a < b < r.len() implies #[trigger] r[a].0 != #[trigger] r[b].0 by {
        assert(r[a].0 == m[a].0);
        assert(r[b].0 == m[b].0);
    }
    assert forall|a: int| 0 <= a < r.len() implies #[trigger] entry_identity(r[a].1) == r[a].0 by {
        if a != i {
            assert(r[a] == m[a]);
        }
    }
}

/// After a text update under `id`, the entry is still found where it was, holding `item`.
proof fn lemma_text_replaced(m: Entries, id: Seq<char>, item: TextValue)
    requires
        entries_wf(m),
        has_key(m, id),
        item.id == id,
    ensures
        entries_wf(with_text(m, id, item)),
        has_key(with_text(m, id, item), id),
        key_pos(with_text(m, id, item), id) == key_pos(m, id),
        lookup(with_text(m, id, item), id) == EntryValue::Text(item),
        keys_of(with_text(m, id, item)) == keys_of(m),
{
    let p = key_pos(m, id);
    let r = with_text(m, id, item);
    lemma_replace_keeps_wf(m, p, EntryValue::Text(item));
    assert(m[p].0 == id);
    lemma_key_pos(r, p);
    assert(keys_of(r) =~= keys_of(m));
}

/// Once an item is finalized, every later delta or finalization for it is refused as closed.
pub proof fn law_a_finalized_item_takes_nothing_more(
    m: Entries,
    id: Seq<char>,
    revision: u64,
    later: u64,
)
    requires
        entries_wf(m),
        text_refusal(m, id, revision) is None,
    ensures
        text_refusal(with_finalized(m, id, revision), id, later) == Some(
            Refusal::ItemAlreadyFinalized(id),
        ),
{
    let item = text_at(m, id)->0;
    lemma_key_pos(m, key_pos(m, id));
    assert(entry_identity(m[key_pos(m, id)].1) == m[key_pos(m, id)].0);
    lemma_text_replaced(m, id, TextValue { finalized: true, revision, ..item });
}

/// An accepted delta consumes its revision: the same delta offered again is refused as a gap
/// that expects the next one.
pub proof fn law_a_repeated_delta_is_refused(m: Entries, id: Seq<char>, revision: u64, text: Seq<char>)
    requires
        entries_wf(m),
        text_refusal(m, id, revision) is None,
        revision < u64::MAX,
    ensures
        text_refusal(with_delta(m, id, revision, text), id, revision) == Some(
            Refusal::ItemRevisionGap { item_id: id, expected: (revision + 1) as u64, received: revision },
        ),
{
    let item = text_at(m, id)->0;
    lemma_key_pos(m, key_pos(m, id));
    assert(entry_identity(m[key_pos(m, id)].1) == m[key_pos(m, id)].0);
    lemma_text_replaced(m, id, TextValue { source: item.source + text, revision, ..item });
}

/// Accepted updates keep every entry where it first appeared; only a new entry is added, last.
pub proof fn law_updates_keep_arrival_order(
    m: Entries,
    id: Seq<char>,
    revision: u64,
    text: Seq<char>,
    call: Seq<char>,
    label: Seq<char>,
    status: ToolCallStatus,
    presentation: Seq<char>,
)
    requires
        entries_wf(m),
    ensures
        text_refusal(m, id, revision) is None ==> keys_of(with_delta(m, id, revision, text))
            == keys_of(m) && keys_of(with_finalized(m, id, revision)) == keys_of(m),
        tool_refusal(m, id, revision, call, label, status) is None ==> keys_of(
            with_tool(m, id, revision, call, label, status, presentation),
        ) == if has_key(m, id) {
            keys_of(m)
        } else {
            keys_of(m).push(id)
        },
{
    if text_refusal(m, id, revision) is None {
        let item = text_at(m, id)->0;
        lemma_key_pos(m, key_pos(m, id));
        assert(entry_identity(m[key_pos(m, id)].1) == m[key_pos(m, id)].0);
        lemma_text_replaced(m, id, TextValue { source: item.source + text, revision, ..item });
        lemma_text_replaced(m, id, TextValue { finalized: true, revision, ..item });
    }
    if tool_refusal(m, id, revision, call, label, status) is None {
        let r = with_tool(m, id, revision, call, label, status, presentation);
        if has_key(m, id) {
            assert(keys_of(r) =~= keys_of(m));
        } else {
            assert(keys_of(r) =~= keys_of(m).push(id));
        }
    }
}

/// A finished tool call never changes again: every later event for its entry is refused.
pub proof fn law_a_finished_call_stays_finished(
    m: Entries,
    entry: Seq<char>,
    revision: u64,
    call: Seq<char>,
    label: Seq<char>,
    status: ToolCallStatus,
)
    requires
        has_key(m, entry),
        lookup(m, entry) matches EntryValue::Tool(tool) && is_terminal(tool.status),
    ensures
        tool_refusal(m, entry, revision, call, label, status) is Some,
{
}


/// A delta lands exactly on the next revision of an open text item, and then the item keeps its
/// place, its text grows by the delta and it takes that revision. Otherwise it is refused for the
/// first reason that holds: no such entry, not text, already finalized, a revision gap.
pub proof fn law_a_delta_lands_only_on_the_next_revision(m: Entries, id: Seq<char>, revision: u64, text: Seq<char>)
    requires
        entries_wf(m),
    ensures
        (text_refusal(m, id, revision) is None) == (text_at(m, id) matches Some(item) && !item.finalized
            && revision == item.revision + 1),
        !has_key(m, id) ==> text_refusal(m, id, revision) == Some(Refusal::UnknownTranscriptItem(id)),
        has_key(m, id) && !(lookup(m, id) is Text) ==> text_refusal(m, id, revision) == Some(
            Refusal::EntryKindChanged(id),
        ),
        (text_at(m, id) matches Some(item) && item.finalized) ==> text_refusal(m, id, revision) == Some(
            Refusal::ItemAlreadyFinalized(id),
        ),
        text_refusal(m, id, revision) is None ==> ({
            let item = text_at(m, id)->0;
            let after = with_delta(m, id, revision, text);
            &&& keys_of(after) == keys_of(m)
            &&& text_at(after, id) == Some(TextValue { source: item.source + text, revision, ..item })
        }),
{
    if has_key(m, id) {
        let p = key_pos(m, id);
        lemma_key_pos(m, p);
        assert(entry_identity(m[p].1) == m[p].0);
        if let Some(item) = text_at(m, id) {
            if !item.finalized && revision == item.revision + 1 {
                lemma_text_replaced(m, id, TextValue { source: item.source + text, revision, ..item });
            }
        }
    }
}

/// A tool update is refused for the first reason that holds, and otherwise applied: an entry
/// that is not a tool; a call or label that moved; a revision other than the next; a status the
/// call cannot move to. An entry not seen yet must open the call queued at revision zero, and a
/// call identity cannot open twice.
pub proof fn law_a_tool_update_is_refused_for_its_first_fault(
    m: Entries,
    entry: Seq<char>,
    revision: u64,
    call: Seq<char>,
    label: Seq<char>,
    status: ToolCallStatus,
)
    ensures
        has_key(m, entry) && !(lookup(m, entry) is Tool) ==> tool_refusal(m, entry, revision, call, label, status)
            == Some(Refusal::EntryKindChanged(entry)),
        has_key(m, entry) ==> (lookup(m, entry) matches EntryValue::Tool(tool) ==> tool_refusal(
            m,
            entry,
            revision,
            call,
            label,
            status,
        ) == if tool.id != call || tool.label != label {
            Some(Refusal::ToolCorrelationChanged(entry))
        } else if revision != next_revision(tool.revision) {
            Some(Refusal::ItemRevisionGap { item_id: entry, expected: next_revision(tool.revision), received: revision })
        } else if !transition_allowed(tool.status, status) {
            Some(Refusal::InvalidToolTransition { call_id: call, from: tool.status, to: status })
        } else {
            None
        }),
        !has_key(m, entry) ==> tool_refusal(m, entry, revision, call, label, status) == if revision != 0
            || status != ToolCallStatus::Queued {
            Some(Refusal::UnknownTranscriptItem(entry))
        } else if has_call(m, call) {
            Some(Refusal::DuplicateToolCall(call))
        } else {
            None
        },
{
}

} // verus!

verus! {

/// An update that moves a live call on by one revision, under its own identity and label, is
/// applied whenever the status may move: a call awaiting approval that is approved starts
/// running, and a running call can succeed.
pub proof fn law_an_approved_call_starts_running(
    m: Entries,
    entry: Seq<char>,
    call: Seq<char>,
    label: Seq<char>,
    to: ToolCallStatus,
)
    requires
        has_key(m, entry),
        lookup(m, entry) matches EntryValue::Tool(tool) && tool.id == call && tool.label == label
            && transition_allowed(tool.status, to),
    ensures
        ({
            let tool = lookup(m, entry)->Tool_0;
            tool_refusal(m, entry, next_revision(tool.revision), call, label, to) is None
        }),
        (lookup(m, entry) matches EntryValue::Tool(tool) && tool.status is AwaitingApproval) ==> ({
            let tool = lookup(m, entry)->Tool_0;
            tool_refusal(m, entry, next_revision(tool.revision), call, label, ToolCallStatus::Running) is None
        }),
{
    crate::entry::law_a_live_call_moves_on(ToolCallStatus::AwaitingApproval, ToolCallStatus::Running);
}

} // verus!


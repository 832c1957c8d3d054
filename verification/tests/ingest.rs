use plexmaton_tui::agent::ReduceError;
use plexmaton_tui::current_work::CurrentWork;
use plexmaton_tui::entry::{
    ServerTool, ServerToolAction, ServerToolCall, ServerToolStatus, ToolCallStatus, TranscriptEntryView,
    TranscriptTextKind,
};
use plexmaton_tui::ids::Identity;
use plexmaton_tui::ingest::{
    ApplyOutcome, ConversationEvent, ConversationEventEnvelope, Notice, Projection, TokenCounts, TokenUsage,
};
use plexmaton_tui::view::{AgentStatus, TranscriptRole};

fn agent_id(value: &str) -> Identity {
    Identity::new(value)
}

fn item_id(value: &str) -> Identity {
    Identity::new(value)
}

fn envelope(sequence: u64, event: ConversationEvent) -> ConversationEventEnvelope {
    ConversationEventEnvelope { sequence, event }
}

fn created(id: &str) -> ConversationEvent {
    ConversationEvent::AgentCreated { agent_id: agent_id(id), label: id.to_owned(), status: AgentStatus::Running }
}

fn tool_event(entry: &str, call: &str, revision: u64, status: ToolCallStatus) -> ConversationEvent {
    ConversationEvent::ToolCallChanged {
        agent_id: agent_id("agent-a"),
        item_id: item_id(entry),
        item_revision: revision,
        call_id: Identity::new(call),
        label: call.to_owned(),
        status,
        presentation: String::new(),
    }
}

fn accepted(outcome: ApplyOutcome) -> bool {
    matches!(outcome, ApplyOutcome::Accepted)
}

#[test]
fn shuffled_tool_completions_update_their_original_entries() {
    let mut state = Projection::new();
    state.apply(envelope(1, created("agent-a")));
    let events = [
        tool_event("entry-a", "call-a", 0, ToolCallStatus::Queued),
        tool_event("entry-b", "call-b", 0, ToolCallStatus::Queued),
        tool_event("entry-a", "call-a", 1, ToolCallStatus::Running),
        tool_event("entry-b", "call-b", 1, ToolCallStatus::Running),
        tool_event("entry-b", "call-b", 2, ToolCallStatus::Succeeded),
        tool_event("entry-a", "call-a", 2, ToolCallStatus::Succeeded),
    ];
    for (index, event) in events.into_iter().enumerate() {
        assert!(accepted(state.apply(envelope(index as u64 + 2, event))));
    }

    let entries: Vec<(String, String, ToolCallStatus)> = state.agents()[0]
        .entries()
        .iter()
        .filter_map(|entry| match entry {
            TranscriptEntryView::Tool(tool) => {
                Some((tool.entry_id.as_str().to_owned(), tool.id.as_str().to_owned(), tool.status))
            }
            _ => None,
        })
        .collect();
    assert_eq!(
        entries,
        [
            ("entry-a".to_owned(), "call-a".to_owned(), ToolCallStatus::Succeeded),
            ("entry-b".to_owned(), "call-b".to_owned(), ToolCallStatus::Succeeded),
        ]
    );
}

#[test]
fn ingest_sequence_gap_resynchronizes_and_records_a_notice() {
    let mut state = Projection::new();

    assert!(accepted(state.apply(envelope(1, created("agent-a")))));
    assert!(accepted(state.apply(envelope(4, created("agent-b")))));

    assert_eq!(state.agents().len(), 2);
    assert!(matches!(state.notices().first(), Some(Notice::SequenceGap { expected: 2, received: 4 })));
}

#[test]
fn ingest_stale_sequence_is_rejected_without_rewinding() {
    let mut state = Projection::new();
    state.apply(envelope(1, created("agent-a")));
    state.apply(envelope(2, created("agent-b")));

    let outcome = state.apply(envelope(2, created("agent-c")));

    assert!(matches!(
        outcome,
        ApplyOutcome::Rejected(ReduceError::StaleSequence { expected: 3, received: 2 })
    ));
    assert_eq!(state.agents().len(), 2);
    // The next in-order event must still be accepted, proving the rewind did not happen.
    assert!(accepted(state.apply(envelope(3, created("agent-c")))));
}

#[test]
fn an_entry_identity_cannot_move_between_agents() {
    let mut state = Projection::new();
    state.apply(envelope(1, created("agent-a")));
    state.apply(envelope(2, created("agent-b")));
    state.apply(envelope(
        3,
        ConversationEvent::TranscriptItemStarted {
            agent_id: agent_id("agent-a"),
            item_id: item_id("shared"),
            role: TranscriptRole::Assistant,
        },
    ));

    assert!(matches!(
        state.apply(envelope(
            4,
            ConversationEvent::TranscriptDelta {
                agent_id: agent_id("agent-b"),
                item_id: item_id("shared"),
                item_revision: 1,
                text: "wrong owner".to_owned(),
            }
        )),
        ApplyOutcome::Rejected(ReduceError::EntryOwnerMismatch { .. })
    ));
    let source = state.agents()[0].transcript().first().map(|item| item.source.clone());
    assert_eq!(source, Some(String::new()));
}

#[test]
fn ingest_rejected_event_does_not_block_the_rest_of_the_stream() {
    let mut state = Projection::new();
    state.apply(envelope(1, created("agent-a")));

    let outcome = state.apply(envelope(2, created("agent-a")));

    assert!(matches!(outcome, ApplyOutcome::Rejected(ReduceError::DuplicateAgent(_))));
    assert!(accepted(state.apply(envelope(3, created("agent-b")))));
    assert_eq!(state.agents().len(), 2);
    assert_eq!(state.notices().len(), 1);
}

#[test]
fn a_repeated_agent_status_costs_no_frame() {
    let mut state = Projection::new();
    state.apply(envelope(1, created("agent-a")));
    let quiet = state.revision();
    assert_eq!(CurrentWork::derive(&state.agents()[0], &[]), Some(CurrentWork::Thinking));

    assert!(
        accepted(state.apply(envelope(
            2,
            ConversationEvent::AgentStatusChanged { agent_id: agent_id("agent-a"), status: AgentStatus::Running }
        ))),
        "the event is well formed, so it is accepted; what it is not is a change"
    );
    assert_eq!(state.revision(), quiet);
    assert_eq!(
        CurrentWork::derive(&state.agents()[0], &[]),
        Some(CurrentWork::Thinking),
        "the fact painted in the composer did not change either"
    );

    state.apply(envelope(
        3,
        ConversationEvent::AgentStatusChanged { agent_id: agent_id("agent-a"), status: AgentStatus::Waiting },
    ));
    assert!(state.revision() > quiet);
}

#[test]
fn tool_updates_refuse_revision_gaps_and_invalid_transitions() {
    let mut state = Projection::new();
    state.apply(envelope(1, created("agent-a")));

    assert!(accepted(state.apply(envelope(2, tool_event("entry-1", "tool-1", 0, ToolCallStatus::Queued)))));
    assert!(matches!(
        state.apply(envelope(3, tool_event("entry-1", "tool-1", 2, ToolCallStatus::Running))),
        ApplyOutcome::Rejected(ReduceError::ItemRevisionGap { expected: 1, .. })
    ));
    assert!(matches!(
        state.apply(envelope(4, tool_event("entry-1", "tool-1", 1, ToolCallStatus::Succeeded))),
        ApplyOutcome::Rejected(ReduceError::InvalidToolTransition { .. })
    ));
    assert!(matches!(
        state.apply(envelope(5, tool_event("entry-1", "tool-other", 1, ToolCallStatus::Running))),
        ApplyOutcome::Rejected(ReduceError::ToolCorrelationChanged(_))
    ));
    assert!(matches!(
        state.apply(envelope(6, tool_event("entry-other", "tool-1", 0, ToolCallStatus::Queued))),
        ApplyOutcome::Rejected(ReduceError::DuplicateToolCall(_))
    ));
    assert!(accepted(state.apply(envelope(7, tool_event("entry-1", "tool-1", 1, ToolCallStatus::Running)))));
    assert!(accepted(state.apply(envelope(8, tool_event("entry-1", "tool-1", 2, ToolCallStatus::Succeeded)))));
    let stored = state.agents()[0].tool_activity()[0];
    assert_eq!(stored.revision, 2);
    assert_eq!(stored.status, ToolCallStatus::Succeeded);
}

#[test]
fn ingest_rejection_advances_the_revision_because_the_notice_is_visible() {
    let mut state = Projection::new();
    state.apply(envelope(1, created("agent-a")));
    let before = state.revision();

    state.apply(envelope(2, created("agent-a")));

    assert!(state.revision() > before);
}

#[test]
fn a_letter_needs_both_of_its_conversations() {
    let mut state = Projection::new();
    state.apply(envelope(1, created("agent-a")));
    let letter = |sequence: u64, to: &str| {
        envelope(
            sequence,
            ConversationEvent::MailDelivered {
                agent_id: agent_id("agent-a"),
                item_id: item_id(&format!("mail-{sequence}")),
                mail_id: Identity::new("m-1"),
                from: agent_id("agent-a"),
                to: agent_id(to),
                summary: "hello".to_owned(),
            },
        )
    };
    assert!(matches!(state.apply(letter(2, "agent-b")), ApplyOutcome::Rejected(ReduceError::UnknownAgent(_))));
    state.apply(envelope(3, created("agent-b")));
    assert!(accepted(state.apply(letter(4, "agent-b"))));
    assert_eq!(state.agents()[0].mail()[0].owner.as_str(), "agent-a");
}

/// Reported turn usage is kept for a later diagnostics surface, but it paints nothing today, so
/// it costs no revision.
#[test]
fn usage_is_retained_without_charging_an_invisible_frame() {
    let mut state = Projection::new();
    state.apply(envelope(1, created("agent-a")));
    let before = state.revision();
    let turn_id = Identity::new("turn-1");

    assert!(accepted(state.apply(envelope(
        2,
        ConversationEvent::TurnUsageUpdated {
            agent_id: agent_id("agent-a"),
            turn_id: turn_id.clone(),
            usage: TokenUsage::Partial(TokenCounts {
                input: 10,
                cached_input: Some(2),
                cache_write_input: None,
                output: 4,
                reasoning_output: Some(3),
                total: 14,
            }),
        }
    ))));
    assert_eq!(state.revision(), before);
    let stored = state.usage(&agent_id("agent-a")).unwrap();
    assert_eq!(stored.turn_id, turn_id);
    assert!(matches!(stored.usage, TokenUsage::Partial(counts) if counts.total == 14));
}

#[test]
fn usage_for_an_unknown_agent_is_refused() {
    let mut state = Projection::new();
    state.apply(envelope(1, created("agent-a")));
    let outcome = state.apply(envelope(
        2,
        ConversationEvent::TurnUsageUpdated {
            agent_id: agent_id("agent-b"),
            turn_id: Identity::new("turn-1"),
            usage: TokenUsage::Complete(TokenCounts {
                input: 1,
                cached_input: None,
                cache_write_input: None,
                output: 1,
                reasoning_output: None,
                total: 2,
            }),
        },
    ));
    assert!(matches!(outcome, ApplyOutcome::Rejected(ReduceError::UnknownAgent(_))));
    assert!(state.usage(&agent_id("agent-b")).is_none());
}

#[test]
fn a_task_needs_both_of_its_conversations_and_files_once() {
    let mut state = Projection::new();
    state.apply(envelope(1, created("agent-a")));
    let task = |sequence: u64, to: &str| {
        envelope(
            sequence,
            ConversationEvent::TaskAssigned {
                agent_id: agent_id("agent-a"),
                item_id: item_id("task-1"),
                from: agent_id("agent-a"),
                to: agent_id(to),
                task: "review the parser".to_owned(),
            },
        )
    };
    assert!(matches!(state.apply(task(2, "agent-b")), ApplyOutcome::Rejected(ReduceError::UnknownAgent(_))));
    state.apply(envelope(3, created("agent-b")));
    let before = state.revision();
    assert!(accepted(state.apply(task(4, "agent-b"))));
    assert!(state.revision() > before);
    match &state.agents()[0].entries()[0] {
        TranscriptEntryView::Task(view) => {
            assert_eq!(view.owner.as_str(), "agent-a");
            assert_eq!(view.to.as_str(), "agent-b");
            assert_eq!(view.task, "review the parser");
            assert_eq!(view.revision, 0);
        }
        other => panic!("expected the task, found {other:?}"),
    }
    assert!(matches!(
        state.apply(task(5, "agent-b")),
        ApplyOutcome::Rejected(ReduceError::DuplicateTranscriptItem(_))
    ));
}

fn server_tool_event(agent: &Identity, entry: &str, queries: &[&str]) -> ConversationEvent {
    ConversationEvent::ServerToolCalled {
        agent_id: agent.clone(),
        item_id: item_id(entry),
        call: ServerToolCall {
            tool: ServerTool::WebSearch,
            action: ServerToolAction::Search { queries: queries.iter().map(|query| (*query).to_owned()).collect() },
            status: ServerToolStatus::Completed,
        },
    }
}

/// A call the provider ran appears once, finished, and a second report of the same entry is a
/// duplicate the notice log keeps, never an update to the row.
#[test]
fn a_server_tool_call_appears_finished_and_never_transitions() {
    let mut state = Projection::new();
    let agent = agent_id("agent-a");
    state.apply(envelope(1, created("agent-a")));
    assert!(accepted(state.apply(envelope(2, server_tool_event(&agent, "search", &["rust"])))));
    let outcome = state.apply(envelope(3, server_tool_event(&agent, "search", &["again"])));
    assert!(
        matches!(
            outcome,
            ApplyOutcome::Rejected(ReduceError::DuplicateTranscriptItem(ref item)) if item == &item_id("search")
        ),
        "{outcome:?}"
    );
    let entries = state.agents()[0].entries();
    assert!(
        matches!(
            entries,
            [TranscriptEntryView::ServerTool(view)]
                if view.revision == 0
                    && view.call.action == ServerToolAction::Search { queries: vec!["rust".to_owned()] }
        ),
        "{entries:?}"
    );
}

#[test]
fn every_transcript_category_enters_one_ordered_projection() {
    let mut state = Projection::new();
    let agent = agent_id("agent-a");
    state.apply(envelope(1, created("agent-a")));
    state.apply(envelope(2, created("agent-b")));
    state.apply(envelope(
        3,
        ConversationEvent::TranscriptItemStarted {
            agent_id: agent.clone(),
            item_id: item_id("text"),
            role: TranscriptRole::System,
        },
    ));
    state.apply(envelope(4, tool_event("tool", "tool-1", 0, ToolCallStatus::Queued)));
    state.apply(envelope(
        5,
        ConversationEvent::ArtifactAnnounced {
            agent_id: agent.clone(),
            item_id: item_id("artifact"),
            artifact_id: Identity::new("artifact-1"),
            label: "patch".to_owned(),
            pointer: "artifact://patch".to_owned(),
        },
    ));
    state.apply(envelope(
        6,
        ConversationEvent::MailDelivered {
            agent_id: agent.clone(),
            item_id: item_id("mail"),
            mail_id: Identity::new("mail-1"),
            from: agent.clone(),
            to: agent_id("agent-b"),
            summary: "findings".to_owned(),
        },
    ));
    state.apply(envelope(
        7,
        ConversationEvent::RuntimeWarning {
            agent_id: agent.clone(),
            item_id: item_id("warning"),
            message: "degraded".to_owned(),
        },
    ));
    state.apply(envelope(
        8,
        ConversationEvent::RuntimeError {
            agent_id: agent.clone(),
            item_id: item_id("error"),
            message: "failed".to_owned(),
        },
    ));
    state.apply(envelope(9, server_tool_event(&agent, "search", &["rust"])));

    let entries: Vec<_> = state.agents()[0]
        .entries()
        .iter()
        .map(|entry| match entry {
            TranscriptEntryView::Text(item) => match item.kind {
                TranscriptTextKind::Message => "text",
                TranscriptTextKind::Warning => "warning",
                TranscriptTextKind::Error => "error",
            },
            TranscriptEntryView::Tool(_) => "tool",
            TranscriptEntryView::ServerTool(_) => "server_tool",
            TranscriptEntryView::Artifact(_) => "artifact",
            TranscriptEntryView::Mail(_) => "mail",
            TranscriptEntryView::Task(_) => "task",
        })
        .collect();
    assert_eq!(entries, ["text", "tool", "artifact", "mail", "warning", "error", "server_tool"]);
    assert_eq!(state.notices().len(), 0, "semantic entries are not defects");
}

fn stream() -> Vec<ConversationEventEnvelope> {
    vec![
        envelope(1, created("agent-a")),
        envelope(
            2,
            ConversationEvent::TranscriptItemStarted {
                agent_id: agent_id("agent-a"),
                item_id: item_id("m1"),
                role: TranscriptRole::Assistant,
            },
        ),
        envelope(
            3,
            ConversationEvent::TranscriptDelta {
                agent_id: agent_id("agent-a"),
                item_id: item_id("m1"),
                item_revision: 1,
                text: "hello".to_owned(),
            },
        ),
        envelope(5, created("agent-a")),
        envelope(4, created("agent-b")),
    ]
}

#[test]
fn replaying_the_same_envelopes_gives_the_same_outcomes_and_projection() {
    let mut a = Projection::new();
    let mut b = Projection::new();
    let first: Vec<bool> = a.apply_all(stream()).into_iter().map(accepted).collect();
    let second: Vec<bool> = b.apply_all(stream()).into_iter().map(accepted).collect();
    assert_eq!(first, second);
    assert_eq!(first, vec![true, true, true, false, false]);
    assert_eq!(a.revision(), b.revision());
    assert_eq!(a.notices().len(), b.notices().len());
    assert_eq!(a.agents().len(), 1);
    assert_eq!(a.agents()[0].entries().len(), b.agents()[0].entries().len());
}

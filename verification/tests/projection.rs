use plexmaton_tui::ids::Identity;
use plexmaton_tui::view::{
    AgentStatus, ApplyOutcome, EventSequence, NoticeView, PrototypeEvent, PrototypeEventEnvelope,
    ReduceError, ToolActivityStatus, ViewState, NOTICE_CAPACITY,
};

fn agent_id(value: &str) -> Identity {
    Identity::new(value)
}

fn tool_id(value: &str) -> Identity {
    Identity::new(value)
}

fn envelope(sequence: u64, event: PrototypeEvent) -> PrototypeEventEnvelope {
    PrototypeEventEnvelope {
        sequence: EventSequence::new(sequence),
        event,
    }
}

fn created(id: &str) -> PrototypeEvent {
    PrototypeEvent::AgentCreated {
        agent_id: agent_id(id),
        label: id.to_owned(),
        status: AgentStatus::Running,
    }
}

#[test]
fn selecting_unknown_agent_is_rejected() {
    let mut state = ViewState::default();

    assert!(state.select_agent(&agent_id("missing")).is_err());
}

#[test]
fn state_sequence_gap_resynchronizes_and_records_a_notice() {
    let mut state = ViewState::default();

    assert_eq!(state.apply(envelope(1, created("agent-a"))), ApplyOutcome::Accepted);
    assert_eq!(state.apply(envelope(4, created("agent-b"))), ApplyOutcome::Accepted);

    assert_eq!(state.agents().len(), 2);
    assert!(matches!(
        state.notices().first(),
        Some(NoticeView::SequenceGap {
            expected: 2,
            received: 4
        })
    ));
}

#[test]
fn state_stale_sequence_is_rejected_without_rewinding() {
    let mut state = ViewState::default();
    state.apply(envelope(1, created("agent-a")));
    state.apply(envelope(2, created("agent-b")));

    let outcome = state.apply(envelope(2, created("agent-c")));

    assert_eq!(
        outcome,
        ApplyOutcome::Rejected(ReduceError::StaleSequence {
            expected: 3,
            received: 2
        })
    );
    assert_eq!(state.agents().len(), 2);
    // The next in-order event must still be accepted, proving the rewind did not happen.
    assert_eq!(state.apply(envelope(3, created("agent-c"))), ApplyOutcome::Accepted);
}

#[test]
fn state_rejected_event_does_not_block_the_rest_of_the_stream() {
    let mut state = ViewState::default();
    state.apply(envelope(1, created("agent-a")));

    let outcome = state.apply(envelope(2, created("agent-a")));

    assert!(matches!(outcome, ApplyOutcome::Rejected(ReduceError::DuplicateAgent(_))));
    assert_eq!(state.apply(envelope(3, created("agent-b"))), ApplyOutcome::Accepted);
    assert_eq!(state.agents().len(), 2);
    assert_eq!(state.notices().len(), 1);
}

#[test]
fn state_revision_advances_on_visible_change_and_holds_on_a_no_op() {
    let mut state = ViewState::default();
    let empty = state.revision();

    state.apply(envelope(1, created("agent-a")));
    let after_apply = state.revision();
    assert!(after_apply > empty);

    // Re-selecting the already selected agent changes nothing the user can see.
    state
        .select_agent(&agent_id("agent-a"))
        .unwrap_or_else(|error| panic!("agent exists: {error:?}"));
    assert_eq!(state.revision(), after_apply);

    state.apply(envelope(2, created("agent-b")));
    state
        .select_agent(&agent_id("agent-b"))
        .unwrap_or_else(|error| panic!("agent exists: {error:?}"));
    assert!(state.revision() > after_apply);
}

#[test]
fn state_rejection_advances_the_revision_because_the_notice_is_visible() {
    let mut state = ViewState::default();
    state.apply(envelope(1, created("agent-a")));
    let before = state.revision();

    state.apply(envelope(2, created("agent-a")));

    assert!(state.revision() > before);
}

#[test]
fn state_tool_activity_iterates_in_arrival_order_not_identifier_order() {
    let mut state = ViewState::default();
    state.apply(envelope(1, created("agent-a")));
    for (sequence, tool) in ["tool-z", "tool-a"].into_iter().enumerate() {
        state.apply(envelope(
            sequence as u64 + 2,
            PrototypeEvent::ToolActivityChanged {
                agent_id: agent_id("agent-a"),
                activity_id: tool_id(tool),
                label: tool.to_owned(),
                status: ToolActivityStatus::Running,
            },
        ));
    }

    let labels: Vec<_> = state
        .selected_agent()
        .unwrap_or_else(|| panic!("agent-a is selected"))
        .tool_activity()
        .iter()
        .map(|tool| tool.label.as_str())
        .collect();

    assert_eq!(labels, ["tool-z", "tool-a"]);
}

#[test]
fn state_updating_a_tool_keeps_its_position_and_replaces_its_status() {
    let mut state = ViewState::default();
    state.apply(envelope(1, created("agent-a")));
    for (sequence, (tool, status)) in [
        ("tool-z", ToolActivityStatus::Running),
        ("tool-a", ToolActivityStatus::Running),
        ("tool-z", ToolActivityStatus::Succeeded),
    ]
    .into_iter()
    .enumerate()
    {
        state.apply(envelope(
            sequence as u64 + 2,
            PrototypeEvent::ToolActivityChanged {
                agent_id: agent_id("agent-a"),
                activity_id: tool_id(tool),
                label: tool.to_owned(),
                status,
            },
        ));
    }

    let tools: Vec<_> = state
        .selected_agent()
        .unwrap_or_else(|| panic!("agent-a is selected"))
        .tool_activity()
        .iter()
        .map(|tool| (tool.label.as_str(), tool.status))
        .collect();

    assert_eq!(
        tools,
        [
            ("tool-z", ToolActivityStatus::Succeeded),
            ("tool-a", ToolActivityStatus::Running),
        ]
    );
}

#[test]
fn notice_log_is_bounded_and_reports_discarded_entries() {
    let mut state = ViewState::default();
    let total = NOTICE_CAPACITY + 8;
    for index in 0..total {
        state.apply(envelope(
            index as u64 + 1,
            PrototypeEvent::RuntimeWarning {
                message: format!("warning {index}"),
            },
        ));
    }

    assert_eq!(state.notices().len(), NOTICE_CAPACITY);
    assert_eq!(state.notices_dropped(), 8);
    assert!(matches!(
        state.notices().first(),
        Some(NoticeView::RuntimeWarning { message }) if message == "warning 8"
    ));
}

#[test]
fn two_fresh_projections_of_the_same_envelopes_agree() {
    let mut a = ViewState::default();
    let mut b = ViewState::default();
    let script = [
        (1, created("agent-a")),
        (3, created("agent-b")),
        (3, created("agent-c")),
        (4, created("agent-a")),
    ];
    let mut revision = a.revision().get();
    for (sequence, event) in script {
        let again = match &event {
            PrototypeEvent::AgentCreated { agent_id, label, status } => PrototypeEvent::AgentCreated {
                agent_id: agent_id.clone(),
                label: label.clone(),
                status: *status,
            },
            _ => unreachable!("only creations in this script"),
        };
        assert_eq!(a.apply(envelope(sequence, event)), b.apply(envelope(sequence, again)));
        assert!(a.revision().get() >= revision);
        revision = a.revision().get();
    }
    assert_eq!(a.revision(), b.revision());
    assert_eq!(a.agents().len(), b.agents().len());
    assert_eq!(a.notices().len(), b.notices().len());
    assert_eq!(a.notices_dropped(), b.notices_dropped());
}

use plexmaton_tui::agent::ReduceError;
use plexmaton_tui::attention::{ApprovalRequest, AttentionRequest};
use plexmaton_tui::ids::Identity;
use plexmaton_tui::ingest::{ApplyOutcome, ConversationEvent, ConversationEventEnvelope, Projection};
use plexmaton_tui::surface::SurfaceId;
use plexmaton_tui::view::AgentStatus;

fn envelope(sequence: u64, event: ConversationEvent) -> ConversationEventEnvelope {
    ConversationEventEnvelope { sequence, event }
}

fn created(id: &str) -> ConversationEvent {
    ConversationEvent::AgentCreated { agent_id: Identity::new(id), label: id.to_owned(), status: AgentStatus::Running }
}

fn approval(agent: &str, id: &str) -> ConversationEvent {
    ConversationEvent::AttentionRequested {
        agent_id: Identity::new(agent),
        attention_id: Identity::new(id),
        request: AttentionRequest::Approval(ApprovalRequest {
            approval_id: Identity::new(&format!("approval-{id}")),
            call_id: Identity::new(&format!("call-{id}")),
            tool: "edit".to_owned(),
            detail: "change src/lib.rs".to_owned(),
            remember: None,
        }),
    }
}

fn question(agent: &str, id: &str) -> ConversationEvent {
    ConversationEvent::AttentionRequested {
        agent_id: Identity::new(agent),
        attention_id: Identity::new(id),
        request: AttentionRequest::Question { summary: "which branch?".to_owned() },
    }
}

fn resolved(agent: &str, id: &str) -> ConversationEvent {
    ConversationEvent::AttentionResolved { agent_id: Identity::new(agent), attention_id: Identity::new(id) }
}

fn primary_card(state: &Projection) -> Option<&str> {
    state.approval().primary.as_ref().map(|card| card.attention_id.as_str())
}

#[test]
fn the_primary_conversations_approval_opens_where_the_composer_is() {
    let mut state = Projection::new();
    state.apply(envelope(1, created("agent-a")));
    state.apply(envelope(2, created("agent-b")));
    assert!(matches!(state.apply(envelope(3, approval("agent-a", "att-1"))), ApplyOutcome::Accepted));
    assert_eq!(primary_card(&state), Some("att-1"));
    assert!(state.focus().prefers(SurfaceId::Approval));
    assert_eq!(state.attention().len(), 1, "the request still enters the queue");
}

#[test]
fn a_background_request_is_queued_without_a_card() {
    let mut state = Projection::new();
    state.apply(envelope(1, created("agent-a")));
    state.apply(envelope(2, created("agent-b")));
    let before = state.revision();
    state.apply(envelope(3, approval("agent-b", "att-1")));
    state.apply(envelope(4, question("agent-a", "att-2")));
    assert_eq!(primary_card(&state), None);
    assert_eq!(state.attention().len(), 2);
    assert!(state.revision() > before);
}

#[test]
fn a_later_approval_never_replaces_the_open_card_and_opens_once_it_resolves() {
    let mut state = Projection::new();
    state.apply(envelope(1, created("agent-a")));
    state.apply(envelope(2, approval("agent-a", "att-1")));
    state.apply(envelope(3, approval("agent-a", "att-2")));
    assert_eq!(primary_card(&state), Some("att-1"));

    assert!(matches!(state.apply(envelope(4, resolved("agent-a", "att-1"))), ApplyOutcome::Accepted));
    assert_eq!(primary_card(&state), Some("att-2"));
    assert_eq!(state.attention().len(), 1);

    state.apply(envelope(5, resolved("agent-a", "att-2")));
    assert_eq!(primary_card(&state), None);
    assert!(state.focus().prefers(SurfaceId::Composer), "focus goes back where the card came from");
    assert_eq!(state.attention().len(), 0);
}

#[test]
fn a_request_is_resolved_only_by_the_agent_that_raised_it() {
    let mut state = Projection::new();
    state.apply(envelope(1, created("agent-a")));
    state.apply(envelope(2, created("agent-b")));
    state.apply(envelope(3, approval("agent-b", "att-1")));
    let outcome = state.apply(envelope(4, resolved("agent-a", "att-1")));
    assert!(matches!(outcome, ApplyOutcome::Rejected(ReduceError::AttentionOwnerMismatch { .. })), "{outcome:?}");
    assert_eq!(state.attention().len(), 1);
    let outcome = state.apply(envelope(5, approval("agent-c", "att-2")));
    assert!(matches!(outcome, ApplyOutcome::Rejected(ReduceError::UnknownAgent(_))));
}

#[test]
fn resolving_an_unknown_request_changes_nothing_visible() {
    let mut state = Projection::new();
    state.apply(envelope(1, created("agent-a")));
    let before = state.revision();
    assert!(matches!(state.apply(envelope(2, resolved("agent-a", "nothing"))), ApplyOutcome::Accepted));
    assert_eq!(state.revision(), before);
}

use plexmaton_tui::agent::{AgentView, ReduceError};
use plexmaton_tui::entry::{ToolCallStatus, TranscriptEntryView, TranscriptTextKind};
use plexmaton_tui::ids::Identity;
use plexmaton_tui::view::{AgentStatus, TranscriptRole};

fn agent() -> AgentView {
    AgentView::new(Identity::new("agent-a"), "Agent A".to_owned(), AgentStatus::Running)
}

fn item(value: &str) -> Identity {
    Identity::new(value)
}

fn tool(value: &str) -> Identity {
    Identity::new(value)
}

fn start_tool(agent: &mut AgentView, entry: &str, call: &str, label: &str) {
    agent
        .set_tool_activity(
            item(entry),
            0,
            tool(call),
            label.to_owned(),
            ToolCallStatus::Queued,
            String::new(),
        )
        .unwrap_or_else(|error| panic!("start tool: {error:?}"));
}

fn move_tool(
    agent: &mut AgentView,
    entry: &str,
    revision: u64,
    call: &str,
    label: &str,
    status: ToolCallStatus,
) {
    agent
        .set_tool_activity(item(entry), revision, tool(call), label.to_owned(), status, String::new())
        .unwrap_or_else(|error| panic!("move tool: {error:?}"));
}

fn sources(agent: &AgentView) -> Vec<String> {
    agent.transcript().iter().map(|i| i.source.clone()).collect()
}

#[test]
fn starting_the_same_item_twice_is_rejected() {
    let mut agent = agent();
    agent
        .start_item(item("i1"), TranscriptRole::Assistant)
        .unwrap_or_else(|error| panic!("first start: {error:?}"));

    assert!(matches!(
        agent.start_item(item("i1"), TranscriptRole::Assistant),
        Err(ReduceError::DuplicateTranscriptItem(_))
    ));
}

#[test]
fn deltas_must_carry_the_next_item_revision() {
    let mut agent = agent();
    agent
        .start_item(item("i1"), TranscriptRole::Assistant)
        .unwrap_or_else(|error| panic!("start: {error:?}"));

    assert!(agent.append_delta(&item("i1"), 1, "one ").is_ok());
    assert!(matches!(
        agent.append_delta(&item("i1"), 3, "skipped"),
        Err(ReduceError::ItemRevisionGap { expected: 2, .. })
    ));
    // The rejected delta must not have appended its text.
    assert_eq!(sources(&agent), ["one "]);
}

#[test]
fn a_delta_after_finalization_is_refused_and_the_text_does_not_land() {
    let mut agent = agent();
    agent
        .start_item(item("i1"), TranscriptRole::Assistant)
        .unwrap_or_else(|error| panic!("start: {error:?}"));
    agent
        .append_delta(&item("i1"), 1, "hello")
        .unwrap_or_else(|error| panic!("delta: {error:?}"));
    agent
        .finalize_item(&item("i1"), 2)
        .unwrap_or_else(|error| panic!("finalize: {error:?}"));

    assert!(matches!(
        agent.append_delta(&item("i1"), 3, " and more"),
        Err(ReduceError::ItemAlreadyFinalized(_))
    ));
    assert!(
        matches!(
            agent.finalize_item(&item("i1"), 3),
            Err(ReduceError::ItemAlreadyFinalized(_))
        ),
        "and a second finalization is refused too, rather than consuming a revision"
    );

    assert_eq!(sources(&agent), ["hello"], "the refused text must not have landed");
}

#[test]
fn a_delta_for_an_unknown_item_is_rejected() {
    let mut agent = agent();

    assert!(matches!(
        agent.append_delta(&item("missing"), 1, "text"),
        Err(ReduceError::UnknownTranscriptItem(_))
    ));
}

#[test]
fn agent_tool_activity_iterates_in_arrival_order_not_identifier_order() {
    let mut agent = agent();
    start_tool(&mut agent, "entry-z", "tool-z", "z");
    start_tool(&mut agent, "entry-a", "tool-a", "a");

    let labels: Vec<&str> = agent.tool_activity().iter().map(|t| t.label.as_str()).collect();
    assert_eq!(labels, ["z", "a"]);
}

#[test]
fn agent_updating_a_tool_keeps_its_position_and_replaces_its_status() {
    let mut agent = agent();
    start_tool(&mut agent, "entry-z", "tool-z", "z");
    start_tool(&mut agent, "entry-a", "tool-a", "a");
    move_tool(&mut agent, "entry-z", 1, "tool-z", "z", ToolCallStatus::Running);
    move_tool(&mut agent, "entry-z", 2, "tool-z", "z", ToolCallStatus::Succeeded);

    let tools: Vec<(&str, ToolCallStatus)> = agent
        .tool_activity()
        .iter()
        .map(|t| (t.label.as_str(), t.status))
        .collect();
    assert_eq!(
        tools,
        [("z", ToolCallStatus::Succeeded), ("a", ToolCallStatus::Queued)]
    );
}

#[test]
fn a_finished_call_refuses_every_later_move() {
    let mut agent = agent();
    start_tool(&mut agent, "entry-z", "tool-z", "z");
    move_tool(&mut agent, "entry-z", 1, "tool-z", "z", ToolCallStatus::Failed);
    assert!(matches!(
        agent.set_tool_activity(item("entry-z"), 2, tool("tool-z"), "z".to_owned(), ToolCallStatus::Running, String::new()),
        Err(ReduceError::InvalidToolTransition { from: ToolCallStatus::Failed, to: ToolCallStatus::Running, .. })
    ));
    assert!(matches!(
        agent.set_tool_activity(item("entry-z"), 5, tool("tool-z"), "z".to_owned(), ToolCallStatus::Running, String::new()),
        Err(ReduceError::ItemRevisionGap { expected: 2, received: 5, .. })
    ));
    assert!(matches!(
        agent.set_tool_activity(item("entry-z"), 2, tool("tool-y"), "z".to_owned(), ToolCallStatus::Running, String::new()),
        Err(ReduceError::ToolCorrelationChanged(_))
    ));
}

#[test]
fn a_tool_call_is_opened_once_queued_at_revision_zero() {
    let mut agent = agent();
    assert!(matches!(
        agent.set_tool_activity(item("entry-a"), 1, tool("tool-a"), "a".to_owned(), ToolCallStatus::Queued, String::new()),
        Err(ReduceError::UnknownTranscriptItem(_))
    ));
    assert!(matches!(
        agent.set_tool_activity(item("entry-a"), 0, tool("tool-a"), "a".to_owned(), ToolCallStatus::Running, String::new()),
        Err(ReduceError::UnknownTranscriptItem(_))
    ));
    start_tool(&mut agent, "entry-a", "tool-a", "a");
    assert!(matches!(
        agent.set_tool_activity(item("entry-b"), 0, tool("tool-a"), "a".to_owned(), ToolCallStatus::Queued, String::new()),
        Err(ReduceError::DuplicateToolCall(_))
    ));
    assert!(matches!(
        agent.append_delta(&item("entry-a"), 1, "text"),
        Err(ReduceError::EntryKindChanged(_))
    ));
}

#[test]
fn terminal_entries_arrive_once_in_order() {
    let mut agent = agent();
    agent.start_item(item("i1"), TranscriptRole::User).unwrap_or_else(|error| panic!("{error:?}"));
    assert!(matches!(
        agent.announce_artifact(item("art"), Identity::new("a-1"), "report".to_owned(), "file://r".to_owned()),
        Ok(true)
    ));
    assert!(matches!(
        agent.deliver_mail(item("mail"), Identity::new("m-1"), Identity::new("agent-a"), Identity::new("agent-b"), "hello".to_owned()),
        Ok(true)
    ));
    assert!(matches!(
        agent.runtime_message(item("warn"), "slow".to_owned(), false),
        Ok(true)
    ));
    assert!(matches!(
        agent.runtime_message(item("art"), "again".to_owned(), true),
        Err(ReduceError::DuplicateTranscriptItem(_))
    ));
    let ids: Vec<&str> = agent.entries().iter().map(|e| e.id().as_str()).collect();
    assert_eq!(ids, ["i1", "art", "mail", "warn"]);
    assert_eq!(agent.artifacts()[0].pointer, "file://r");
    assert_eq!(agent.mail()[0].owner.as_str(), "agent-a");
    assert_eq!(agent.mail()[0].to.as_str(), "agent-b");
    match &agent.entries()[3] {
        TranscriptEntryView::Text(item) => {
            assert_eq!(item.kind, TranscriptTextKind::Warning);
            assert_eq!(item.role, TranscriptRole::System);
            assert!(item.finalized);
            assert_eq!(item.source, "slow");
        }
        _ => panic!("the warning is text"),
    }
    assert_eq!(sources(&agent), ["", "slow"]);
}

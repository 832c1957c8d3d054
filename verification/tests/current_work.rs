use plexmaton_tui::agent::AgentView;
use plexmaton_tui::attention::{ApprovalRequest, AttentionRequest, AttentionView};
use plexmaton_tui::current_work::CurrentWork;
use plexmaton_tui::entry::ToolCallStatus;
use plexmaton_tui::ids::Identity;
use plexmaton_tui::view::{AgentStatus, TranscriptRole};

fn id(value: &str) -> Identity {
    Identity::new(value)
}

fn agent(status: AgentStatus) -> AgentView {
    AgentView::new(id("agent-a"), "Agent A".to_owned(), status)
}

fn open_text(agent: &mut AgentView, name: &str, role: TranscriptRole) {
    agent.start_item(id(name), role).unwrap_or_else(|error| panic!("fixture: {error:?}"));
}

fn set_tool(agent: &mut AgentView, name: &str, status: ToolCallStatus) {
    let entry_id = id(&format!("entry-{name}"));
    let call_id = id(&format!("call-{name}"));
    agent
        .set_tool_activity(entry_id.clone(), 0, call_id.clone(), name.to_owned(), ToolCallStatus::Queued, String::new())
        .unwrap_or_else(|error| panic!("fixture: {error:?}"));
    if status != ToolCallStatus::Queued {
        agent
            .set_tool_activity(entry_id, 1, call_id, name.to_owned(), status, String::new())
            .unwrap_or_else(|error| panic!("fixture: {error:?}"));
    }
}

fn approval(agent_id: &str) -> AttentionView {
    AttentionView {
        id: id(&format!("attention-{agent_id}")),
        agent_id: id(agent_id),
        request: AttentionRequest::Approval(ApprovalRequest {
            approval_id: id(&format!("approval-{agent_id}")),
            call_id: id(&format!("call-{agent_id}")),
            tool: "edit_file".to_owned(),
            detail: "Change one file".to_owned(),
            remember: None,
        }),
        acknowledged: false,
    }
}

fn clarification(agent_id: &str) -> AttentionView {
    AttentionView {
        id: id(&format!("attention-{agent_id}")),
        agent_id: id(agent_id),
        request: AttentionRequest::Question { summary: "Choose a scope".to_owned() },
        acknowledged: false,
    }
}

fn responding() -> AgentView {
    let mut agent = agent(AgentStatus::Running);
    open_text(&mut agent, "answer", TranscriptRole::Assistant);
    agent
}

fn running_tool() -> AgentView {
    let mut agent = responding();
    set_tool(&mut agent, "read_file", ToolCallStatus::Running);
    agent
}

#[test]
fn current_work_priority_is_derived_from_semantic_facts() {
    let idle = agent(AgentStatus::Idle);
    let thinking = agent(AgentStatus::Running);

    let mut reasoning = agent(AgentStatus::Running);
    open_text(&mut reasoning, "reasoning", TranscriptRole::Reasoning);

    let mut awaiting = running_tool();
    set_tool(&mut awaiting, "edit_file", ToolCallStatus::AwaitingApproval);

    let background_approval = [approval("agent-b")];
    let primary_approval = [approval("agent-a")];
    let primary_clarification = [clarification("agent-a")];
    let cases: [(&str, AgentView, &[AttentionView], Option<CurrentWork>); 9] = [
        ("idle", idle, &[][..], None),
        ("running before output", thinking, &[][..], Some(CurrentWork::Thinking)),
        ("plaintext reasoning", reasoning, &[][..], Some(CurrentWork::Thinking)),
        ("open assistant output", responding(), &[][..], Some(CurrentWork::Responding)),
        ("background approval", responding(), &background_approval, Some(CurrentWork::Responding)),
        (
            "running tool over response",
            running_tool(),
            &[][..],
            Some(CurrentWork::RunningTool("read_file".to_owned())),
        ),
        ("primary approval over work", running_tool(), &primary_approval, Some(CurrentWork::ApprovalRequired)),
        ("other primary action over ambient work", running_tool(), &primary_clarification, None),
        ("awaiting tool over running tool", awaiting, &[][..], Some(CurrentWork::ApprovalRequired)),
    ];

    for (name, agent, attention, expected) in cases {
        assert_eq!(CurrentWork::derive(&agent, attention), expected, "{name}");
    }
}

#[test]
fn parallel_running_tools_use_stable_first_appearance_order() {
    let mut agent = agent(AgentStatus::Waiting);
    set_tool(&mut agent, "first", ToolCallStatus::Running);
    set_tool(&mut agent, "second", ToolCallStatus::Running);

    assert_eq!(
        CurrentWork::derive(&agent, &[]),
        Some(CurrentWork::RunningTool("first".to_owned()))
    );
}

//! The primary agent's current work, derived from its transcript and the requests waiting on the
//! user rather than stored, so replay never leaves a label to reconcile.
use vstd::prelude::*;

use crate::agent::{AgentView, Entries};
use crate::attention::{AttentionEntry, AttentionView, RequestModel};
use crate::entry::{EntryValue, ToolCallStatus, TranscriptEntryView};
use crate::ids::Identity;
use crate::view::{AgentStatus, TranscriptRole};

verus! {

/// One compact fact for the conversation's activity line.
#[derive(Clone, Debug, PartialEq, Eq)]
pub enum CurrentWork {
    Thinking,
    Responding,
    RunningTool(String),
    ApprovalRequired,
}

/// Current work, as values.
pub enum WorkValue {
    Thinking,
    Responding,
    RunningTool(Seq<char>),
    ApprovalRequired,
}

impl View for CurrentWork {
    type V = WorkValue;

    open spec fn view(&self) -> WorkValue {
        match self {
            CurrentWork::Thinking => WorkValue::Thinking,
            CurrentWork::Responding => WorkValue::Responding,
            CurrentWork::RunningTool(label) => WorkValue::RunningTool(label@),
            CurrentWork::ApprovalRequired => WorkValue::ApprovalRequired,
        }
    }
}

/// Whether some request from agent `agent` waits on the user, and whether one is an approval.
pub open spec fn asks(attention: Seq<AttentionEntry>, agent: Seq<char>, approval_only: bool) -> bool {
    exists|i: int|
        0 <= i < attention.len() && #[trigger] attention[i].agent_id == agent && (!approval_only
            || attention[i].request is Approval)
}

/// Whether some tool call waits on an approval.
pub open spec fn awaiting_tool(m: Entries) -> bool {
    exists|i: int| 0 <= i < m.len() && (#[trigger] m[i].1 matches EntryValue::Tool(t) && t.status is AwaitingApproval)
}

/// Whether the entry at `i` is a running tool call.
pub open spec fn running_at(m: Entries, i: int) -> bool {
    m[i].1 matches EntryValue::Tool(t) && t.status is Running
}

/// The label of the first running tool call, if one runs.
pub open spec fn first_running(m: Entries) -> Option<Seq<char>>
    decreases m.len(),
{
    if m.len() == 0 {
        None
    } else {
        match first_running(m.drop_last()) {
            Some(l) => Some(l),
            None => match m.last().1 {
                EntryValue::Tool(t) => if t.status is Running {
                    Some(t.label)
                } else {
                    None
                },
                _ => None,
            },
        }
    }
}

/// Whether an assistant answer is still streaming.
pub open spec fn answering(m: Entries) -> bool {
    exists|i: int|
        0 <= i < m.len() && (#[trigger] m[i].1 matches EntryValue::Text(t) && t.role is Assistant
            && !t.finalized)
}

/// What the agent is doing, by priority: an approval it asked for or a tool awaiting one; nothing
/// while it asks the user anything else; a running tool, the first to start; nothing unless it
/// runs; an answer still streaming; else thinking.
pub open spec fn work_of(
    agent: Seq<char>,
    status: AgentStatus,
    m: Entries,
    attention: Seq<AttentionEntry>,
) -> Option<WorkValue> {
    if asks(attention, agent, true) || awaiting_tool(m) {
        Some(WorkValue::ApprovalRequired)
    } else if asks(attention, agent, false) {
        None
    } else if first_running(m) is Some {
        Some(WorkValue::RunningTool(first_running(m)->0))
    } else if status != AgentStatus::Running {
        None
    } else if answering(m) {
        Some(WorkValue::Responding)
    } else {
        Some(WorkValue::Thinking)
    }
}

/// The requests as values.
pub open spec fn requests_view(attention: Seq<AttentionView>) -> Seq<AttentionEntry> {
    attention.map_values(|r: AttentionView| r@)
}

/// An optional work, as values.
pub open spec fn work_view(work: Option<CurrentWork>) -> Option<WorkValue> {
    match work {
        Some(w) => Some(w@),
        None => None,
    }
}

impl CurrentWork {
    /// The agent's current work, derived from its transcript and the requests in `attention`.
    pub fn derive(agent: &AgentView, attention: &[AttentionView]) -> (work: Option<Self>)
        requires
            agent.wf(),
        ensures
            work_view(work) == work_of(
                agent.id_view(),
                agent.status_view(),
                agent.entries_view(),
                requests_view(attention@),
            ),
    {
        let ghost reqs = requests_view(attention@);
        let mut action_required = false;
        let mut approval_requested = false;
        let mut i: usize = 0;
        while i < attention.len()
            invariant
                i <= attention@.len(),
                reqs == requests_view(attention@),
                action_required == (exists|j: int| 0 <= j < i && #[trigger] reqs[j].agent_id == agent.id_view()),
                approval_requested == (exists|j: int|
                    0 <= j < i && #[trigger] reqs[j].agent_id == agent.id_view() && reqs[j].request is Approval),
            decreases attention@.len() - i,
        {
            let request = &attention[i];
            proof {
                assert(reqs[i as int] == request@);
            }
            let ghost was_action = action_required;
            let ghost was_approval = approval_requested;
            if request.agent_id.same(agent.identity()) {
                action_required = true;
                if request.kind() == crate::view::AttentionKind::Approval {
                    approval_requested = true;
                }
            }
            proof {
                let here = reqs[i as int];
                if here.agent_id == agent.id_view() {
                    assert(reqs[i as int].agent_id == agent.id_view());
                }
                assert(action_required == (was_action || here.agent_id == agent.id_view()));
                assert(approval_requested == (was_approval || (here.agent_id == agent.id_view() && here.request is Approval)));
            }
            i += 1;
        }
        proof {
            if asks(reqs, agent.id_view(), false) {
                let j = choose|j: int| 0 <= j < reqs.len() && #[trigger] reqs[j].agent_id == agent.id_view();
                assert(reqs[j].agent_id == agent.id_view());
            }
            if asks(reqs, agent.id_view(), true) {
                let j = choose|j: int|
                    0 <= j < reqs.len() && #[trigger] reqs[j].agent_id == agent.id_view() && (!true || reqs[j].request is Approval);
                assert(reqs[j].agent_id == agent.id_view());
            }
        }
        if approval_requested {
            return Some(CurrentWork::ApprovalRequired);
        }
        let entries = agent.entries();
        let ghost m = agent.entries_view();
        let mut running: Option<String> = None;
        let mut responding = false;
        let mut k: usize = 0;
        proof {
            assert(m.take(0) =~= Seq::<(Seq<char>, EntryValue)>::empty());
        }
        while k < entries.len()
            invariant
                k <= entries@.len(),
                m == agent.entries_view(),
                entries@.len() == m.len(),
                forall|j: int| 0 <= j < entries@.len() ==> #[trigger] entries@[j]@ == m[j].1,
                !awaiting_tool(m.take(k as int)),
                match running {
                    Some(l) => first_running(m.take(k as int)) == Some(l@),
                    None => first_running(m.take(k as int)) is None,
                },
                responding == answering(m.take(k as int)),
            decreases entries@.len() - k,
        {
            let ghost before = m.take(k as int);
            let ghost after = m.take(k + 1);
            proof {
                assert(after.drop_last() =~= before);
                assert(after.last() == m[k as int]);
                assert(entries@[k as int]@ == m[k as int].1);
                assert forall|j: int| 0 <= j < k implies after[j] == before[j] by {}
            }
            match &entries[k] {
                TranscriptEntryView::Tool(tool) => {
                    if tool.status == ToolCallStatus::AwaitingApproval {
                        proof {
                            assert(after[k as int] == m[k as int]);
                            assert(m[k as int].1 matches EntryValue::Tool(t) && t.status is AwaitingApproval);
                        }
                        return Some(CurrentWork::ApprovalRequired);
                    }
                    if tool.status == ToolCallStatus::Running && running.is_none() {
                        running = Some(tool.label.clone());
                    }
                },
                TranscriptEntryView::Text(item) => {
                    if item.role == TranscriptRole::Assistant && !item.finalized {
                        responding = true;
                    }
                },
                _ => {},
            }
            proof {
                assert(!awaiting_tool(after)) by {
                    if awaiting_tool(after) {
                        let j = choose|j: int|
                            0 <= j < after.len() && (#[trigger] after[j].1 matches EntryValue::Tool(t) && t.status is AwaitingApproval);
                        if j < k {
                            assert(before[j] == after[j]);
                        }
                    }
                }
                assert(responding == answering(after)) by {
                    if answering(after) && !answering(before) {
                        let j = choose|j: int|
                            0 <= j < after.len() && (#[trigger] after[j].1 matches EntryValue::Text(t) && t.role is Assistant && !t.finalized);
                        if j < k {
                            assert(before[j] == after[j]);
                        }
                    }
                    if answering(before) {
                        let j = choose|j: int|
                            0 <= j < before.len() && (#[trigger] before[j].1 matches EntryValue::Text(t) && t.role is Assistant && !t.finalized);
                        assert(after[j] == before[j]);
                    }
                }
            }
            k += 1;
        }
        proof {
            assert(m.take(m.len() as int) =~= m);
        }
        if action_required {
            return None;
        }
        match running {
            Some(label) => {
                return Some(CurrentWork::RunningTool(label));
            },
            None => {},
        }
        if agent.current_status() != AgentStatus::Running {
            return None;
        }
        if responding {
            return Some(CurrentWork::Responding);
        }
        Some(CurrentWork::Thinking)
    }
}

} // verus!

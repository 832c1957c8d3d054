use plexmaton_tui::attention::{ApprovalRequest, AttentionQueue, AttentionRequest, AttentionView};
use plexmaton_tui::ids::Identity;
use plexmaton_tui::intent::Direction;
use plexmaton_tui::view::AttentionKind;

fn request(id: &str, summary: &str) -> AttentionView {
    AttentionView {
        id: Identity::new(id),
        agent_id: Identity::new("agent-b"),
        request: AttentionRequest::Approval(ApprovalRequest {
            remember: None,
            approval_id: Identity::new(&format!("approval-{id}")),
            call_id: Identity::new(&format!("call-{id}")),
            tool: "edit".to_owned(),
            detail: summary.to_owned(),
        }),
        acknowledged: false,
    }
}

fn visible(queue: &AttentionQueue) -> Vec<Identity> {
    queue.iter().iter().map(|item| item.id.clone()).collect()
}

#[test]
fn an_agent_asking_twice_produces_one_queue_item() {
    let mut queue = AttentionQueue::default();
    queue.request(request("ask-1", "first"));
    queue.request(request("ask-2", "other"));
    queue.request(request("ask-1", "revised"));

    let summaries: Vec<_> = queue.iter().iter().map(AttentionView::summary).collect();
    assert_eq!(
        summaries,
        ["revised", "other"],
        "a repeated request replaces its entry and keeps its place in the queue"
    );
    assert_eq!(queue.len(), 2);
}

/// Being told is not the same as being answered.
#[test]
fn acknowledging_marks_one_request_and_a_repeat_unmarks_it() {
    let mut queue = AttentionQueue::default();
    queue.request(request("ask-1", "first"));
    queue.request(request("ask-2", "other"));
    assert_eq!(queue.pending(), 2);

    assert_eq!(
        queue
            .acknowledge()
            .map(|target| target.agent_id.as_str().to_owned()),
        Some("agent-b".to_owned())
    );
    assert_eq!(queue.pending(), 1);
    assert_eq!(
        queue.len(),
        2,
        "an acknowledged request is still outstanding"
    );

    queue.request(request("ask-1", "revised"));
    assert_eq!(
        queue.pending(),
        2,
        "an agent that asks again is asking again"
    );
}

#[test]
fn the_cursor_clamps_at_both_ends_and_survives_an_empty_queue() {
    let mut queue = AttentionQueue::default();
    assert_eq!(queue.cursor(), 0);
    assert!(!queue.move_cursor(&visible(&queue), Direction::Forward));
    assert_eq!(queue.acknowledge(), None);

    queue.request(request("ask-1", "first"));
    queue.request(request("ask-2", "other"));
    assert!(queue.move_cursor(&visible(&queue), Direction::Forward));
    assert_eq!(queue.cursor(), 1);
    assert!(
        !queue.move_cursor(&visible(&queue), Direction::Forward),
        "clamped at the end"
    );
    assert!(queue.move_cursor(&visible(&queue), Direction::Backward));
    assert!(
        !queue.move_cursor(&visible(&queue), Direction::Backward),
        "clamped at the start"
    );
}

#[test]
fn resolving_removes_only_the_named_request_and_repairs_the_cursor() {
    let mut queue = AttentionQueue::default();
    queue.request(request("ask-1", "first"));
    queue.request(request("ask-2", "second"));
    queue.request(request("ask-3", "third"));
    queue.move_cursor(&visible(&queue), Direction::Forward);
    queue.move_cursor(&visible(&queue), Direction::Forward);

    let second = Identity::new("ask-2");
    assert!(queue.resolve(&second));
    assert_eq!(queue.cursor(), 1);
    assert_eq!(
        queue.iter().iter().map(AttentionView::summary).collect::<Vec<_>>(),
        ["first", "third"]
    );
    assert!(!queue.resolve(&second));
}

#[test]
fn a_repeat_that_reads_the_same_changes_nothing() {
    let mut queue = AttentionQueue::default();
    assert!(queue.request(request("ask-1", "first")));
    assert!(!queue.request(request("ask-1", "first")));
    assert!(queue.request(request("ask-1", "changed")));
}

#[test]
fn acknowledging_reports_whose_request_and_what_kind() {
    let mut queue = AttentionQueue::default();
    queue.request(AttentionView {
        id: Identity::new("q-1"),
        agent_id: Identity::new("agent-c"),
        request: AttentionRequest::Question { summary: "which branch?".to_owned() },
        acknowledged: false,
    });
    let target = queue.acknowledge().expect("one request");
    assert_eq!(target.id.as_str(), "q-1");
    assert_eq!(target.kind, AttentionKind::Question);
    assert_eq!(queue.get(&Identity::new("q-1")).map(|item| item.acknowledged), Some(true));
}

#[test]
fn selecting_by_identity_moves_the_cursor_and_an_unknown_one_does_not() {
    let mut queue = AttentionQueue::default();
    queue.request(request("ask-1", "first"));
    queue.request(request("ask-2", "second"));
    assert!(queue.select(&Identity::new("ask-2")));
    assert_eq!(queue.cursor(), 1);
    assert!(!queue.select(&Identity::new("ask-9")));
    assert_eq!(queue.cursor(), 1);
}

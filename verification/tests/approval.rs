use plexmaton_tui::approval::{
    ApprovalChoice, ApprovalDecision, ApprovalFeedback, ApprovalStage, ApprovalSurface,
};
use plexmaton_tui::attention::{
    ApprovalRequest, AttentionQueue, AttentionRequest, AttentionView, PermissionScope,
    PermissionScopes, RememberOffer,
};
use plexmaton_tui::ids::Identity;
use plexmaton_tui::intent::Direction;
use plexmaton_tui::surface::SurfaceId;

fn queue() -> AttentionQueue {
    let mut queue = AttentionQueue::default();
    queue.request(AttentionView {
        id: Identity::new("attention-1"),
        agent_id: Identity::new("agent-b"),
        request: AttentionRequest::Approval(ApprovalRequest {
            remember: None,
            approval_id: Identity::new("approval-1"),
            call_id: Identity::new("call-1"),
            tool: "edit".to_owned(),
            detail: "change src/lib.rs".to_owned(),
        }),
        acknowledged: true,
    });
    queue
}

/// The presentation returns only the identity the loop supplied and one typed answer.
#[test]
fn a_decision_echoes_the_open_request_and_cannot_recompute_policy() {
    let queue = queue();
    let mut surface = ApprovalSurface::default();
    surface.open(Identity::new("attention-1"), SurfaceId::Inspector);

    let denied = surface
        .submission(&queue)
        .unwrap_or_else(|| panic!("fixture is an approval"));
    assert_eq!(denied.approval_id.as_str(), "approval-1");
    assert_eq!(denied.decision, ApprovalDecision::Deny);

    assert!(
        surface.submission(&queue).is_none(),
        "awaiting producer confirmation suppresses duplicates"
    );
    assert!(!surface.move_selection(&queue, Direction::Backward));
    surface.dismiss();
    surface.open(Identity::new("attention-1"), SurfaceId::Inspector);
    assert!(surface.move_selection(&queue, Direction::Backward));
    assert_eq!(
        surface
            .submission(&queue)
            .unwrap_or_else(|| panic!("fixture is an approval"))
            .decision,
        ApprovalDecision::AllowOnce
    );
}

#[test]
fn dismissal_returns_focus_without_resolving_the_queue() {
    let queue = queue();
    let mut surface = ApprovalSurface::default();
    surface.open(Identity::new("attention-1"), SurfaceId::Inspector);

    assert_eq!(surface.dismiss(), Some(SurfaceId::Inspector));
    assert_eq!(queue.len(), 1, "Escape does not answer the pending request");
}

fn remembered_queue() -> AttentionQueue {
    let mut queue = queue();
    queue.update_offer(
        &Identity::new("attention-1"),
        Some(RememberOffer {
            id: Identity::new("4"),
            scopes: PermissionScopes::SessionAndProject,
        }),
    );
    queue
}

/// Opening the lifetime step is not a decision; only a producer-issued scope can leave it.
#[test]
fn per_5_remember_is_two_steps_and_submission_disables_duplicate_decisions() {
    let queue = remembered_queue();
    let mut surface = ApprovalSurface::default();
    surface.open(Identity::new("attention-1"), SurfaceId::Composer);
    assert!(surface.move_selection(&queue, Direction::Backward));
    assert_eq!(
        surface.view(&queue).expect("view").selected,
        ApprovalChoice::Remember
    );
    assert!(surface.submission(&queue).is_none());
    assert_eq!(
        surface.view(&queue).expect("view").stage,
        ApprovalStage::Remember
    );
    assert!(surface.move_selection(&queue, Direction::Forward));
    let decision = surface.submission(&queue).expect("confirmed scope");
    assert_eq!(
        decision.decision,
        ApprovalDecision::AllowAndRemember {
            offer: Identity::new("4"),
            scope: PermissionScope::Project
        }
    );
    assert!(surface.submission(&queue).is_none());
    assert!(surface.view(&queue).expect("waiting").choices().is_empty());
}

/// Changed offers discard an unconfirmed selection without minting a replacement decision.
#[test]
fn per_4_changed_offer_returns_to_review_and_back_never_grants() {
    let mut queue = remembered_queue();
    let id = Identity::new("attention-1");
    let mut surface = ApprovalSurface::default();
    surface.open(id.clone(), SurfaceId::Composer);
    surface.choose_action(&queue, ApprovalChoice::Remember);
    assert!(surface.submission(&queue).is_none());
    assert!(surface.back());
    assert_eq!(
        surface.view(&queue).expect("review").selected,
        ApprovalChoice::Deny
    );
    surface.choose_action(&queue, ApprovalChoice::Remember);
    assert!(surface.submission(&queue).is_none());
    queue.update_offer(
        &id,
        Some(RememberOffer {
            id: Identity::new("5"),
            scopes: PermissionScopes::Session,
        }),
    );
    assert!(surface.submission(&queue).is_none());
    let view = surface.view(&queue).expect("updated request");
    assert_eq!(view.stage, ApprovalStage::Review);
    assert_eq!(view.feedback, Some(ApprovalFeedback::PolicyChanged));
    surface.choose_action(&queue, ApprovalChoice::Remember);
    assert!(surface.submission(&queue).is_none());
    assert!(!surface.choose_action(&queue, ApprovalChoice::ThisProject));
}

/// Visiting a worker retains the primary card and its unsubmitted choice.
#[test]
fn primary_card_survives_background_visit_without_losing_its_choice() {
    let mut queue = queue();
    let primary = Identity::new("attention-1");
    let worker = Identity::new("attention-2");
    let mut second = queue.get(&primary).expect("fixture").clone();
    second.id = worker.clone();
    queue.request(second);
    let mut surface = ApprovalSurface::default();
    surface.open(primary.clone(), SurfaceId::Composer);
    surface.choose_action(&queue, ApprovalChoice::AllowOnce);
    surface.open(worker.clone(), SurfaceId::Inspector);
    assert_eq!(surface.view(&queue).expect("worker").attention_id, worker);
    surface.dismiss();
    let restored = surface.view(&queue).expect("primary retained");
    assert_eq!(restored.attention_id, primary);
    assert_eq!(restored.selected, ApprovalChoice::AllowOnce);
}

#[test]
fn labels_and_feedback_read_as_written() {
    assert_eq!(ApprovalChoice::Remember.label(), "Allow and remember…");
    assert_eq!(ApprovalChoice::ThisProject.label(), "This Project");
    assert_eq!(
        ApprovalFeedback::NotFound.message(),
        "The permission is no longer active. Nothing ran."
    );
}

#[test]
fn feedback_while_preparing_keeps_the_journey_and_a_refusal_returns_to_review() {
    let queue = remembered_queue();
    let id = Identity::new("attention-1");
    let mut surface = ApprovalSurface::default();
    surface.open(id.clone(), SurfaceId::Composer);
    surface.choose_action(&queue, ApprovalChoice::AllowOnce);
    assert!(surface.submission(&queue).is_some());
    surface.refused(&id, ApprovalFeedback::Preparing);
    assert_eq!(surface.view(&queue).expect("open").stage, ApprovalStage::Submitting);
    surface.refused(&id, ApprovalFeedback::Capacity);
    let view = surface.view(&queue).expect("open");
    assert_eq!(view.stage, ApprovalStage::Review);
    assert_eq!(view.selected, ApprovalChoice::Deny);
    assert_eq!(view.feedback, Some(ApprovalFeedback::Capacity));
}

#[test]
fn resolving_the_primary_returns_focus_only_when_nothing_stands_over_it() {
    let mut surface = ApprovalSurface::default();
    surface.open(Identity::new("a"), SurfaceId::Composer);
    surface.open(Identity::new("b"), SurfaceId::Inspector);
    assert_eq!(surface.resolved(&Identity::new("a")), None);
    assert!(!surface.has_primary());
    assert_eq!(surface.resolved(&Identity::new("b")), Some(SurfaceId::Inspector));
    assert_eq!(surface.resolved(&Identity::new("c")), None);
}

#[test]
fn only_settled_refusals_say_nothing_ran() {
    let all = [
        ApprovalFeedback::NotPending,
        ApprovalFeedback::Preparing,
        ApprovalFeedback::PolicyChanged,
        ApprovalFeedback::Capacity,
        ApprovalFeedback::Unavailable,
        ApprovalFeedback::Ineffective,
        ApprovalFeedback::NotFound,
    ];
    for feedback in all {
        let settled = !matches!(feedback, ApprovalFeedback::NotPending | ApprovalFeedback::Preparing);
        assert_eq!(feedback.message().contains("Nothing ran"), settled, "{feedback:?}");
    }
}

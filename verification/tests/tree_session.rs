use plexmaton_tui::clip::Role;
use plexmaton_tui::tree_panel::tree_panel;
use plexmaton_tui::ids::Identity;
use plexmaton_tui::surface::SurfaceId;
use plexmaton_tui::tree_presentation::{TreeRewindEligibility, TreeRow, TreeRowKind};
use plexmaton_tui::input::TextIntent;
use plexmaton_tui::tree_session::{
    ConversationTree, TreeEdit, TreeEditAction, TreeHead, TreeMode, TreeNavigationTarget, TreeOrigin,
    TreePending, TreeSnapshot,
};

fn id(value: &str) -> Identity {
    Identity::new(value)
}

fn head(value: &str) -> Identity {
    Identity::new(value)
}

fn row(entry: &str, parent: Option<&str>, ordinal: u64, kind: TreeRowKind, heads: &[&str]) -> TreeRow {
    TreeRow {
        entry_id: id(entry),
        parent_id: parent.map(id),
        chronological_ordinal: ordinal,
        kind,
        head_markers: heads.iter().map(|name| head(name)).collect(),
        rewind: TreeRewindEligibility::Eligible,
    }
}

fn snapshot() -> TreeSnapshot {
    TreeSnapshot {
        origin: TreeOrigin {
            conversation_id: id("conversation"),
            agent_id: id("primary"),
            selected_head: head("main"),
            revision: 9,
        },
        heads: vec![
            TreeHead {
                name: head("main"),
                target: Some(id("user-3")),
            },
            TreeHead {
                name: head("old"),
                // A durable tip may be an audit atom without a displayed semantic message.
                target: Some(id("turn-status-tip")),
            },
        ],
        rows: vec![
            row("user-1", None, 0, TreeRowKind::User, &[]),
            row("assistant-2", Some("user-1"), 1, TreeRowKind::Assistant, &["old"]),
            row("user-3", Some("assistant-2"), 2, TreeRowKind::User, &["main"]),
        ],
    }
}

fn open(source: TreeSnapshot) -> ConversationTree {
    let agent = source.origin.agent_id.clone();
    ConversationTree::new(agent, Ok(source), SurfaceId::Composer)
}

fn visible(tree: &ConversationTree) -> Vec<Identity> {
    tree.visible_entries()
        .iter()
        .map(|index| tree.rows()[*index].entry_id.clone())
        .collect()
}

fn with_sibling() -> TreeSnapshot {
    let mut source = snapshot();
    let mut sibling = source.rows[1].clone();
    sibling.entry_id = id("other-answer");
    sibling.head_markers.clear();
    sibling.chronological_ordinal = 2;
    source.rows[2].chronological_ordinal = 3;
    source.rows.insert(2, sibling);
    source
}

#[test]
fn tre_6_folding_an_ancestor_keeps_selection_on_a_visible_identity() {
    let mut tree = ConversationTree::new(id("primary"), Ok(snapshot()), SurfaceId::Composer);
    tree.select_edge(true, 2);
    let selected = id("user-3");
    assert_eq!(tree.selected_entry(), Some(&selected));
    assert!(tree.toggle_fold(&id("user-1")));
    assert_eq!(tree.selected_entry(), Some(&id("user-1")));
    assert_eq!(tree.entries_count(), 1);
}

#[test]
fn tre_6_refresh_retains_valid_cursor_fold_and_view_mode() {
    let mut tree = ConversationTree::new(id("primary"), Ok(snapshot()), SurfaceId::Composer);
    tree.toggle_fold(&id("user-1"));
    tree.toggle_mode();
    tree.refresh(Ok(snapshot()));
    assert_eq!(tree.mode(), TreeMode::Heads);
    assert!(tree.is_folded(&id("user-1")));
    assert_eq!(tree.selected_head().map(Identity::as_str), Some("main"));
}

#[test]
fn tre_8_active_head_is_distinct_from_the_selected_branch_cursor() {
    let mut tree = ConversationTree::new(id("primary"), Ok(snapshot()), SurfaceId::Composer);
    tree.toggle_mode();
    assert!(tree.hover_head(&head("old"), 2));
    assert_eq!(tree.selected_head().map(Identity::as_str), Some("old"));
    assert_eq!(tree.active_head_name(), "main");
}

#[test]
fn tre_8_copy_from_a_head_uses_its_marked_semantic_row() {
    let mut tree = ConversationTree::new(id("primary"), Ok(snapshot()), SurfaceId::Composer);
    tree.toggle_mode();
    tree.hover_head(&head("old"), 2);
    let request = tree.source_request().expect("branch has a semantic marker");
    assert_eq!(request.entry_id, id("assistant-2"));
}

#[test]
fn tre_8_copy_from_a_head_without_a_semantic_marker_is_unavailable() {
    let mut tree = ConversationTree::new(id("primary"), Ok(snapshot()), SurfaceId::Composer);
    tree.toggle_mode();
    // The current branch marker is present; add and select a distinct head with no row marker.
    let mut projection = snapshot();
    projection.heads.push(TreeHead {
        name: head("empty"),
        target: None,
    });
    tree.refresh(Ok(projection));
    tree.hover_head(&head("empty"), 2);
    assert!(tree.source_request().is_none());
}

#[test]
fn tre_2_interleaved_branches_are_contiguous_and_fold_by_ancestry() {
    let mut tree = open(with_sibling());
    assert_eq!(
        visible(&tree),
        [id("user-1"), id("assistant-2"), id("user-3"), id("other-answer")]
    );
    assert_eq!(tree.selected_entry(), Some(&id("user-3")));
    tree.toggle_fold(&id("assistant-2"));
    assert_eq!(
        visible(&tree),
        [id("user-1"), id("assistant-2"), id("other-answer")]
    );
    assert_eq!(tree.selected_entry(), Some(&id("assistant-2")));
    tree.toggle_fold(&id("assistant-2"));
    tree.select_edge(true, 10);
    assert_eq!(tree.selected_entry(), Some(&id("other-answer")));
}

#[test]
fn tre_6_initial_selection_resolves_hidden_head_tip_and_visible_ancestor() {
    let mut source = snapshot();
    source.origin.selected_head = head("old");
    let mut tree = open(source.clone());
    assert_eq!(tree.selected_entry(), Some(&id("assistant-2")));
    tree.toggle_fold(&id("user-1"));
    tree.refresh(Ok(source));
    assert_eq!(tree.selected_entry(), Some(&id("user-1")));
}

#[test]
fn tre_2_connectors_follow_splits_and_keep_linear_steps_aligned() {
    let tree = open(with_sibling());
    assert_eq!(tree.ancestry_prefix(&id("user-1")), "");
    assert_eq!(tree.ancestry_prefix(&id("assistant-2")), " ├─");
    assert_eq!(tree.ancestry_prefix(&id("user-3")), " │ ");
    assert_eq!(tree.ancestry_prefix(&id("other-answer")), " └─");
    let tree = open(snapshot());
    for index in tree.visible_entries() {
        assert_eq!(tree.ancestry_prefix(&tree.rows()[index].entry_id), "");
    }
}

#[test]
fn tre_2_disconnected_and_duplicate_snapshot_rows_refuse_partial_display() {
    for mode in 0..3 {
        let mut source = snapshot();
        match mode {
            0 => source.rows[1].parent_id = Some(id("missing")),
            1 => source.rows[0].parent_id = Some(id("user-3")),
            _ => source.rows.push(source.rows[0].clone()),
        }
        let tree = open(source);
        assert!(tree.unavailable().is_some());
        assert!(tree.visible_entries().is_empty());
        assert!(tree.rows().is_empty());
    }
}

#[test]
fn tre_2_nested_splits_preserve_outer_connector_and_sibling_order() {
    let mut source = snapshot();
    let mut other_root = source.rows[0].clone();
    other_root.entry_id = id("other-root");
    other_root.chronological_ordinal = 3;
    let mut other_child = source.rows[1].clone();
    other_child.entry_id = id("other-child");
    other_child.chronological_ordinal = 4;
    source.rows.extend([other_root, other_child]);
    let tree = open(source);
    let expected = [
        ("user-1", " ├─"),
        ("assistant-2", " │  ├─"),
        ("user-3", " │  │ "),
        ("other-child", " │  └─"),
        ("other-root", " └─"),
    ];
    let shown = visible(&tree);
    assert_eq!(shown.len(), expected.len());
    for (entry, (name, prefix)) in shown.iter().zip(expected) {
        assert_eq!(entry, &id(name));
        assert_eq!(tree.ancestry_prefix(entry), prefix);
    }
}

#[test]
fn tre_2_6_8_omitted_tool_tip_keeps_canonical_copy_and_projected_head_anchor() {
    let mut source = snapshot();
    source.origin.selected_head = head("old");
    source.rows[1].kind = TreeRowKind::ToolBatch;
    source.rows[1].rewind = TreeRewindEligibility::Ineligible;
    let canonical = source.rows.clone();
    let mut tree = open(source.clone());
    assert_eq!(tree.rows(), canonical.as_slice());
    assert_eq!(tree.selected_entry(), Some(&id("user-1")));
    assert_eq!(tree.head_markers(&id("user-1")), [head("old")]);
    assert_eq!(tree.visible_entries().len(), 2);
    assert!(tree.has_children(&id("user-1")));
    assert!(!tree.has_children(&id("assistant-2")));
    tree.toggle_mode();
    assert_eq!(
        tree.source_request().expect("canonical head copy").entry_id,
        id("assistant-2")
    );
    tree.toggle_mode();
    tree.toggle_fold(&id("user-1"));
    tree.refresh(Ok(source));
    assert_eq!(tree.selected_entry(), Some(&id("user-1")));
    assert_eq!(tree.visible_entries().len(), 1);
}

#[test]
fn tre_2_6_7_hidden_only_descendants_have_no_fold_but_completed_tools_remain_targets() {
    let mut source = snapshot();
    source.rows.pop();
    source.origin.selected_head = head("old");
    source.rows[1].kind = TreeRowKind::ToolBatch;
    source.rows[1].rewind = TreeRewindEligibility::Ineligible;
    let tree = open(source.clone());
    assert_eq!(tree.visible_entries().len(), 1);
    assert!(!tree.has_children(&id("user-1")));
    source.rows[1].rewind = TreeRewindEligibility::Eligible;
    let mut tree = open(source);
    assert_eq!(tree.selected_entry(), Some(&id("assistant-2")));
    assert_eq!(
        tree.navigation().expect("completed target").target,
        TreeNavigationTarget::Rewind(id("assistant-2"))
    );
}

#[test]
fn tre_2_splits_below_omitted_tool_steps_keep_both_visible_continuations() {
    let mut source = snapshot();
    source.rows[1].kind = TreeRowKind::ToolBatch;
    source.rows[1].rewind = TreeRewindEligibility::Ineligible;
    let mut sibling = source.rows[2].clone();
    sibling.entry_id = id("alternate-continuation");
    sibling.chronological_ordinal = 3;
    sibling.head_markers.clear();
    source.rows.push(sibling);
    let tree = open(source);
    assert_eq!(
        visible(&tree),
        [id("user-1"), id("user-3"), id("alternate-continuation")]
    );
    assert_eq!(tree.ancestry_prefix(&id("user-3")), " ├─");
    assert_eq!(tree.ancestry_prefix(&id("alternate-continuation")), " └─");
}

#[test]
fn a_snapshot_of_another_conversation_or_a_failure_shows_why() {
    let mut tree = open(snapshot());
    let mut foreign = snapshot();
    foreign.origin.agent_id = id("helper");
    tree.refresh(Ok(foreign));
    assert_eq!(
        tree.unavailable(),
        Some("This snapshot belongs to a different conversation.")
    );
    assert!(tree.rows().is_empty());
    tree.refresh(Err("journal\u{7} offline".to_owned()));
    assert_eq!(tree.unavailable(), Some("journal offline"));
    let mut repeated = snapshot();
    repeated.rows.push(repeated.rows[0].clone());
    tree.refresh(Ok(repeated));
    assert_eq!(
        tree.unavailable(),
        Some("History contains repeated branch identities.")
    );
    tree.refresh(Ok(snapshot()));
    assert_eq!(tree.unavailable(), None);
    assert_eq!(tree.entries_count(), 3);
}

#[test]
fn navigation_says_why_it_cannot_go() {
    let mut tree = open(snapshot());
    tree.set_pending(Some(TreePending::Navigation));
    assert!(tree.navigation().is_none());
    assert_eq!(
        tree.notice(),
        Some("Navigation is already waiting for the journal.")
    );
    tree.set_pending(None);
    let target = tree.navigation().expect("the selected entry can be rewound to");
    assert_eq!(target.target, TreeNavigationTarget::Rewind(id("user-3")));
    assert_eq!(target.origin.revision, 9);
    assert_eq!(tree.notice(), None);
    tree.toggle_mode();
    assert_eq!(
        tree.navigation().expect("the active head").target,
        TreeNavigationTarget::SelectHead(head("main"))
    );
    tree.refresh(Err("gone".to_owned()));
    assert!(tree.navigation().is_none());
    assert_eq!(
        tree.notice(),
        Some("History is unavailable. Press r to refresh.")
    );
}

#[test]
fn the_cursor_moves_within_the_list_and_scrolls_to_stay_in_view() {
    let mut tree = open(with_sibling());
    assert_eq!(tree.selected_index(), Some(2));
    assert!(tree.move_cursor(true, 5, 2));
    assert_eq!(tree.selected_index(), Some(3));
    assert_eq!(tree.scroll_offset(), 2);
    assert!(!tree.move_cursor(true, 1, 2));
    assert!(tree.move_cursor(false, 10, 2));
    assert_eq!(tree.selected_index(), Some(0));
    assert_eq!(tree.scroll_offset(), 0);
    assert!(!tree.select_edge(false, 2));
    assert!(tree.hover_entry(&id("other-answer"), 2));
    assert_eq!(tree.scroll_offset(), 2);
    assert!(!tree.hover_entry(&id("missing"), 2));
}

#[test]
fn folding_an_entry_twice_shows_the_same_rows() {
    let mut tree = open(with_sibling());
    let before = visible(&tree);
    assert!(tree.toggle_fold(&id("user-1")));
    assert_eq!(visible(&tree), [id("user-1")]);
    assert!(tree.toggle_fold(&id("user-1")));
    assert_eq!(visible(&tree), before);
    assert!(!tree.is_folded(&id("user-1")));
    assert!(!tree.toggle_fold(&id("user-3")), "a leaf has nothing to fold");
    tree.toggle_mode();
    assert!(!tree.toggle_fold(&id("user-1")), "folds are made while browsing entries");
}

#[test]
fn a_refresh_keeps_a_cursor_that_is_still_shown() {
    let mut tree = open(with_sibling());
    assert!(tree.hover_entry(&id("other-answer"), 10));
    tree.refresh(Ok(with_sibling()));
    assert_eq!(tree.selected_entry(), Some(&id("other-answer")));
    tree.refresh(Ok(snapshot()));
    assert_eq!(tree.selected_entry(), Some(&id("user-3")), "a vanished entry yields to the active head");
}

#[test]
fn a_folded_entry_counts_what_it_hides_and_lists_its_heads_in_order() {
    let mut source = with_sibling();
    source.rows[2].head_markers = vec![head("zeta"), head("main")];
    source.rows[3].head_markers = vec![head("main"), head("alpha")];
    let tree = open(source);
    let (count, heads) = tree.folded_contents(&id("user-1"));
    assert_eq!(count, 3);
    let names: Vec<&str> = heads.iter().map(|name| name.as_str()).collect();
    assert_eq!(names, vec!["alpha", "main", "old", "zeta"]);
    let (leaf_count, leaf_heads) = tree.folded_contents(&id("user-3"));
    assert_eq!(leaf_count, 0);
    assert!(leaf_heads.is_empty());
    let (unknown_count, unknown_heads) = tree.folded_contents(&id("missing"));
    assert_eq!(unknown_count, 0);
    assert!(unknown_heads.is_empty());
}

#[test]
fn the_panel_shows_its_header_the_rows_that_fit_and_the_keys_that_fit() {
    let tree = open(snapshot());
    let panel = tree_panel(Some(&tree), 80, 10);
    assert_eq!(panel.header, vec![("Messages · active branch main · 2 branches".to_owned(), Role::Muted)]);
    assert_eq!(panel.window, (0, 3));
    assert_eq!(panel.viewport.content_rows, 4);
    assert_eq!(panel.viewport.content_width, 78);
    assert_eq!(panel.viewport.visible_rows, 4);
    assert_eq!(panel.viewport.offset, 1);
    assert_eq!(panel.footer, "↑↓ · ↵ rewind · f fold · b branches · l label · Esc/× close");
    let short = tree_panel(Some(&tree), 80, 5);
    assert_eq!(short.viewport.visible_rows, 2);
    assert_eq!(short.window.1 - short.window.0, 1);
    let closed = tree_panel(None, 30, 10);
    assert_eq!(closed.header, vec![("Conversation tree is closed.".to_owned(), Role::Muted)]);
    assert_eq!(closed.footer, "Esc close");
}

#[test]
fn tre_8_branch_rename_is_bound_to_256_utf8_bytes() {
    let mut tree = ConversationTree::new(Identity::new("primary"), Ok(snapshot()), SurfaceId::Composer);
    tree.toggle_mode();
    assert!(tree.begin_rename_head());
    assert!(tree.edit_input(TextIntent::KillToLineStart));
    assert!(tree.edit_input(TextIntent::Paste("x".repeat(257))));
    assert_eq!(tree.edit_request(), Err("A branch name must fit in 256 UTF-8 bytes.".to_owned()));
}

#[test]
fn a_rename_asks_for_the_new_name_against_the_snapshot_it_was_made_on() {
    let mut tree = open(snapshot());
    assert!(!tree.begin_rename_head(), "messages are browsed, not heads");
    tree.toggle_mode();
    assert!(tree.begin_rename_head());
    assert!(!tree.begin_rename_head(), "one prompt at a time");
    assert_eq!(tree.edit_request(), Ok(None), "an unchanged name asks for nothing");
    assert!(tree.edit_input(TextIntent::Paste("-v2\n".to_owned())));
    assert!(!tree.edit_input(TextIntent::Newline));
    match tree.edit_request() {
        Ok(Some(TreeEdit { origin, action: TreeEditAction::RenameHead { head, renamed } })) => {
            assert_eq!(origin, snapshot().origin);
            assert_eq!(head.as_str(), "main");
            assert_eq!(renamed, "main-v2 ");
        }
        other => panic!("expected a rename, found {other:?}"),
    }
    assert!(tree.clear_editor());
    assert!(!tree.clear_editor());
    assert_eq!(tree.edit_request(), Ok(None));
}

#[test]
fn a_blank_name_is_refused_in_words() {
    let mut tree = open(snapshot());
    tree.toggle_mode();
    assert!(tree.begin_rename_head());
    assert!(tree.edit_input(TextIntent::KillToLineStart));
    assert!(tree.edit_input(TextIntent::Paste("   ".to_owned())));
    assert_eq!(tree.edit_request(), Err("A branch name must contain text.".to_owned()));
}

#[test]
fn retiring_a_head_is_confirmed_before_it_is_asked_for() {
    let mut tree = open(snapshot());
    tree.toggle_mode();
    assert!(tree.begin_abandon_head());
    let panel = tree_panel(Some(&tree), 80, 20);
    assert_eq!(panel.header[1].0, "Retire branch main? Enter confirms · Esc cancels");
    assert_eq!(panel.header[1].1, Role::Failure);
    assert_eq!(panel.footer, "Enter retire · Esc cancel · × close");
    match tree.edit_request() {
        Ok(Some(TreeEdit { action: TreeEditAction::AbandonHead { head }, .. })) => assert_eq!(head.as_str(), "main"),
        other => panic!("expected a retirement, found {other:?}"),
    }
}

#[test]
fn the_rename_prompt_takes_a_row_and_the_keys_line() {
    let mut tree = open(snapshot());
    tree.toggle_mode();
    let before = tree_panel(Some(&tree), 80, 20);
    assert!(tree.begin_rename_head());
    let panel = tree_panel(Some(&tree), 80, 20);
    assert_eq!(panel.header.len(), before.header.len() + 1);
    assert_eq!(panel.header[1].0, "Rename branch: main");
    assert_eq!(panel.header[1].1, Role::Accent);
    assert_eq!(panel.footer, "Enter save · Esc cancel · × close");
    assert_eq!(panel.viewport.offset, before.viewport.offset + 1);
}

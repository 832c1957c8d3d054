use plexmaton_tui::ids::Identity;
use plexmaton_tui::tree_presentation::{
    Presentation, TreeRefusal, TreeRewindEligibility, TreeRow, TreeRowKind,
};

fn id(value: &str) -> Identity {
    Identity::new(value)
}

fn row(entry: &str, parent: Option<&str>, ordinal: u64, kind: TreeRowKind, heads: &[&str]) -> TreeRow {
    TreeRow {
        entry_id: id(entry),
        parent_id: parent.map(id),
        chronological_ordinal: ordinal,
        kind,
        head_markers: heads.iter().map(|head| id(head)).collect(),
        rewind: TreeRewindEligibility::Eligible,
    }
}

fn linear() -> Vec<TreeRow> {
    vec![
        row("user-1", None, 0, TreeRowKind::User, &[]),
        row("assistant-2", Some("user-1"), 1, TreeRowKind::Assistant, &["old"]),
        row("user-3", Some("assistant-2"), 2, TreeRowKind::User, &["main"]),
    ]
}

fn names(rows: &[TreeRow], indices: &[usize]) -> Vec<String> {
    indices
        .iter()
        .map(|index| rows[*index].entry_id.as_str().to_owned())
        .collect()
}

#[test]
fn a_linear_history_draws_in_order_without_connectors() {
    let rows = linear();
    let drawing = Presentation::new(&rows).expect("a linear history draws");
    assert_eq!(names(&rows, drawing.order()), ["user-1", "assistant-2", "user-3"]);
    for index in 0..rows.len() {
        assert_eq!(drawing.prefix(index), "");
        assert_eq!(drawing.rails(index), "");
    }
    assert_eq!(drawing.parent(2), Some(1));
    assert_eq!(drawing.parent(0), None);
    assert_eq!(drawing.descendants(0), vec![1, 2]);
    assert!(drawing.has_children(1));
    assert!(!drawing.has_children(2));
    assert_eq!(
        drawing.markers(1).iter().map(|head| head.as_str().to_owned()).collect::<Vec<_>>(),
        ["old"]
    );
}

#[test]
fn a_split_draws_each_branch_whole_with_junctions_and_a_rail() {
    let mut rows = linear();
    rows.insert(2, row("other-answer", Some("user-1"), 2, TreeRowKind::Assistant, &[]));
    rows[3].chronological_ordinal = 3;
    let drawing = Presentation::new(&rows).expect("a split history draws");
    assert_eq!(
        names(&rows, drawing.order()),
        ["user-1", "assistant-2", "user-3", "other-answer"]
    );
    assert_eq!(drawing.prefix(0), "");
    assert_eq!(drawing.prefix(1), " ├─");
    assert_eq!(drawing.prefix(3), " │ ");
    assert_eq!(drawing.prefix(2), " └─");
    assert_eq!(drawing.rails(1), " │ ");
    assert_eq!(drawing.descendants(1), vec![3]);
    assert_eq!(drawing.descendants(2), Vec::<usize>::new());
}

#[test]
fn nested_splits_keep_the_outer_lane() {
    let mut rows = linear();
    rows.push(row("other-root", None, 3, TreeRowKind::User, &[]));
    rows.push(row("other-child", Some("user-1"), 4, TreeRowKind::Assistant, &["old"]));
    let drawing = Presentation::new(&rows).expect("nested splits draw");
    let expected = [
        ("user-1", " ├─"),
        ("assistant-2", " │  ├─"),
        ("user-3", " │  │ "),
        ("other-child", " │  └─"),
        ("other-root", " └─"),
    ];
    let order = drawing.order().to_vec();
    assert_eq!(order.len(), expected.len());
    for (index, (name, prefix)) in order.iter().zip(expected) {
        assert_eq!(rows[*index].entry_id.as_str(), name);
        assert_eq!(drawing.prefix(*index), prefix);
    }
}

#[test]
fn repeated_and_disconnected_histories_are_refused() {
    let mut missing = linear();
    missing[1].parent_id = Some(id("missing"));
    assert_eq!(
        Presentation::new(&missing).err(),
        Some(TreeRefusal::DisconnectedAncestry)
    );
    let mut cycle = linear();
    cycle[0].parent_id = Some(id("user-3"));
    assert_eq!(
        Presentation::new(&cycle).err(),
        Some(TreeRefusal::DisconnectedAncestry)
    );
    let mut repeated = linear();
    repeated.push(repeated[0].clone());
    assert_eq!(
        Presentation::new(&repeated).err(),
        Some(TreeRefusal::RepeatedIdentity)
    );
    assert_eq!(
        TreeRefusal::RepeatedIdentity.message(),
        "History contains repeated branch identities."
    );
    assert_eq!(
        TreeRefusal::DisconnectedAncestry.message(),
        "History contains disconnected branch ancestry."
    );
}

#[test]
fn an_intermediate_tool_step_is_left_out_and_its_heads_move_up() {
    let mut rows = linear();
    rows[1].kind = TreeRowKind::ToolBatch;
    rows[1].rewind = TreeRewindEligibility::Ineligible;
    let drawing = Presentation::new(&rows).expect("draws");
    assert_eq!(names(&rows, drawing.order()), ["user-1", "user-3"]);
    assert!(!drawing.is_drawn(1));
    assert_eq!(drawing.anchor(1), Some(0));
    assert_eq!(drawing.parent(2), Some(0));
    assert!(drawing.has_children(0));
    assert!(!drawing.has_children(1));
    assert_eq!(
        drawing.markers(0).iter().map(|head| head.as_str().to_owned()).collect::<Vec<_>>(),
        ["old"]
    );
    assert!(drawing.markers(1).is_empty());
}

#[test]
fn a_completed_tool_step_stays_drawn() {
    let mut rows = linear();
    rows.pop();
    rows[1].kind = TreeRowKind::ToolBatch;
    rows[1].rewind = TreeRewindEligibility::Ineligible;
    let hidden = Presentation::new(&rows).expect("draws");
    assert_eq!(hidden.order().len(), 1);
    assert!(!hidden.has_children(0));
    rows[1].rewind = TreeRewindEligibility::Eligible;
    let shown = Presentation::new(&rows).expect("draws");
    assert_eq!(names(&rows, shown.order()), ["user-1", "assistant-2"]);
}

#[test]
fn a_split_below_a_left_out_step_hangs_from_the_nearest_drawn_row() {
    let mut rows = linear();
    rows[1].kind = TreeRowKind::ToolBatch;
    rows[1].rewind = TreeRewindEligibility::Ineligible;
    rows.push(row("alternate-continuation", Some("assistant-2"), 3, TreeRowKind::User, &[]));
    let drawing = Presentation::new(&rows).expect("draws");
    assert_eq!(
        names(&rows, drawing.order()),
        ["user-1", "user-3", "alternate-continuation"]
    );
    assert_eq!(drawing.prefix(2), " ├─");
    assert_eq!(drawing.prefix(3), " └─");
}

#[test]
fn rows_are_found_by_identity_and_the_empty_drawing_has_none() {
    let rows = linear();
    let drawing = Presentation::new(&rows).expect("draws");
    assert_eq!(drawing.row_of(&id("user-3")), Some(2));
    assert_eq!(drawing.row_of(&id("nowhere")), None);
    assert_eq!(drawing.position(2), Some(2));
    assert_eq!(drawing.prefix(9), "");
    let empty = Presentation::empty();
    assert_eq!(empty.len(), 0);
    assert!(empty.order().is_empty());
}

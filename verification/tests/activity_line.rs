use plexmaton_tui::activity_line::activity_line;
use plexmaton_tui::clip::Role;
use plexmaton_tui::current_work::CurrentWork;

#[test]
fn the_right_side_is_pushed_to_the_end_of_the_row() {
    let line = activity_line(
        Some(CurrentWork::RunningTool("grep".to_owned())),
        false,
        false,
        0,
        Vec::new(),
        vec![("2 waiting".to_owned(), Role::Muted)],
        40,
    );
    assert_eq!(line.len(), 5);
    assert_eq!(line[1], (" ".to_owned(), Role::Plain));
    assert_eq!(line[2], ("Running grep…".to_owned(), Role::Ambient));
    assert_eq!(line[3], (" ".repeat(16), Role::Plain));
    assert_eq!(line[4], ("2 waiting".to_owned(), Role::Muted));
}

#[test]
fn an_approval_in_view_leaves_the_left_side_empty() {
    let line = activity_line(Some(CurrentWork::ApprovalRequired), true, false, 0, Vec::new(), Vec::new(), 40);
    assert!(line.is_empty());
    let line = activity_line(Some(CurrentWork::ApprovalRequired), false, false, 0, Vec::new(), Vec::new(), 40);
    assert_eq!(line[2], ("Approval required".to_owned(), Role::ActionRequired));
    assert_eq!(line[0].1, Role::ActionRequired);
}

#[test]
fn readings_are_dropped_effort_first_then_quiet() {
    let readings = vec![
        (0, "5s".to_owned()),
        (1, "high effort".to_owned()),
        (2, "quiet for 2s".to_owned()),
    ];
    let line = activity_line(Some(CurrentWork::Thinking), false, true, 0, readings, Vec::new(), 20);
    assert_eq!(line.len(), 4);
    assert_eq!(line[2], ("Thinking…".to_owned(), Role::Ambient));
    assert_eq!(line[3], (" · 5s".to_owned(), Role::Muted));
}

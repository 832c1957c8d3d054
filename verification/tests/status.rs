use plexmaton_tui::clip::Role;
use plexmaton_tui::status::{status_rows, Footer, ScriptRow, StatusNote};

#[test]
fn a_script_that_does_not_fit_leaves_its_last_cell_to_an_ellipsis() {
    let footer = Footer::Script {
        lines: vec!["build ok".to_owned(), "tests ok".to_owned(), "lint ok".to_owned()],
    };
    let rows = status_rows(&footer, StatusNote::Quiet, Some("/work"), 20, 2);
    assert_eq!(
        rows.script,
        vec![
            ScriptRow { row: 0, width: 20, text: "build ok".to_owned() },
            ScriptRow { row: 1, width: 19, text: "tests ok".to_owned() },
        ]
    );
    assert!(rows.ellipsis);
    assert_eq!(rows.note, None, "a footer of its own keeps the quiet note away");
}

#[test]
fn a_quiet_default_footer_names_the_working_directory_and_an_armed_quit_says_so() {
    let rows = status_rows(&Footer::Default, StatusNote::Quiet, Some("/work"), 20, 1);
    assert_eq!(rows.note, Some((" /work".to_owned(), Role::Muted)));
    assert!(rows.script.is_empty() && !rows.ellipsis);
    let rows = status_rows(&Footer::Failed("script failed".to_owned()), StatusNote::QuitArmed, None, 20, 1);
    assert_eq!(rows.failure, Some("script failed".to_owned()));
    assert_eq!(rows.note, Some((" press Ctrl-D again to quit".to_owned(), Role::ActionRequired)));
    let rows = status_rows(&Footer::Script { lines: vec!["ok".to_owned()] }, StatusNote::Quiet, None, 20, 2);
    assert!(!rows.ellipsis);
    assert_eq!(rows.script.len(), 1);
}

use plexmaton_tui::quit::{QuitGuard, QuitStep};
use plexmaton_tui::status::StatusNote;

#[test]
fn one_press_only_arms_the_guard() {
    let mut guard = QuitGuard::new();
    assert_eq!(guard.note(0), StatusNote::Quiet);
    assert_eq!(guard.press(5_000), QuitStep::Armed);
    assert_eq!(guard.note(5_200), StatusNote::QuitArmed);
}

#[test]
fn a_second_press_within_a_second_quits() {
    let mut guard = QuitGuard::new();
    guard.press(5_000);
    assert_eq!(guard.press(6_000), QuitStep::Quit);
}

#[test]
fn a_late_second_press_arms_again_instead() {
    let mut guard = QuitGuard::new();
    guard.press(5_000);
    assert_eq!(guard.note(6_001), StatusNote::Quiet);
    assert_eq!(guard.press(6_001), QuitStep::Armed);
    assert_eq!(guard.press(6_500), QuitStep::Quit);
}

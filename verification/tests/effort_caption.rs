use plexmaton_tui::composer_menu::menu::ReasoningEffort;
use plexmaton_tui::effort_rail::{caption, description, detail_lines, end_labels, level_name, marker, stop, stop_glyph};

#[test]
fn the_caption_names_the_chosen_level_for_this_conversation() {
    assert_eq!(caption(None, Some(ReasoningEffort::High)), "high · this conversation");
    assert_eq!(caption(None, Some(ReasoningEffort::Off)), "none · this conversation");
}

#[test]
fn the_menus_feedback_takes_the_caption_over() {
    assert_eq!(
        caption(Some("max is not allowed for this model"), Some(ReasoningEffort::High)),
        "max is not allowed for this model"
    );
}

#[test]
fn nothing_chosen_says_why() {
    assert_eq!(caption(None, None), "No matching allowed effort. Check model configuration.");
    assert_eq!(description(None), "Unavailable levels cannot be selected.");
}

#[test]
fn each_level_is_described() {
    assert_eq!(description(Some(ReasoningEffort::Off)), "Answer without a reasoning phase.");
    assert_eq!(description(Some(ReasoningEffort::Medium)), "A balanced pass for everyday work.");
    assert_eq!(
        description(Some(ReasoningEffort::Max)),
        "For the hardest tasks; may take longer and use more tokens."
    );
    assert_eq!(description(Some(ReasoningEffort::Default)), "Use the provider's default effort.");
}

#[test]
fn the_detail_rows_appear_only_above_the_keys() {
    // Nine rows: the track is on row two, the caption on row five, the keys on the last row.
    assert_eq!(detail_lines(10), (true, true));
    // Five rows: the caption would sit on row two, the keys on row three.
    assert_eq!(detail_lines(5), (true, false));
    assert_eq!(detail_lines(4), (false, false));
}

#[test]
fn the_chosen_maximum_moves_and_other_choices_stand_still() {
    assert_eq!(stop_glyph(true, ReasoningEffort::Max, 30), marker(30));
    assert_eq!(stop_glyph(true, ReasoningEffort::Max, 30), "■");
    assert_eq!(stop_glyph(true, ReasoningEffort::Low, 30), "▲");
    assert_eq!(stop_glyph(false, ReasoningEffort::Max, 30), "╷");
}

#[test]
fn a_narrow_rail_shortens_its_names() {
    assert_eq!(level_name(43, 0, ReasoningEffort::Off), "n");
    assert_eq!(level_name(43, 5, ReasoningEffort::Max), "max");
    assert_eq!(level_name(44, 0, ReasoningEffort::Off), "none");
    assert_eq!(level_name(80, 4, ReasoningEffort::Xhigh), "xhigh");
}

#[test]
fn the_ends_are_labelled_only_above_a_lowered_track() {
    let right = stop(80, 5);
    assert_eq!(end_labels(80, 10), Some(((stop(80, 0), "Faster"), (right - 11, "More thought"))));
    assert_eq!(end_labels(80, 8), None, "the track sits on the first row");
    assert_eq!(end_labels(17, 10), None, "no rail at all");
}

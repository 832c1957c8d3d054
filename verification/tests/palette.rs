use plexmaton_tui::conversation_picker::{ConversationChoice, ConversationPicker, ConversationPickerStatus};
use plexmaton_tui::ids::Identity;
use plexmaton_tui::palette::{Command, CommandPalette, PalettePage};
use plexmaton_tui::permissions::PermissionPanel;
use plexmaton_tui::surface::SurfaceId;

fn filtered(text: &str) -> CommandPalette {
    let mut palette = CommandPalette::opened_from(SurfaceId::Composer);
    for character in text.chars() {
        palette.filter_mut().insert(character);
    }
    palette.reclamp();
    palette
}

/// One command is one row whatever the user typed to reach it.
#[test]
fn an_alias_finds_its_command_without_adding_a_second_row() {
    for typed in [
        "conf",
        "/conf",
        "config",
        "/config",
        "settings",
        "/settings",
        "SETTING",
    ] {
        let palette = filtered(typed);
        assert_eq!(palette.matches(), vec![Command::Config], "typed {typed:?}");
    }
}

/// A filter that admits nothing chooses nothing, rather than a stale row.
#[test]
fn command_palette_a_filter_matching_nothing_leaves_no_choice() {
    let palette = filtered("nothing-matches-this");
    assert!(palette.matches().is_empty());
    assert_eq!(palette.chosen(), None);
}

/// The choice stops at the ends rather than wrapping.
#[test]
fn stepping_stops_at_the_ends_of_the_matches() {
    let mut palette = filtered("");
    assert!(!palette.step(false));
    for command in Command::ALL.into_iter().skip(1) {
        assert!(palette.step(true));
        assert_eq!(palette.chosen(), Some(command));
    }
    assert!(!palette.step(true));
}

#[test]
fn a_slash_name_or_alias_finds_its_command_and_anything_else_finds_none() {
    assert_eq!(Command::from_slash("/config"), Some(Command::Config));
    assert_eq!(Command::from_slash("  /settings  "), Some(Command::Config));
    assert_eq!(Command::from_slash("/sessions"), Some(Command::Resume));
    assert_eq!(Command::from_slash("/new"), Some(Command::New));
    assert_eq!(Command::from_slash("config"), None);
    assert_eq!(Command::from_slash("//config"), None);
    assert_eq!(Command::from_slash("/conf"), None);
    assert_eq!(Command::from_slash(""), None);
}

#[test]
fn names_and_summaries_read_as_listed() {
    assert_eq!(Command::Permissions.name(), "/permissions");
    assert_eq!(Command::New.summary(), "Start a new conversation");
    assert_eq!(Command::Resume.aliases(), &["continue", "sessions", "session"]);
    assert!(Command::New.aliases().is_empty());
}

#[test]
fn a_filter_change_reclamps_the_choice_onto_what_is_listed() {
    let mut palette = filtered("");
    assert!(palette.step(true));
    assert!(palette.step(true));
    assert_eq!(palette.chosen_index(), 2);
    for character in "perm".chars() {
        palette.filter_mut().insert(character);
    }
    palette.reclamp();
    assert_eq!(palette.chosen_index(), 0);
    assert_eq!(palette.chosen(), Some(Command::Permissions));
}

#[test]
fn the_conversation_page_counts_its_rows_and_holds_still_while_opening() {
    let mut palette = filtered("");
    let rows = vec![
        ConversationChoice { id: Identity::new("c-1"), title: "Refactor the parser".to_owned() },
        ConversationChoice { id: Identity::new("c-2"), title: "Write docs".to_owned() },
    ];
    palette.show(PalettePage::Conversations(ConversationPicker::Listing {
        entries: rows,
        status: ConversationPickerStatus::Ready,
        limited: false,
    }));
    assert_eq!(palette.match_count(), 2);
    assert!(palette.matches().is_empty(), "commands are not listed on a page");
    assert!(palette.step(true));
    assert!(!palette.step(true));
    if let Some(picker) = palette.conversations_mut() {
        *picker = ConversationPicker::Switching;
    }
    assert!(!palette.step(false), "nothing moves while a conversation opens");
}

#[test]
fn the_permissions_page_moves_its_own_choice() {
    let mut palette = filtered("");
    palette.show(PalettePage::Permissions(PermissionPanel::listing(3)));
    assert!(palette.step(true));
    assert_eq!(palette.permissions().map(|panel| panel.chosen), Some(1));
    assert_eq!(palette.chosen_index(), 0);
}

#[test]
fn a_click_in_the_filter_places_the_caret_on_the_clicked_character() {
    let mut palette = filtered("abcdef");
    assert_eq!(palette.filter().cursor(), 6);
    assert!(palette.click_filter(20, 2));
    assert_eq!(palette.filter().cursor(), 2);
    assert!(!palette.click_filter(20, 2));
    assert_eq!(palette.filter_range(20), 0..6);
}

#[test]
fn a_narrow_filter_shows_the_text_nearest_the_caret() {
    let palette = filtered("abcdefghij");
    let (visible, caret) = palette.filter_view(5);
    assert_eq!(visible, "ghij");
    assert_eq!(caret.column, 4);
    assert_eq!(palette.filter_range(5), 6..10);
}

#[test]
fn wide_characters_take_two_columns_in_the_filter() {
    let palette = filtered("日本語");
    let (visible, caret) = palette.filter_view(5);
    assert_eq!(visible, "本語");
    assert_eq!(caret.column, 4);
}

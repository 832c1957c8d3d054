use plexmaton_tui::composer_menu::menu::{ComposerMenu, MenuRow, PermissionRows, ReasoningEffort};
use plexmaton_tui::composer_menu::Listing;
use plexmaton_tui::conversation_picker::{
    ConversationChoice, ConversationPicker, ConversationPickerStatus,
};
use plexmaton_tui::grammar::Command;
use plexmaton_tui::ids::Identity;
use plexmaton_tui::intent::Direction;

fn chosen(menu: &ComposerMenu) -> Option<MenuRow> {
    menu.chosen().cloned()
}

#[test]
fn a_slash_opens_on_the_first_command_and_steps_stop_at_the_ends() {
    let mut menu = ComposerMenu::new();
    assert!(!menu.is_open());
    assert!(menu.sync("/", 1));
    assert!(menu.is_open());
    assert_eq!(chosen(&menu), Some(MenuRow::Command(Command::New)));
    assert!(!menu.step("/", 1, Direction::Backward));
    assert!(menu.step("/", 1, Direction::Forward));
    assert_eq!(chosen(&menu), Some(MenuRow::Command(Command::Resume)));
    for _ in 0..10 {
        menu.step("/", 1, Direction::Forward);
    }
    assert_eq!(chosen(&menu), Some(MenuRow::Command(Command::Effort)));
    assert!(!menu.step("/", 1, Direction::Forward));
    // Syncing the same draft again changes nothing.
    assert!(!menu.sync("/", 1));
    assert_eq!(chosen(&menu), Some(MenuRow::Command(Command::Effort)));
}

#[test]
fn a_marked_row_stays_while_it_is_listed_and_otherwise_the_first_is_marked() {
    let mut menu = ComposerMenu::new();
    menu.sync("/", 1);
    menu.step("/", 1, Direction::Forward);
    menu.step("/", 1, Direction::Forward);
    assert_eq!(chosen(&menu), Some(MenuRow::Command(Command::Compact)));
    assert!(!menu.sync("/c", 2));
    assert_eq!(chosen(&menu), Some(MenuRow::Command(Command::Compact)));
    assert!(menu.sync("/p", 2));
    assert_eq!(chosen(&menu), Some(MenuRow::Command(Command::Permissions)));
    assert!(menu.sync("/zzz", 4));
    assert!(!menu.is_open(), "a command listing with no rows closes");
    assert!(!menu.sync("hello", 5));
}

#[test]
fn a_dismissal_lasts_until_the_initial_token_changes() {
    let mut menu = ComposerMenu::new();
    assert!(menu.sync("/resume pr", 10));
    assert!(menu.is_open());
    assert_eq!(menu.listing("/resume pr", 10), Some(Listing::Conversations));
    assert!(menu.dismiss("/resume pr", 10));
    assert!(!menu.is_open());
    assert!(!menu.sync("/resume proj", 12));
    assert!(!menu.is_open());
    assert!(menu.sync("/resum", 6));
    assert_eq!(chosen(&menu), Some(MenuRow::Command(Command::Resume)));
    assert!(menu.dismiss("hello", 5));
    assert!(!menu.is_open());
    menu.reopen();
    assert!(menu.sync("/", 1));
    assert!(menu.is_open());
}

#[test]
fn effort_rows_follow_the_allowed_levels_and_the_default_stands_alone() {
    let mut menu = ComposerMenu::new();
    menu.efforts = Some(vec![ReasoningEffort::Low, ReasoningEffort::High, ReasoningEffort::Max]);
    assert_eq!(
        menu.rows("/effort ", 8),
        vec![
            MenuRow::Effort(ReasoningEffort::Low),
            MenuRow::Effort(ReasoningEffort::High),
            MenuRow::Effort(ReasoningEffort::Max),
        ]
    );
    assert_eq!(menu.rows("/effort h", 9), vec![MenuRow::Effort(ReasoningEffort::High)]);
    assert_eq!(
        menu.rows("/effort default", 15),
        vec![MenuRow::Effort(ReasoningEffort::Default)]
    );
    menu.sync("/effort ", 8);
    menu.choose_row("/effort ", 8, MenuRow::Effort(ReasoningEffort::Default));
    assert_eq!(chosen(&menu), Some(MenuRow::Effort(ReasoningEffort::Default)));
    assert!(!menu.sync("/effort ", 8), "the provider default survives an empty query");
    assert!(menu.step("/effort ", 8, Direction::Backward));
    assert_eq!(chosen(&menu), Some(MenuRow::Effort(ReasoningEffort::Max)));
    menu.choose_row("/effort ", 8, MenuRow::Effort(ReasoningEffort::Off));
    assert_eq!(chosen(&menu), Some(MenuRow::Effort(ReasoningEffort::Max)), "an unlisted row is not marked");
    assert_eq!(ReasoningEffort::Off.as_str(), "none");
}

#[test]
fn permission_rows_filter_by_label_only_while_browsing() {
    let mut menu = ComposerMenu::new();
    menu.permissions = Some(PermissionRows {
        labels: vec!["Read files".to_owned(), "Run SHELL commands".to_owned()],
        browsing: true,
    });
    assert_eq!(menu.rows("/permissions shell", 18), vec![MenuRow::Permission(1)]);
    assert_eq!(menu.rows("/permissions ", 13), vec![MenuRow::Permission(0), MenuRow::Permission(1)]);
    menu.permissions = Some(PermissionRows {
        labels: vec!["Read files".to_owned(), "Back".to_owned()],
        browsing: false,
    });
    assert_eq!(menu.rows("/permissions shell", 18), vec![MenuRow::Permission(0), MenuRow::Permission(1)]);
    assert_eq!(menu.permission_label(1), Some("Back".to_owned()));
    assert_eq!(menu.permission_label(2), None);
}

#[test]
fn conversation_rows_are_the_listed_matches() {
    let mut menu = ComposerMenu::new();
    menu.conversations = Some(ConversationPicker::Listing {
        entries: vec![
            ConversationChoice { id: Identity::new("c-1"), title: "Project plan".to_owned() },
            ConversationChoice { id: Identity::new("c-2"), title: "Groceries".to_owned() },
        ],
        status: ConversationPickerStatus::Ready,
        limited: false,
    });
    assert_eq!(menu.rows("/resume proj", 12), vec![MenuRow::Conversation(Identity::new("c-1"))]);
    assert_eq!(
        menu.rows("/resume ", 8),
        vec![
            MenuRow::Conversation(Identity::new("c-1")),
            MenuRow::Conversation(Identity::new("c-2")),
        ]
    );
}

#[test]
fn the_window_slides_to_keep_the_mark_inside() {
    let mut menu = ComposerMenu::new();
    menu.sync("/", 1);
    assert_eq!(menu.window("/", 1, 3), (0, 3));
    for _ in 0..3 {
        menu.step("/", 1, Direction::Forward);
    }
    assert_eq!(menu.window("/", 1, 3), (1, 4));
    assert_eq!(menu.window("/", 1, 0), (3, 4));
    assert_eq!(menu.window("/", 1, 20), (0, 5));
}

#[test]
fn the_listing_follows_the_leading_token() {
    let menu = ComposerMenu::new();
    assert_eq!(menu.listing("/", 1), Some(Listing::Commands));
    assert_eq!(menu.listing("/co", 3), Some(Listing::Commands));
    assert_eq!(menu.listing("/compact please", 15), None);
    assert_eq!(menu.listing("/resume ", 8), Some(Listing::Conversations));
    assert_eq!(menu.listing("/resume proj", 3), Some(Listing::Conversations));
    assert_eq!(menu.listing("$re", 3), Some(Listing::Skills));
    assert_eq!(menu.listing("hello /compact", 14), None);
    assert_eq!(menu.rows("/co", 3), vec![MenuRow::Command(Command::Compact)]);
    assert_eq!(
        menu.rows("/", 1),
        vec![
            MenuRow::Command(Command::New),
            MenuRow::Command(Command::Resume),
            MenuRow::Command(Command::Compact),
            MenuRow::Command(Command::Permissions),
            MenuRow::Command(Command::Effort),
        ]
    );
    assert!(menu.rows("/zzz", 4).is_empty());
}

use plexmaton_tui::composer_menu::menu::{ComposerMenu, MenuRow};
use plexmaton_tui::composer_menu::Listing;
use plexmaton_tui::grammar::{
    binding_matches, command_flags, command_token_len, completion, exact_command, initial_token,
    split_flags, Command, CommandFlag,
};

/// A whole draft is a Command only when nothing but the command is in it; `/resume` keeps its
/// query, `/compact please` is text, and a slash inside prose is a character.
#[test]
fn a_whole_draft_is_a_command_only_when_nothing_else_is_in_it() {
    assert_eq!(exact_command("/compact"), Some(Command::Compact));
    assert_eq!(exact_command("/compact  "), Some(Command::Compact));
    assert_eq!(exact_command("/new"), Some(Command::New));
    assert_eq!(exact_command("/resume"), Some(Command::Resume));
    assert_eq!(exact_command("/resume proj"), Some(Command::Resume));
    assert_eq!(exact_command("/compact please"), None);
    assert_eq!(exact_command("/config"), None);
    assert_eq!(exact_command("see /compact"), None);
    assert_eq!(exact_command(""), None);
}

#[test]
fn a_declared_flag_is_read_and_an_undeclared_one_makes_the_draft_text() {
    assert_eq!(exact_command("/compact --force"), Some(Command::Compact));
    assert!(command_flags("/compact --force").contains(CommandFlag::Force));
    assert!(!command_flags("/compact").contains(CommandFlag::Force));
    assert_eq!(exact_command("/compact --hard"), None);
    assert_eq!(exact_command("/new --force"), None);
    assert!(!command_flags("/new --force").contains(CommandFlag::Force));
    assert_eq!(exact_command("/rewind"), Some(Command::Tree));
}

#[test]
fn flags_lead_and_the_query_follows_them() {
    let (flags, query) = split_flags(Command::Compact, "  --force  keep this").expect("declared");
    assert!(flags.contains(CommandFlag::Force));
    assert_eq!(query, "keep this");
    let (flags, query) = split_flags(Command::Resume, " proj").expect("no flags");
    assert!(!flags.contains(CommandFlag::Force));
    assert_eq!(query, "proj");
    assert!(split_flags(Command::Resume, "--force").is_none());
}

#[test]
fn the_listing_follows_the_token_the_draft_starts_with() {
    let listing = |text: &str, cursor: usize| completion(text, cursor).map(|found| found.listing);
    assert_eq!(listing("/", 1), Some(Listing::Commands));
    assert_eq!(listing("/co", 3), Some(Listing::Commands));
    assert_eq!(listing("/compact please", 15), None);
    assert_eq!(listing("/resume ", 8), Some(Listing::Conversations));
    assert_eq!(listing("/resume proj", 3), Some(Listing::Conversations));
    assert_eq!(listing("$re", 3), Some(Listing::Skills));
    assert_eq!(listing("hello /compact", 14), None);
    assert_eq!(listing("$Re", 3), None);
    assert_eq!(listing("$1x", 3), None);
    let menu = ComposerMenu::new();
    assert_eq!(menu.rows("/co", 3), vec![MenuRow::Command(Command::Compact)]);
    assert_eq!(
        menu.rows("/", 1),
        vec![
            MenuRow::Command(Command::New),
            MenuRow::Command(Command::Resume),
            MenuRow::Command(Command::Compact),
            MenuRow::Command(Command::Permissions),
            MenuRow::Command(Command::Effort),
        ]
    );
    assert!(menu.rows("/zzz", 4).is_empty());
}

#[test]
fn a_listing_query_is_what_follows_the_command_trimmed() {
    let found = completion("/resume   my proj  ", 2).expect("listing");
    assert_eq!(found.listing, Listing::Conversations);
    assert_eq!(found.query, "my proj");
    assert_eq!(found.token, "resume");
    let found = completion("/com", 3).expect("commands");
    assert_eq!(found.query, "co");
    assert_eq!(found.token, "com");
}

#[test]
fn the_initial_token_runs_to_the_first_space() {
    assert_eq!(initial_token("/resume proj").as_deref(), Some("resume"));
    assert_eq!(initial_token("$skill").as_deref(), Some("skill"));
    assert_eq!(initial_token("plain"), None);
    assert_eq!(command_token_len("/compact now"), 7);
    assert_eq!(command_token_len("text"), 0);
}

#[test]
fn a_binding_is_the_first_word_after_the_dollar() {
    assert!(binding_matches("$deploy the site", "deploy"));
    assert!(binding_matches("$  deploy", "deploy"));
    assert!(!binding_matches("$deployer", "deploy"));
    assert!(!binding_matches("deploy", "deploy"));
}

#[test]
fn a_command_lists_what_it_runs_on() {
    assert_eq!(Command::Model.lists(), Some(Listing::Models));
    assert_eq!(Command::Compact.lists(), None);
    assert_eq!(Command::Compact.flags(), &[CommandFlag::Force]);
    assert_eq!(CommandFlag::Force.name(), "--force");
    assert_eq!(Command::parse("rewind"), Some(Command::Tree));
    assert_eq!(Command::parse("tree"), Some(Command::Tree));
    assert_eq!(Command::parse("config"), None);
    assert_eq!(Listing::Permissions.title(), "Session permissions");
    assert!(Listing::Effort.stands_without_rows());
    assert!(!Listing::Skills.stands_without_rows());
}

#[test]
fn only_a_sign_opens_a_completion_and_only_a_dollar_lists_skills() {
    assert!(completion("hello", 2).is_none());
    assert!(completion("", 0).is_none());
    let skills = completion("$rev", 4).unwrap();
    assert_eq!(skills.listing, Listing::Skills);
    assert_eq!(skills.token, "rev");
    let commands = completion("/co", 3).unwrap();
    assert_eq!(commands.listing, Listing::Commands);
    assert_eq!(commands.token, "co");
    assert!(completion("$Upper", 3).is_none());
    assert!(completion("$_x", 2).is_none());
    assert!(completion("$9a", 2).is_none());
}

use plexmaton_tui::configuration::ConfigurationSummary;
use plexmaton_tui::drawer::{Drawer, Page, Shown};
use plexmaton_tui::surface::SurfaceId;

fn filtered(text: &str) -> Drawer {
    let mut drawer = Drawer::opened_from(SurfaceId::Composer);
    for character in text.chars() {
        drawer.filter_mut().expect("list filter").insert(character);
    }
    drawer.reclamp();
    drawer
}

/// A page is found by any part of its name, and by nothing else.
#[test]
fn a_page_is_found_by_its_name_and_a_slash_is_a_character() {
    for typed in ["conf", "config", "Configuration", "FIGUR"] {
        assert_eq!(
            filtered(typed).pages(),
            vec![Page::Configuration],
            "typed {typed:?}"
        );
    }
    for typed in ["/config", "/", "settings", "new"] {
        assert!(filtered(typed).pages().is_empty(), "typed {typed:?}");
    }
    assert_eq!(filtered("").pages(), Page::ALL.to_vec());
}

/// A filter that admits nothing chooses nothing, rather than a stale row.
#[test]
fn drawer_a_filter_matching_nothing_leaves_no_choice() {
    let drawer = filtered("nothing-matches-this");
    assert!(drawer.pages().is_empty());
    assert_eq!(drawer.chosen_page(), None);
}

/// The choice stops at the ends rather than wrapping.
#[test]
fn stepping_stops_at_the_ends_of_the_pages() {
    let mut drawer = filtered("");
    assert!(!drawer.step(false));
    for page in Page::ALL.into_iter().skip(1) {
        assert!(drawer.step(true));
        assert_eq!(drawer.chosen_page(), Some(page));
    }
    assert!(!drawer.step(true));
}

#[test]
fn an_open_page_takes_no_text_and_lists_no_pages() {
    let mut drawer = filtered("con");
    drawer.show(Shown::Configuration(ConfigurationSummary {
        provider: "openai".to_owned(),
        model: "gpt".to_owned(),
        reasoning_effort: "high".to_owned(),
    }));
    assert!(!drawer.takes_text());
    assert!(drawer.filter_mut().is_none());
    assert!(drawer.pages().is_empty());
    assert_eq!(drawer.page(), Some(Page::Configuration));
    assert!(!drawer.click_filter(20, 1));
    assert_eq!(drawer.filter().text(), "con", "the list's filter waits as it was left");
    assert_eq!(
        drawer.configuration().map(|summary| summary.preferred_rows()),
        Some(16)
    );
}

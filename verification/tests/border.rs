use plexmaton_tui::panel::{border_plan, BorderInk, BorderPlan, Chrome, Edges, TitlePlacement};

#[test]
fn a_box_draws_every_edge_its_region_has() {
    assert_eq!(
        border_plan(true, Edges::All, Chrome::Box, false),
        BorderPlan {
            ink: BorderInk::Focused,
            top: true,
            bottom: true,
            left: true,
            right: true,
            junctions: false,
            title: TitlePlacement::InBorder,
        }
    );
    let closing = border_plan(false, Edges::Closing, Chrome::Box, false);
    assert_eq!((closing.top, closing.bottom, closing.left, closing.right), (false, true, true, true));
    assert_eq!(closing.ink, BorderInk::Quiet);
}

#[test]
fn a_divider_joins_the_sides_it_sits_between() {
    assert!(border_plan(false, Edges::Lower, Chrome::Box, false).junctions);
    assert!(border_plan(false, Edges::Middle, Chrome::Box, false).junctions);
    assert!(!border_plan(false, Edges::Upper, Chrome::Box, false).junctions);
}

#[test]
fn rules_draw_only_horizontal_edges_and_run_into_their_title() {
    let rules = border_plan(false, Edges::All, Chrome::Rules, false);
    assert_eq!((rules.top, rules.bottom, rules.left, rules.right), (true, true, false, false));
    assert_eq!(rules.title, TitlePlacement::AfterRule);
    assert_eq!(border_plan(false, Edges::Closing, Chrome::Rules, false).title, TitlePlacement::InBorder);
}

#[test]
fn an_empty_title_or_a_bare_region_shows_no_title() {
    assert_eq!(border_plan(false, Edges::All, Chrome::Box, true).title, TitlePlacement::Untitled);
    let bare = border_plan(true, Edges::All, Chrome::Bare, false);
    assert_eq!(bare.title, TitlePlacement::Untitled);
    assert!(!bare.top && !bare.bottom && !bare.left && !bare.right);
}

use plexmaton_tui::panel::ScrollPosition;
use plexmaton_tui::permission_review::{choice_row, review_layout};
use plexmaton_tui::surface::Rect;

#[test]
fn the_rules_scroll_above_a_fixed_choice_and_hint() {
    let area = Rect::new(0, 0, 60, 20);
    let layout = review_layout(area, 2, 1, 30, None);
    assert_eq!(layout.inside, Rect::new(3, 2, 54, 16));
    assert_eq!(layout.body, Rect::new(3, 2, 54, 12));
    assert_eq!(layout.viewport.content_rows, 30);
    assert_eq!(layout.viewport.visible_rows, 12);
    assert_eq!(layout.viewport.content_width, 54);
    assert_eq!(layout.viewport.offset, 0);
    assert_eq!(layout.choice, Rect::new(3, 15, 54, 1));
    assert_eq!(layout.more, Some(Rect::new(3, 14, 54, 1)));
    assert_eq!(layout.hint, Rect::new(3, 17, 54, 1));
    assert_eq!(choice_row(area, 1), 15);
}

#[test]
fn a_parked_body_resumes_and_stops_at_its_end() {
    let area = Rect::new(0, 0, 60, 20);
    let at_end = review_layout(area, 2, 1, 30, Some(ScrollPosition::Tail));
    assert_eq!(at_end.viewport.offset, 18);
    assert_eq!(at_end.more, None);

    let parked = review_layout(area, 2, 1, 30, Some(ScrollPosition::Row(5)));
    assert_eq!(parked.viewport.offset, 5);
    assert!(parked.more.is_some());

    let past = review_layout(area, 2, 1, 30, Some(ScrollPosition::Row(400)));
    assert_eq!(past.viewport.offset, 18);
}

#[test]
fn rules_that_fit_offer_nothing_more_to_read() {
    let layout = review_layout(Rect::new(0, 0, 60, 20), 2, 1, 4, None);
    assert_eq!(layout.viewport.offset, 0);
    assert_eq!(layout.more, None);
}

#[test]
fn a_cramped_area_saturates_instead_of_wrapping() {
    let layout = review_layout(Rect::new(5, 5, 3, 3), 2, 1, 10, None);
    assert_eq!(layout.inside.width, 0);
    assert_eq!(layout.inside.height, 0);
    assert_eq!(layout.body.height, 0);
    assert_eq!(choice_row(Rect::new(5, 5, 3, 3), 1), 3);
}

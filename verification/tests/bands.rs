use plexmaton_tui::child_control::{set_child_control, ChildControl, ChildControlRefusal, ChildControlSnapshot};
use plexmaton_tui::conversation_tree::{branch_count, prefix, push_children, sanitize_message, single_line, PendingRow};
use plexmaton_tui::effort_rail::{detail_row, hit_level, keys_for, label_start, marker, nearest_stop, shows_rail, stop, tick_row};
use plexmaton_tui::ids::Identity;
use plexmaton_tui::input_queue::{body_rows, listed_within, queued_body, queued_floor, queued_rows, QueuedBoundary, QueuedInput, QueuedRow, LISTED};
use plexmaton_tui::layout::regions;
use plexmaton_tui::preparation::{admit_batch, BatchRefusal, Token, MAX_BATCH_BYTES};
use plexmaton_tui::readings::fitted_readings;
use plexmaton_tui::surface::{Point, Rect};
use std::sync::Arc;

fn waiting(count: usize, boundary: QueuedBoundary) -> Vec<QueuedInput> {
    (0..count)
        .map(|index| QueuedInput { text: format!("message {index}"), boundary })
        .collect()
}

#[test]
fn the_band_height_follows_what_is_listed_not_what_is_waiting() {
    let few = waiting(LISTED, QueuedBoundary::Turn);
    let many = waiting(40, QueuedBoundary::Turn);
    assert_eq!(queued_rows(&few), queued_rows(&many) - 1);
    assert_eq!(queued_rows(&few), 6, "rule, heading, three entries and the way back");
    assert_eq!(queued_rows(&[]), 0);
    assert_eq!(queued_floor(&many), 5);
}

#[test]
fn a_band_cut_short_lists_fewer_messages_and_keeps_the_way_back() {
    let mut queued = waiting(2, QueuedBoundary::Step);
    queued.extend(waiting(2, QueuedBoundary::Turn));
    assert_eq!(body_rows(&queued, 3), 6);
    assert_eq!(listed_within(&queued, 7), 3);
    assert_eq!(listed_within(&queued, 6), 2);
    assert_eq!(listed_within(&queued, 1), 0);
    let body = queued_body(&queued, 6, false);
    assert_eq!(
        body,
        vec![
            QueuedRow::Heading(QueuedBoundary::Step),
            QueuedRow::Entry(0),
            QueuedRow::Entry(1),
            QueuedRow::More(2),
            QueuedRow::WayBack { draft_empty: false },
        ]
    );
}

#[test]
fn each_sending_time_is_headed_once_above_its_own_run() {
    let queued = vec![
        QueuedInput { text: "a".to_owned(), boundary: QueuedBoundary::Step },
        QueuedInput { text: "b".to_owned(), boundary: QueuedBoundary::Turn },
        QueuedInput { text: "c".to_owned(), boundary: QueuedBoundary::Turn },
    ];
    assert_eq!(
        queued_body(&queued, u16::MAX, true),
        vec![
            QueuedRow::Heading(QueuedBoundary::Step),
            QueuedRow::Entry(0),
            QueuedRow::Heading(QueuedBoundary::Turn),
            QueuedRow::Entry(1),
            QueuedRow::Entry(2),
            QueuedRow::WayBack { draft_empty: true },
        ]
    );
    assert_eq!(QueuedBoundary::Admission.label(), "Sends when the current operation ends");
}

#[test]
fn readings_drop_effort_then_quiet_then_elapsed() {
    let readings = vec![
        (0, "12s".to_owned()),
        (1, "high effort".to_owned()),
        (2, "quiet for 5s".to_owned()),
    ];
    let kept = |width: u16| {
        fitted_readings(10, readings.clone(), 0, width)
            .into_iter()
            .map(|(slot, _)| slot)
            .collect::<Vec<_>>()
    };
    // Label 10, then 6, 14 and 15 columns of readings, then one cell of gap.
    assert_eq!(kept(46), vec![0, 1, 2]);
    assert_eq!(kept(45), vec![0, 2]);
    assert_eq!(kept(32), vec![0, 2]);
    assert_eq!(kept(31), vec![0]);
    assert_eq!(kept(30), vec![0]);
    assert_eq!(kept(17), vec![0]);
    assert_eq!(kept(16), Vec::<usize>::new());
}

#[test]
fn the_rail_places_six_stops_between_its_margins() {
    assert_eq!(stop(80, 0), 5);
    assert_eq!(stop(80, 5), 5 + (80 - 7 - 5));
    assert_eq!(stop(30, 0), 2);
    assert_eq!(stop(30, 5), 26);
    assert_eq!(nearest_stop(30, 2), 0);
    assert_eq!(nearest_stop(30, 26), 5);
    assert_eq!(tick_row(9), 2);
    assert_eq!(tick_row(8), 0);
    assert_eq!(marker(0), "▲");
    assert_eq!(marker(24), "■");
    assert_eq!(marker(96), "▲");
    assert!(shows_rail(18, 4));
    assert!(!shows_rail(17, 10));
    assert_eq!(label_start(10, 3), 9);
    assert_eq!(detail_row(10), 5);
    assert_eq!(detail_row(6), 2);
    assert_eq!(keys_for(39), " ←→ · Enter set · Esc cancel");
}

#[test]
fn a_press_on_the_rail_finds_the_nearest_level_and_nothing_off_it() {
    let bounds = Rect::new(0, 0, 32, 10);
    // Inner width 30: stops at 2, 6, 10, 15, 19 and 24, the tick row two rows down.
    assert_eq!(hit_level(bounds, Point { x: 3, y: 3 }), Some(0));
    assert_eq!(hit_level(bounds, Point { x: 16, y: 4 }), Some(3));
    assert_eq!(hit_level(bounds, Point { x: 16, y: 5 }), None);
    assert_eq!(hit_level(bounds, Point { x: 0, y: 3 }), None);
    assert_eq!(hit_level(Rect::new(0, 0, 19, 10), Point { x: 3, y: 3 }), None);
}

#[test]
fn tree_rows_keep_their_lanes_and_their_text_on_one_row() {
    assert_eq!(prefix(&[], None), "");
    assert_eq!(prefix(&[], Some(false)), " ├─");
    assert_eq!(prefix(&[true, false], Some(true)), " │     └─");
    assert_eq!(prefix(&[true; 9], None), format!("… {}", " │ ".repeat(8)));
    assert_eq!(branch_count(1), "1 branch");
    assert_eq!(branch_count(12), "12 branches");
    assert_eq!(single_line("a\nb\tc"), "a b c");
    assert_eq!(sanitize_message("a\u{7}b"), "ab");
    assert_eq!(sanitize_message(&"x".repeat(200)).len(), 180);
    let mut stack: Vec<PendingRow> = vec![(9, vec![], None)];
    push_children(&mut stack, &[3, 4, 5], &[true]);
    assert_eq!(stack.pop(), Some((3, vec![true], Some(false))));
    assert_eq!(stack.pop(), Some((4, vec![true], Some(false))));
    assert_eq!(stack.pop(), Some((5, vec![true], Some(true))));
    push_children(&mut stack, &[7], &[]);
    assert_eq!(stack.pop(), Some((7, vec![], None)));
    assert_eq!(stack.len(), 1);
}

#[test]
fn control_moves_forward_only_and_refusals_keep_what_was_held() {
    let child = Identity::new("child");
    let mut held = None;
    let first = ChildControlSnapshot { revision: 2, control: ChildControl::Main };
    assert_eq!(set_child_control(&child, false, Some(&mut held), first), Ok(true));
    assert_eq!(set_child_control(&child, false, Some(&mut held), first), Ok(false));
    let conflicting = ChildControlSnapshot { revision: 2, control: ChildControl::User };
    assert_eq!(
        set_child_control(&child, false, Some(&mut held), conflicting),
        Err(ChildControlRefusal::Conflict)
    );
    let stale = ChildControlSnapshot { revision: 1, control: ChildControl::User };
    assert_eq!(set_child_control(&child, false, Some(&mut held), stale), Err(ChildControlRefusal::Stale));
    assert_eq!(held, Some(first));
    let newer = ChildControlSnapshot { revision: 3, control: ChildControl::Main };
    assert_eq!(set_child_control(&child, false, Some(&mut held), newer), Ok(false));
    assert_eq!(held, Some(newer));
    assert_eq!(set_child_control(&child, true, Some(&mut held), newer), Err(ChildControlRefusal::Primary));
    assert_eq!(
        set_child_control(&child, false, None, newer),
        Err(ChildControlRefusal::UnknownChild(Identity::new("child")))
    );
    assert_eq!(ChildControlRefusal::UnknownChild(child).message(), "unknown child: child");
}

#[test]
fn a_batch_is_refused_whole_when_it_outgrows_its_bounds() {
    assert_eq!(admit_batch(&[]), Err(BatchRefusal::Capacity));
    assert_eq!(admit_batch(&[10; 16]), Ok(()));
    assert_eq!(admit_batch(&[10; 17]), Err(BatchRefusal::Capacity));
    assert_eq!(admit_batch(&[MAX_BATCH_BYTES, 0]), Ok(()));
    assert_eq!(admit_batch(&[MAX_BATCH_BYTES, 1]), Err(BatchRefusal::Capacity));
}

#[test]
fn a_token_is_its_generation_and_its_place() {
    let generation = Arc::new(());
    let first = Token { generation: generation.clone(), sequence: 1 };
    let same = Token { generation: generation.clone(), sequence: 1 };
    let later = Token { generation, sequence: 2 };
    let replaced = Token { generation: Arc::new(()), sequence: 1 };
    assert!(first.same(&same));
    assert!(!first.same(&later));
    assert!(!first.same(&replaced));
}

#[test]
fn the_workspace_keeps_every_region_at_each_width() {
    let wide = regions(Rect::new(0, 0, 120, 24), false);
    assert_eq!(wide.footer, Rect::new(0, 23, 120, 1));
    assert_eq!(wide.agents.width, 26);
    assert_eq!(wide.activity.width, 30);
    assert_eq!(wide.transcript, Rect::new(26, 0, 64, 23));
    assert_eq!(wide.notices, None);

    let medium = regions(Rect::new(0, 0, 80, 24), true);
    assert_eq!(medium.notices, Some(Rect::new(0, 19, 80, 4)));
    assert_eq!(medium.activity.height, 8);
    assert_eq!(medium.transcript.x, 26);

    let narrow = regions(Rect::new(0, 0, 60, 30), false);
    assert_eq!(narrow.agents, Rect::new(0, 0, 60, 5));
    assert_eq!(narrow.activity.height, 8);
    assert_eq!(narrow.transcript.height, 16);
}

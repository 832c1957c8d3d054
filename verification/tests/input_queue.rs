use plexmaton_tui::input_queue::{
    queued_body, queued_floor, queued_rows, QueuedBoundary, QueuedInput, QueuedRow, LISTED, QUEUE_RULE_ROWS,
};

fn waiting(count: usize, boundary: QueuedBoundary) -> Vec<QueuedInput> {
    (0..count)
        .map(|index| QueuedInput { text: format!("message {index}"), boundary })
        .collect()
}

/// The band's rows as the terminal shows them: each row the library lays out, in words.
fn queued_lines(queued: &[QueuedInput], rows: u16, draft_empty: bool) -> Vec<String> {
    queued_body(queued, rows, draft_empty)
        .into_iter()
        .map(|row| match row {
            QueuedRow::Heading(boundary) => boundary.label().to_owned(),
            QueuedRow::Entry(index) => format!("↳ {}", queued[index].text),
            QueuedRow::More(held) => format!("… {held} more waiting"),
            QueuedRow::WayBack { draft_empty: true } => "Alt-↑ takes back the last one".to_owned(),
            QueuedRow::WayBack { draft_empty: false } => "Alt-↑ needs an empty draft".to_owned(),
        })
        .collect()
}

#[test]
fn height_is_bounded_by_what_is_listed_rather_than_by_what_is_waiting() {
    let few = waiting(LISTED, QueuedBoundary::Turn);
    let many = waiting(40, QueuedBoundary::Turn);

    assert_eq!(queued_rows(&few), queued_rows(&many).saturating_sub(1));
    assert_eq!(queued_rows(&few), 6, "rule, heading, three entries and the way back");
    let lines = queued_lines(&many, u16::MAX, true);
    assert_eq!(lines[lines.len() - 2], "… 37 more waiting", "what is not listed is still counted");
}

#[test]
fn every_boundary_names_itself_once_above_its_own_entries() {
    let mut queued = waiting(2, QueuedBoundary::Step);
    queued.extend(waiting(1, QueuedBoundary::Turn));

    assert_eq!(
        queued_lines(&queued, u16::MAX, true),
        [
            "Sends after the current tool call",
            "↳ message 0",
            "↳ message 1",
            "Sends when this turn ends",
            "↳ message 0",
            "Alt-↑ takes back the last one",
        ]
    );
}

#[test]
fn a_sending_time_the_band_stopped_listing_is_counted_rather_than_named() {
    let mut queued = waiting(LISTED + 1, QueuedBoundary::Turn);
    queued.extend(waiting(1, QueuedBoundary::Admission));

    assert_eq!(
        queued_lines(&queued, u16::MAX, true),
        [
            "Sends when this turn ends",
            "↳ message 0",
            "↳ message 1",
            "↳ message 2",
            "… 2 more waiting",
            "Alt-↑ takes back the last one",
        ],
        "no heading without a message, and the count covers both queues"
    );
}

#[test]
fn a_band_cut_short_drops_messages_before_it_drops_the_way_back() {
    let queued = waiting(4, QueuedBoundary::Turn);
    let asked = queued_rows(&queued);
    assert_eq!(asked, 7, "the rule, a heading, three messages, the count and the way back");

    for granted in queued_floor(&queued)..=asked {
        let body = granted.saturating_sub(QUEUE_RULE_ROWS);
        let rows = queued_body(&queued, body, true);
        assert!(rows.len() <= usize::from(body), "granted {granted}: {} lines do not fit {body} rows", rows.len());
        assert_eq!(
            rows.last(),
            Some(&QueuedRow::WayBack { draft_empty: true }),
            "granted {granted}: the way back is the row the band never gives up"
        );
        let listed = rows.iter().filter(|row| matches!(row, QueuedRow::Entry(_))).count();
        let counted: usize = rows
            .iter()
            .find_map(|row| match row {
                QueuedRow::More(held) => Some(*held),
                _ => None,
            })
            .unwrap_or(0);
        assert_eq!(listed + counted, 4, "granted {granted}: every waiting message is listed or counted");
    }
}

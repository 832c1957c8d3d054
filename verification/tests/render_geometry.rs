use plexmaton_tui::activity::{elapsed_label, mark, MARK, PHASES_PER_FRAME};
use plexmaton_tui::layout::LayoutClass;
use plexmaton_tui::mark::{braille_cells, size, BrailleCell, CellSize, Dot};
use std::time::Duration;
use unicode_width::UnicodeWidthStr;

#[test]
fn layout_class_covers_three_widths() {
    assert_eq!(LayoutClass::for_width(120), LayoutClass::Wide);
    assert_eq!(LayoutClass::for_width(96), LayoutClass::Wide);
    assert_eq!(LayoutClass::for_width(95), LayoutClass::Medium);
    assert_eq!(LayoutClass::for_width(72), LayoutClass::Medium);
    assert_eq!(LayoutClass::for_width(71), LayoutClass::Narrow);
}

/// Every frame is one cell, so the mark can never widen the row.
#[test]
fn mot_2_every_activity_mark_frame_is_one_cell() {
    for frame in MARK {
        assert_eq!(frame.width(), 1, "{frame:?}");
    }
}

/// The cycle divides the clock's, so the mark never jumps where the clock wraps.
#[test]
fn the_mark_cycle_divides_the_clock_cycle() {
    let frames = u16::try_from(MARK.len()).expect("small");
    assert_eq!(480 % (frames * PHASES_PER_FRAME), 0);
    assert_eq!(mark(0), mark(480 - 480 % (frames * PHASES_PER_FRAME)));
    assert_ne!(mark(0), mark(PHASES_PER_FRAME));
}

/// The block is square for the cell the terminal reports: a cell of 8 by 23 pixels gives 9×3
/// and 15×5.
#[test]
fn the_block_is_nearest_square_for_the_reported_cell() {
    let sarasa = Some(CellSize {
        width: 8,
        height: 23,
    });
    assert_eq!(size(3, sarasa), (9, 3));
    assert_eq!(size(5, sarasa), (15, 5));
}

/// With no report, a common monospace cell stands in: 7×3, 11×5 and 15×7.
#[test]
fn a_terminal_that_reports_no_cell_gets_monospace_proportions() {
    assert_eq!(size(3, None), (7, 3));
    assert_eq!(size(5, None), (11, 5));
    assert_eq!(size(7, None), (15, 7));
    let nothing = Some(CellSize {
        width: 0,
        height: 0,
    });
    assert_eq!(size(5, nothing), (11, 5), "a zero report is no report");
}

#[test]
fn elapsed_reads_in_the_largest_two_whole_units() {
    for (seconds, label) in [
        (0, "0s"),
        (11, "11s"),
        (59, "59s"),
        (60, "1m 0s"),
        (131, "2m 11s"),
        (3599, "59m 59s"),
        (3600, "1h 0m"),
        (3720, "1h 2m"),
    ] {
        assert_eq!(elapsed_label(Duration::from_secs(seconds)), label);
    }
}

#[test]
fn an_even_row_count_is_rounded_up_to_odd_and_small_ones_to_three() {
    assert_eq!(size(4, None).1, 5);
    assert_eq!(size(1, None).1, 3);
    assert_eq!(size(0, None).1, 3);
}

#[test]
fn the_block_never_grows_past_forty_one_columns() {
    let tall = Some(CellSize {
        width: 1,
        height: 100,
    });
    assert_eq!(size(9, tall), (41, 9));
}

#[test]
fn hours_keep_minutes_and_drop_seconds() {
    assert_eq!(elapsed_label(Duration::from_secs(7325)), "2h 2m");
    assert_eq!(elapsed_label(Duration::from_millis(1999)), "1s");
}

#[test]
fn braille_cells_pack_four_by_two_dots_into_one_glyph() {
    // One cell: a frame dot top-left, a centre dot bottom-right.
    let mut dots = vec![vec![Dot::Empty; 2]; 4];
    dots[0][0] = Dot::Frame;
    dots[3][1] = Dot::Core;
    let cells = braille_cells(&dots, 1, 1);
    assert_eq!(
        cells,
        vec![vec![Some(BrailleCell {
            glyph: '\u{2881}',
            framed: true
        })]]
    );
}

#[test]
fn a_cell_with_no_lit_dot_is_blank_and_centre_dots_can_outnumber_the_frame() {
    let mut dots = vec![vec![Dot::Empty; 4]; 4];
    dots[1][2] = Dot::Core;
    dots[2][3] = Dot::Core;
    dots[0][3] = Dot::Frame;
    let cells = braille_cells(&dots, 2, 1);
    assert_eq!(cells[0][0], None);
    // Dot 2 (0x02), dot 6 (0x20) and dot 4 (0x08).
    assert_eq!(
        cells[0][1],
        Some(BrailleCell {
            glyph: '\u{282A}',
            framed: false
        })
    );
}

#[test]
fn every_lit_cell_is_a_braille_pattern() {
    let dots = vec![vec![Dot::Frame; 6]; 8];
    let cells = braille_cells(&dots, 3, 2);
    assert_eq!(cells.len(), 2);
    for line in &cells {
        assert_eq!(line.len(), 3);
        for cell in line {
            assert_eq!(
                *cell,
                Some(BrailleCell {
                    glyph: '\u{28FF}',
                    framed: true
                })
            );
        }
    }
}

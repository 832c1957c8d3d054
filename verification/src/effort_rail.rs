//! The effort rail's geometry: where each level's stop stands, which stop a click is nearest,
//! and the marker that moves on the chosen one.
use vstd::prelude::*;

use crate::composer_menu::menu::{ReasoningEffort, effort_name};
use crate::surface::{sat_add, sat_sub, Point, Rect};
use crate::text::{chars_of, string_of};

verus! {

/// The markers the chosen maximum effort cycles through.
pub const MARKERS: [&'static str; 4] = ["▲", "■", "⬢", "●"];

/// How many levels the rail shows.
pub const LEVELS: usize = 6;

/// Which marker shows at clock phase `phase`.
pub open spec fn marker_index(phase: u16) -> int {
    (phase / 24) as int % 4
}

/// The marker for a clock phase.
pub fn marker(phase: u16) -> (glyph: &'static str)
    ensures
        glyph == MARKERS[marker_index(phase)],
{
    let markers = MARKERS;
    markers[((phase / 24) % 4) as usize]
}

/// The rail's left end: wider rails keep a wider margin.
pub open spec fn rail_left(width: u16) -> int {
    if width >= 70 {
        5
    } else {
        2
    }
}

/// `a - b`, or zero where `b` is larger.
pub open spec fn saturating_minus(a: int, b: int) -> int {
    if a > b {
        a - b
    } else {
        0
    }
}

/// Where level `index` stands on a rail `width` wide: the span between the margins, divided in
/// five.
pub open spec fn stop_at(width: u16, index: int) -> int {
    let left = rail_left(width);
    let right = saturating_minus(width as int, left + 2);
    left + saturating_minus(right, left) * index / 5
}

/// Where level `index` stands on a rail `width` wide.
pub fn stop(width: u16, index: usize) -> (x: u16)
    requires
        index <= 5,
    ensures
        x == stop_at(width, index as int),
{
    let left: u16 = if width >= 70 {
        5
    } else {
        2
    };
    let right = width.saturating_sub(left + 2);
    let span = right.saturating_sub(left) as u32;
    assert(span * (index as u32) <= 0xFFFF * 5) by (nonlinear_arith)
        requires
            span <= 0xFFFF,
            index <= 5,
    ;
    let offset = span * (index as u32) / 5;
    assert(offset <= span) by (nonlinear_arith)
        requires
            offset == span * (index as u32) / 5,
            index <= 5,
    ;
    (left as u32 + offset) as u16
}

/// The row of the rail's ticks: below the end labels where there is room.
pub open spec fn tick_row_at(height: u16) -> int {
    if height >= 9 {
        2
    } else {
        0
    }
}

/// The row of the rail's ticks for a block `height` rows tall.
pub fn tick_row(height: u16) -> (row: u16)
    ensures
        row == tick_row_at(height),
{
    if height >= 9 {
        2
    } else {
        0
    }
}

/// How far `a` is from `b`.
pub open spec fn distance(a: int, b: int) -> int {
    if a >= b {
        a - b
    } else {
        b - a
    }
}

/// The first level whose stop is nearest `x` on a rail `width` wide.
pub open spec fn nearest_stop_among(width: u16, x: int, k: int) -> int
    decreases k,
{
    if k <= 1 {
        0
    } else {
        let best = nearest_stop_among(width, x, k - 1);
        if distance(stop_at(width, k - 1), x) < distance(stop_at(width, best), x) {
            k - 1
        } else {
            best
        }
    }
}

/// How far apart two columns are.
fn gap(a: u16, b: u16) -> (d: u16)
    ensures
        d == distance(a as int, b as int),
{
    if a >= b {
        a - b
    } else {
        b - a
    }
}

/// The level whose stop is nearest `x`, the first of two as near.
pub fn nearest_stop(width: u16, x: u16) -> (level: usize)
    ensures
        level == nearest_stop_among(width, x as int, LEVELS as int),
        level < LEVELS,
{
    let mut best: usize = 0;
    let mut best_distance = gap(stop(width, 0), x);
    let mut k: usize = 1;
    while k < LEVELS
        invariant
            1 <= k <= LEVELS,
            best < k,
            best == nearest_stop_among(width, x as int, k as int),
            best_distance == distance(stop_at(width, best as int), x as int),
        decreases LEVELS - k,
    {
        let here = gap(stop(width, k), x);
        if here < best_distance {
            best = k;
            best_distance = here;
        }
        k = k + 1;
    }
    best
}

/// The level names a narrow rail shows, one letter each but the last.
pub const SHORT_NAMES: [&'static str; 6] = ["n", "l", "m", "h", "x", "max"];

/// Whether the rail is drawn in a block `width` wide and `height` tall: the last row is the keys.
pub open spec fn rail_shows(width: u16, height: u16) -> bool {
    width >= 18 && sat_sub(height, 1) >= 3
}

/// Whether the rail is drawn in a block `width` wide and `height` tall.
pub fn shows_rail(width: u16, height: u16) -> (shows: bool)
    ensures
        shows == rail_shows(width, height),
{
    width >= 18 && height.saturating_sub(1) >= 3
}

/// The column a label `length` cells long starts at, centred under the stop at `x`.
pub fn label_start(x: u16, length: u16) -> (start: u16)
    ensures
        start == sat_sub(x, length / 2),
{
    x.saturating_sub(length / 2)
}

/// The row the caption is written on: under the level names where there is room.
pub open spec fn detail_row_at(height: u16) -> int {
    if sat_sub(height, 1) >= 7 {
        tick_row_at(height) + 3
    } else {
        2
    }
}

/// The row the caption is written on in a block `height` tall.
pub fn detail_row(height: u16) -> (row: u16)
    ensures
        row == detail_row_at(height),
{
    if height.saturating_sub(1) >= 7 {
        tick_row(height) + 3
    } else {
        2
    }
}

/// The keys on the block's last row: the long form where it fits.
pub open spec fn rail_keys(width: u16) -> Seq<char> {
    if width >= 40 {
        " ←/→ adjust · Enter confirm · Esc cancel"@
    } else {
        " ←→ · Enter set · Esc cancel"@
    }
}

/// The keys on the block's last row.
pub fn keys_for(width: u16) -> (keys: &'static str)
    ensures
        keys@ == rail_keys(width),
{
    if width >= 40 {
        " ←/→ adjust · Enter confirm · Esc cancel"
    } else {
        " ←→ · Enter set · Esc cancel"
    }
}

/// The level a press at `at` lands on in a rail drawn in `bounds`: on the tick row or the name row
/// under it, inside the side borders, at the nearest stop; none elsewhere or on a rail too small
/// to draw.
pub open spec fn level_hit(bounds: Rect, at: Point) -> Option<int> {
    let width = sat_sub(bounds.width, 2);
    let row = bounds.y + 1 + tick_row_at(bounds.height);
    if width < 18 || bounds.height < 4 || at.y < row || at.y > row + 1 || at.x <= bounds.x
        || at.x >= sat_sub(bounds.right_edge(), 1) {
        None
    } else {
        Some(nearest_stop_among(width, at.x - bounds.x - 1, LEVELS as int))
    }
}

/// The level a press at `at` lands on in a rail drawn in `bounds`, by its place on the rail.
pub fn hit_level(bounds: Rect, at: Point) -> (level: Option<usize>)
    requires
        bounds.y + 4 <= u16::MAX,
    ensures
        level == match level_hit(bounds, at) {
            Some(l) => Some(l as usize),
            None => None::<usize>,
        },
{
    let width = bounds.width.saturating_sub(2);
    let row = bounds.y + 1 + tick_row(bounds.height);
    if width < 18 || bounds.height < 4 || at.y < row || at.y > row + 1 || at.x <= bounds.x
        || at.x >= bounds.right().saturating_sub(1) {
        return None;
    }
    let x = at.x - bounds.x - 1;
    Some(nearest_stop(width, x))
}

} // verus!

verus! {

/// The caption under the rail: the menu's own feedback while it has some; else the chosen level,
/// for this conversation; else that no allowed level matches.
pub open spec fn caption_of(feedback: Option<Seq<char>>, selected: Option<ReasoningEffort>) -> Seq<char> {
    match feedback {
        Some(text) => text,
        None => match selected {
            Some(level) => effort_name(level) + " · this conversation"@,
            None => "No matching allowed effort. Check model configuration."@,
        },
    }
}

/// The caption under the rail.
pub fn caption(feedback: Option<&str>, selected: Option<ReasoningEffort>) -> (text: String)
    ensures
        text@ == caption_of(
            match feedback {
                Some(f) => Some(f@),
                None => None,
            },
            selected,
        ),
{
    match feedback {
        Some(f) => string_of(chars_of(f).as_slice()),
        None => match selected {
            Some(level) => {
                let mut text = chars_of(level.as_str());
                let ghost name = text@;
                let tail = chars_of(" · this conversation");
                let mut i: usize = 0;
                while i < tail.len()
                    invariant
                        i <= tail@.len(),
                        text@ == name + tail@.take(i as int),
                    decreases tail@.len() - i,
                {
                    text.push(tail[i]);
                    i += 1;
                    assert(text@ =~= name + tail@.take(i as int));
                }
                assert(tail@.take(tail@.len() as int) =~= tail@);
                string_of(text.as_slice())
            },
            None => string_of(chars_of("No matching allowed effort. Check model configuration.").as_slice()),
        },
    }
}

/// The line that describes the chosen level, or why nothing is chosen.
pub open spec fn description_of(selected: Option<ReasoningEffort>) -> Seq<char> {
    match selected {
        Some(ReasoningEffort::Off) => "Answer without a reasoning phase."@,
        Some(ReasoningEffort::Low) => "A light pass for straightforward tasks."@,
        Some(ReasoningEffort::Medium) => "A balanced pass for everyday work."@,
        Some(ReasoningEffort::High) => "More room for difficult problems."@,
        Some(ReasoningEffort::Xhigh) => "A deeper pass for demanding tasks."@,
        Some(ReasoningEffort::Max) => "For the hardest tasks; may take longer and use more tokens."@,
        Some(ReasoningEffort::Default) => "Use the provider's default effort."@,
        None => "Unavailable levels cannot be selected."@,
    }
}

/// The line that describes the chosen level, or why nothing is chosen.
pub fn description(selected: Option<ReasoningEffort>) -> (text: &'static str)
    ensures
        text@ == description_of(selected),
{
    match selected {
        Some(ReasoningEffort::Off) => "Answer without a reasoning phase.",
        Some(ReasoningEffort::Low) => "A light pass for straightforward tasks.",
        Some(ReasoningEffort::Medium) => "A balanced pass for everyday work.",
        Some(ReasoningEffort::High) => "More room for difficult problems.",
        Some(ReasoningEffort::Xhigh) => "A deeper pass for demanding tasks.",
        Some(ReasoningEffort::Max) => "For the hardest tasks; may take longer and use more tokens.",
        Some(ReasoningEffort::Default) => "Use the provider's default effort.",
        None => "Unavailable levels cannot be selected.",
    }
}

/// The caption and description rows under the rail in a body `height` rows tall: the caption
/// while the detail row is above the key row, the description while the row below it is too.
pub open spec fn detail_lines_of(height: u16) -> (bool, bool) {
    let rows = sat_sub(height, 1);
    let detail = detail_row_at(height);
    (detail < sat_sub(rows, 1), detail + 1 < sat_sub(rows, 1))
}

/// Whether the caption and the description fit above the key row.
pub fn detail_lines(height: u16) -> (shown: (bool, bool))
    ensures
        shown == detail_lines_of(height),
{
    let rows = height.saturating_sub(1);
    let detail = detail_row(height);
    let last = rows.saturating_sub(1);
    (detail < last, detail < last && detail + 1 < last)
}

} // verus!

verus! {

/// The glyph on a level's stop: the moving marker on the chosen maximum, a raised mark on any
/// other chosen level, a plain tick elsewhere.
pub open spec fn stop_glyph_of(chosen: bool, level: ReasoningEffort, phase: u16) -> &'static str {
    if chosen && level == ReasoningEffort::Max {
        MARKERS[marker_index(phase)]
    } else if chosen {
        "▲"
    } else {
        "╷"
    }
}

/// The glyph on a level's stop.
pub fn stop_glyph(chosen: bool, level: ReasoningEffort, phase: u16) -> (glyph: &'static str)
    ensures
        glyph == stop_glyph_of(chosen, level, phase),
{
    if chosen && level == ReasoningEffort::Max {
        marker(phase)
    } else if chosen {
        "▲"
    } else {
        "╷"
    }
}

/// The name under level `index` (least first): one letter each but the last on a rail narrower
/// than 44 columns, the full name otherwise.
pub open spec fn level_name_of(width: u16, index: int, level: ReasoningEffort) -> Seq<char> {
    if width < 44 {
        SHORT_NAMES[index]@
    } else {
        effort_name(level)
    }
}

/// The name under level `index` (least first) on a rail `width` wide.
pub fn level_name(width: u16, index: usize, level: ReasoningEffort) -> (name: &'static str)
    requires
        index < LEVELS,
    ensures
        name@ == level_name_of(width, index as int, level),
{
    if width < 44 {
        let names = SHORT_NAMES;
        names[index]
    } else {
        level.as_str()
    }
}

/// The labels at the rail's two ends, with their columns: "Faster" over the first stop and
/// "More thought" ending over the last; only where the rail is drawn and its ticks sit below a
/// row for them.
pub open spec fn end_labels_of(width: u16, height: u16) -> Option<((int, Seq<char>), (int, Seq<char>))> {
    if rail_shows(width, height) && tick_row_at(height) > 0 {
        Some(((stop_at(width, 0), "Faster"@), (saturating_minus(stop_at(width, 5), 11), "More thought"@)))
    } else {
        None
    }
}

/// The labels at the rail's two ends, with their columns.
pub fn end_labels(width: u16, height: u16) -> (labels: Option<((u16, &'static str), (u16, &'static str))>)
    ensures
        match end_labels_of(width, height) {
            Some(((l, lt), (r, rt))) => labels matches Some(((x, a), (y, b))) && x == l && a@ == lt
                && y == r && b@ == rt,
            None => labels is None,
        },
{
    if shows_rail(width, height) && tick_row(height) > 0 {
        let left = stop(width, 0);
        let right = stop(width, 5);
        Some(((left, "Faster"), (right.saturating_sub(11), "More thought")))
    } else {
        None
    }
}

} // verus!

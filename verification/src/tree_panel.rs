//! The conversation tree's panel: its header lines, which entries or heads are on screen, the
//! viewport that tells the scroll bar where they are, and the keys line that fits.
use vstd::prelude::*;

use crate::clip::{one_line, single_line, truncate, truncated, Role};
use crate::filter_line::{budget_of, window, window_text};
use crate::surface::Viewport;
use crate::text::{chars_of, string_of};
use crate::tree_lines::{counted, push_counted, push_text};
use crate::tree_session::{ConversationTree, TreeEditor, TreeMode, TreePending};
use crate::unicode::{display_width, width_of};

verus! {

/// `a - b`, or zero where `b` is larger.
pub open spec fn less(a: int, b: int) -> int {
    if a > b { a - b } else { 0 }
}

/// The prompt open over the tree, as the panel reads it.
pub enum EditorFact {
    /// Renaming: the text typed so far and the caret in it.
    Rename { text: Seq<char>, caret: int },
    /// Asking whether to retire the head.
    Abandon { head: Seq<char> },
}

/// What the panel reads of the tree, as values.
pub struct TreeFacts {
    pub editor: Option<EditorFact>,
    pub unavailable: Option<Seq<char>>,
    pub notice: Option<Seq<char>>,
    pub pending: Option<TreePending>,
    pub mode: TreeMode,
    pub active: Seq<char>,
    pub heads: nat,
    pub count: nat,
    pub offset: nat,
    pub selected: Option<nat>,
}

/// The tree's facts.
pub open spec fn facts_of(tree: ConversationTree) -> TreeFacts {
    TreeFacts {
        editor: match tree.editor_view() {
            Some(TreeEditor::RenameHead { input, .. }) => Some(EditorFact::Rename { text: input.text_of(), caret: input.caret_of() }),
            Some(TreeEditor::ConfirmAbandon(head)) => Some(EditorFact::Abandon { head: head@ }),
            None => None,
        },
        unavailable: tree.unavailable_view(),
        notice: tree.notice_view(),
        pending: tree.pending_view(),
        mode: tree.mode_view(),
        active: match tree.active_head_view() {
            Some(h) => h,
            None => Seq::empty(),
        },
        heads: tree.heads_view().len(),
        count: tree.count_view() as nat,
        offset: match tree.mode_view() {
            TreeMode::Entries => tree.entry_offset_view() as nat,
            TreeMode::Heads => tree.head_offset_view() as nat,
        },
        selected: match tree.selected_index_view() {
            Some(i) => Some(i as nat),
            None => None,
        },
    }
}

/// The rows above the list: one for the header or the failure, one more for a notice and one
/// for an open prompt.
pub open spec fn static_rows_of(t: TreeFacts) -> int {
    if t.unavailable is Some {
        1
    } else {
        1 + (if t.notice is Some { 1int } else { 0 }) + (if t.editor is Some { 1int } else { 0 })
    }
}

/// The columns the rename prompt gives the name: what its label leaves, at least one.
pub open spec fn name_columns(inner: u16) -> u16 {
    if inner > 16 { (inner - 15) as u16 } else { 1 }
}

/// The prompt's line, clipped to `inner` columns.
pub open spec fn editor_line(e: EditorFact, inner: u16) -> (Seq<char>, Role) {
    match e {
        EditorFact::Rename { text, caret } => (
            truncated("Rename branch: "@ + window_text(text, caret, budget_of(name_columns(inner))), inner as nat),
            Role::Accent,
        ),
        EditorFact::Abandon { head } => (
            truncated("Retire branch "@ + one_line(head) + "? Enter confirms · Esc cancels"@, inner as nat),
            Role::Failure,
        ),
    }
}

/// How many entries or heads fit under the fixed rows, at least one.
pub open spec fn capacity_of(t: TreeFacts, height: u16) -> int {
    let left = less(less(height as int, 3), static_rows_of(t));
    if left < 1 { 1 } else { left }
}

/// The first entry or head on screen: the stored offset, moved just enough to show the
/// selection, and never past the last full page.
pub open spec fn offset_of(t: TreeFacts, capacity: int) -> int {
    offset_in(t.count as int, t.offset as int, match t.selected { Some(i) => Some(i as int), None => None }, capacity)
}

/// The first of `count` rows on screen, `capacity` at a time: the stored offset, moved just
/// enough to show the selection, and never past the last full page.
pub open spec fn offset_in(count: int, stored: int, selected: Option<int>, capacity: int) -> int {
    let moved = match selected {
        Some(i) => if i < stored { i } else if i >= stored + capacity { i + 1 - capacity } else { stored },
        None => stored,
    };
    let last = less(count, capacity);
    if moved < last { moved } else { last }
}

/// `n`, held at the largest `usize`.
pub open spec fn held(n: int) -> int {
    if n > usize::MAX { usize::MAX as int } else { n }
}

/// The window of `count` rows from the offset, `capacity` at a time.
fn list_window(count: usize, stored: usize, selected: Option<usize>, capacity: usize) -> (w: (usize, usize))
    requires
        capacity >= 1,
    ensures
        w.0 == offset_in(count as int, stored as int, match selected { Some(i) => Some(i as int), None => None }, capacity as int),
        w.1 == if w.0 + capacity < count { w.0 + capacity } else { count as int },
        w.0 <= count,
{
    let moved = match selected {
        Some(i) => if i < stored {
            i
        } else if i - stored >= capacity {
            i - capacity + 1
        } else {
            stored
        },
        None => stored,
    };
    let last = if count > capacity { count - capacity } else { 0 };
    let start = if moved < last { moved } else { last };
    let end = if count - start > capacity { start + capacity } else { count };
    (start, end)
}

/// The header line for a browsable tree.
pub open spec fn header_text(t: TreeFacts) -> Seq<char> {
    match t.mode {
        TreeMode::Entries => "Messages · active branch "@ + one_line(t.active) + " · "@ + counted(t.heads, "branch"@, "branches"@),
        TreeMode::Heads => "Branches · current branch "@ + one_line(t.active) + " · Enter selects"@,
    }
}

/// The empty list's line.
pub open spec fn empty_text(mode: TreeMode) -> Seq<char> {
    match mode {
        TreeMode::Entries => "No saved messages yet · b shows branches"@,
        TreeMode::Heads => "No named branches are available."@,
    }
}

/// The lines above the list, each clipped to `inner` columns.
pub open spec fn header_lines(tree: Option<TreeFacts>, inner: u16) -> Seq<(Seq<char>, Role)> {
    match tree {
        None => seq![("Conversation tree is closed."@, Role::Muted)],
        Some(t) => match t.unavailable {
            Some(why) => seq![(truncated(why, inner as nat), Role::Failure)],
            None => seq![(truncated(header_text(t), inner as nat), Role::Muted)] + match t.notice {
                Some(n) => seq![(truncated(n, inner as nat), Role::Failure)],
                None => Seq::empty(),
            } + match t.editor {
                Some(e) => seq![editor_line(e, inner)],
                None => Seq::empty(),
            } + if t.count == 0 {
                seq![(truncated(empty_text(t.mode), inner as nat), Role::Muted)]
            } else {
                Seq::empty()
            },
        },
    }
}

/// The keys line's candidates, longest first.
pub open spec fn footer_candidates(tree: Option<TreeFacts>) -> Seq<Seq<char>> {
    match tree {
        None => seq!["Esc close"@, "Esc"@],
        Some(t) => if t.pending == Some(TreePending::Navigation) {
            seq!["Saving history… · Esc/× closes; write continues"@, "Saving… · Esc/× closes"@, "Esc/× closes"@]
        } else if t.pending == Some(TreePending::Edit) {
            seq!["Saving tree details… · Esc/× closes; write continues"@, "Saving edit… · Esc/× closes"@, "Esc/× closes"@]
        } else if t.unavailable is Some {
            seq!["r refresh · Esc/× close"@, "r refresh · Esc/×"@, "Esc/×"@]
        } else if t.editor matches Some(EditorFact::Abandon { .. }) {
            seq!["Enter retire · Esc cancel · × close"@, "Enter retire · Esc/× close"@, "Esc/× close"@]
        } else if t.editor is Some {
            seq!["Enter save · Esc cancel · × close"@, "Enter save · Esc/× close"@, "Esc/× close"@]
        } else if t.notice is Some {
            seq!["↑↓ move · Enter retry · Esc/× close"@, "↵ retry · Esc/× close"@, "Esc/× close"@]
        } else {
            match t.mode {
                TreeMode::Entries => seq![
                    "↑↓ move · Enter rewind · f fold · b branches · l label · y copy · r refresh · Esc/× close"@,
                    "↑↓ · ↵ rewind · f fold · b branches · l label · Esc/× close"@,
                    "↵ rewind · b branches · Esc/× close"@,
                ],
                TreeMode::Heads => seq![
                    "↑↓ move · Enter select · n rename · x retire · y copy · b messages · r refresh · Esc/× close"@,
                    "↑↓ · ↵ select · n rename · x retire · b messages · Esc/× close"@,
                    "↵ select · b messages · Esc/× close"@,
                ],
            }
        },
    }
}

/// The first candidate at or after `k` that fits `inner` columns, else the last.
pub open spec fn first_fitting(candidates: Seq<Seq<char>>, inner: u16, k: int) -> Seq<char>
    decreases candidates.len() - k,
{
    if k >= candidates.len() - 1 || k < 0 {
        candidates.last()
    } else if display_width(candidates[k]) <= inner {
        candidates[k]
    } else {
        first_fitting(candidates, inner, k + 1)
    }
}

/// What the panel shows, in the tree's terms.
pub struct TreePanel {
    /// The lines above the list.
    pub header: Vec<(String, Role)>,
    /// The entries or heads on screen, from the first to before the second.
    pub window: (usize, usize),
    /// The scroll geometry of the whole list, its fixed rows counted.
    pub viewport: Viewport,
    /// The keys line that fits, clipped.
    pub footer: String,
}

/// The panel's window on the list.
pub open spec fn window_of(tree: Option<TreeFacts>, height: u16) -> (int, int) {
    match tree {
        Some(t) => if t.unavailable is None && t.count > 0 {
            let capacity = capacity_of(t, height);
            let offset = offset_of(t, capacity);
            (offset, if offset + capacity < t.count { offset + capacity } else { t.count as int })
        } else {
            (0, 0)
        },
        None => (0, 0),
    }
}

/// The panel's viewport: its fixed rows and the list counted, the rows it shows (at least one),
/// and how far it is scrolled, the fixed rows included.
pub open spec fn viewport_of(tree: Option<TreeFacts>, width: u16, height: u16) -> (int, int, int, int) {
    let inner = less(width as int, 2);
    let physical = less(height as int, 3);
    let header = header_lines(tree, inner as u16).len() as int;
    let (fixed, listed) = match tree {
        Some(t) => if t.unavailable is Some { (1int, 0int) } else { (header, t.count as int) },
        None => (1int, 0int),
    };
    let actual = held(fixed + listed);
    let shown = if actual < physical { actual } else { physical };
    (
        if actual > header { actual } else { header },
        inner,
        if shown < 1 { 1 } else { shown },
        held(fixed + window_of(tree, height).0),
    )
}

/// The tree's facts, if a tree is open.
pub open spec fn optional_facts(tree: Option<&ConversationTree>) -> Option<TreeFacts> {
    match tree {
        Some(t) => Some(facts_of(*t)),
        None => None,
    }
}

/// A line piece made of `text`.
fn line(text: &str, role: Role) -> (p: (String, Role))
    ensures
        p.0@ == text@,
        p.1 == role,
{
    (string_of(chars_of(text).as_slice()), role)
}

/// The pieces of a line, as values.
pub open spec fn lines_view(parts: Seq<(String, Role)>) -> Seq<(Seq<char>, Role)> {
    parts.map_values(|p: (String, Role)| (p.0@, p.1))
}

/// The keys line's candidates for the tree, longest first.
fn candidates(tree: Option<&ConversationTree>) -> (found: Vec<&'static str>)
    ensures
        found@.map_values(|c: &str| c@) == footer_candidates(optional_facts(tree)),
        found@.len() >= 2,
{
    let found: Vec<&'static str> = match tree {
        None => vec!["Esc close", "Esc"],
        Some(t) => {
            let pending = t.pending();
            if pending == Some(TreePending::Navigation) {
                vec!["Saving history… · Esc/× closes; write continues", "Saving… · Esc/× closes", "Esc/× closes"]
            } else if pending == Some(TreePending::Edit) {
                vec!["Saving tree details… · Esc/× closes; write continues", "Saving edit… · Esc/× closes", "Esc/× closes"]
            } else if t.unavailable().is_some() {
                vec!["r refresh · Esc/× close", "r refresh · Esc/×", "Esc/×"]
            } else if let Some(TreeEditor::ConfirmAbandon(_)) = t.editor() {
                vec!["Enter retire · Esc cancel · × close", "Enter retire · Esc/× close", "Esc/× close"]
            } else if t.editor().is_some() {
                vec!["Enter save · Esc cancel · × close", "Enter save · Esc/× close", "Esc/× close"]
            } else if t.notice().is_some() {
                vec!["↑↓ move · Enter retry · Esc/× close", "↵ retry · Esc/× close", "Esc/× close"]
            } else {
                match t.mode() {
                    TreeMode::Entries => vec![
                        "↑↓ move · Enter rewind · f fold · b branches · l label · y copy · r refresh · Esc/× close",
                        "↑↓ · ↵ rewind · f fold · b branches · l label · Esc/× close",
                        "↵ rewind · b branches · Esc/× close",
                    ],
                    TreeMode::Heads => vec![
                        "↑↓ move · Enter select · n rename · x retire · y copy · b messages · r refresh · Esc/× close",
                        "↑↓ · ↵ select · n rename · x retire · b messages · Esc/× close",
                        "↵ select · b messages · Esc/× close",
                    ],
                }
            }
        },
    };
    assert(found@.map_values(|c: &str| c@) =~= footer_candidates(optional_facts(tree)));
    found
}

/// The keys line that fits `inner` columns, clipped.
fn footer_text(tree: Option<&ConversationTree>, inner: u16) -> (footer: String)
    ensures
        footer@ == truncated(first_fitting(footer_candidates(optional_facts(tree)), inner, 0), inner as nat),
{
    let options = candidates(tree);
    let mut k: usize = 0;
    let ghost cv = options@.map_values(|c: &str| c@);
    let last = options.len() - 1;
    while k < last && width_of(chars_of(options[k]).as_slice()) > inner as usize
        invariant
            cv == options@.map_values(|c: &str| c@),
            options@.len() >= 2,
            last == options@.len() - 1,
            k <= last,
            first_fitting(cv, inner, 0) == first_fitting(cv, inner, k as int),
        decreases last - k,
    {
        k += 1;
    }
    let chosen = options[k];
    assert(chosen@ == first_fitting(cv, inner, k as int));
    truncate(chosen, inner)
}

/// The header text of a browsable tree.
fn header_of(t: &ConversationTree) -> (text: String)
    ensures
        text@ == header_text(facts_of(*t)),
{
    let mut text: Vec<char> = Vec::new();
    let active = single_line(t.active_head_name());
    match t.mode() {
        TreeMode::Entries => {
            push_text(&mut text, "Messages · active branch ");
            push_text(&mut text, active.as_str());
            push_text(&mut text, " · ");
            push_counted(&mut text, t.heads_count(), "branch", "branches");
        },
        TreeMode::Heads => {
            push_text(&mut text, "Branches · current branch ");
            push_text(&mut text, active.as_str());
            push_text(&mut text, " · Enter selects");
        },
    }
    assert(text@ =~= header_text(facts_of(*t)));
    string_of(text.as_slice())
}

/// The lines, fixed rows, listed rows and window of an open tree.
#[verifier::rlimit(40)]
fn open_panel(t: &ConversationTree, inner: u16, height: u16) -> (r: (Vec<(String, Role)>, usize, usize, usize, usize))
    ensures
        lines_view(r.0@) == header_lines(Some(facts_of(*t)), inner),
        (r.3 as int, r.4 as int) == window_of(Some(facts_of(*t)), height),
        r.1 as int == (if facts_of(*t).unavailable is Some { 1int } else { r.0@.len() as int }),
        r.1 <= 4,
        r.2 as int == (if facts_of(*t).unavailable is Some { 0int } else { facts_of(*t).count as int }),
{
    let ghost f = facts_of(*t);
    let mut header: Vec<(String, Role)> = Vec::new();
    match t.unavailable() {
        Some(why) => {
            header.push((truncate(why, inner), Role::Failure));
            assert(lines_view(header@) =~= header_lines(Some(f), inner));
            return (header, 1, 0, 0, 0);
        },
        None => {},
    }
    let text = header_of(t);
    header.push((truncate(text.as_str(), inner), Role::Muted));
    let notice = t.notice();
    match notice {
        Some(n) => {
            header.push((truncate(n, inner), Role::Failure));
        },
        None => {},
    }
    let mut static_rows: usize = if notice.is_some() { 2 } else { 1 };
    match t.editor() {
        Some(TreeEditor::RenameHead { input, .. }) => {
            let columns: u16 = if inner > 16 { inner - 15 } else { 1 };
            let (_, shown, _) = window(input, columns);
            let mut text: Vec<char> = Vec::new();
            push_text(&mut text, "Rename branch: ");
            let ghost prefix = text@;
            let mut i: usize = 0;
            while i < shown.len()
                invariant
                    i <= shown@.len(),
                    text@ == prefix + shown@.take(i as int),
                decreases shown@.len() - i,
            {
                text.push(shown[i]);
                i += 1;
                assert(text@ =~= prefix + shown@.take(i as int));
            }
            assert(shown@.take(shown@.len() as int) =~= shown@);
            let joined = string_of(text.as_slice());
            header.push((truncate(joined.as_str(), inner), Role::Accent));
            static_rows = static_rows + 1;
        },
        Some(TreeEditor::ConfirmAbandon(head)) => {
            let mut text: Vec<char> = Vec::new();
            push_text(&mut text, "Retire branch ");
            let named = single_line(head.as_str());
            push_text(&mut text, named.as_str());
            push_text(&mut text, "? Enter confirms · Esc cancels");
            let joined = string_of(text.as_slice());
            header.push((truncate(joined.as_str(), inner), Role::Failure));
            static_rows = static_rows + 1;
        },
        None => {},
    }
    let count = match t.mode() {
        TreeMode::Entries => t.entries_count(),
        TreeMode::Heads => t.heads_count(),
    };
    if count == 0 {
        let empty = match t.mode() {
            TreeMode::Entries => "No saved messages yet · b shows branches",
            TreeMode::Heads => "No named branches are available.",
        };
        header.push((truncate(empty, inner), Role::Muted));
        assert(lines_view(header@) =~= header_lines(Some(f), inner));
        let fixed = header.len();
        return (header, fixed, 0, 0, 0);
    }
    assert(lines_view(header@) =~= header_lines(Some(f), inner));
    let physical: usize = if height > 3 { (height - 3) as usize } else { 0 };
    let left = if physical > static_rows { physical - static_rows } else { 0 };
    let capacity = if left < 1 { 1 } else { left };
    let (start, end) = list_window(count, t.scroll_offset(), t.selected_index(), capacity);
    (header, static_rows, count, start, end)
}

/// What the conversation tree's panel shows in an area `width` by `height`, borders and keys
/// line included.
pub fn tree_panel(tree: Option<&ConversationTree>, width: u16, height: u16) -> (p: TreePanel)
    ensures
        lines_view(p.header@) == header_lines(optional_facts(tree), less(width as int, 2) as u16),
        (p.window.0 as int, p.window.1 as int) == window_of(optional_facts(tree), height),
        (p.viewport.content_rows as int, p.viewport.content_width as int, p.viewport.visible_rows as int, p.viewport.offset as int)
            == viewport_of(optional_facts(tree), width, height),
        p.footer@ == truncated(
            first_fitting(footer_candidates(optional_facts(tree)), less(width as int, 2) as u16, 0),
            less(width as int, 2) as nat,
        ),
{
    let inner: u16 = if width > 2 { width - 2 } else { 0 };
    let physical: usize = if height > 3 { (height - 3) as usize } else { 0 };
    let (header, fixed, listed, start, end) = match tree {
        None => {
            let mut header: Vec<(String, Role)> = Vec::new();
            header.push(line("Conversation tree is closed.", Role::Muted));
            assert(lines_view(header@) =~= header_lines(optional_facts(tree), inner));
            (header, 1, 0, 0, 0)
        },
        Some(t) => open_panel(t, inner, height),
    };
    let actual = fixed.saturating_add(listed);
    let shown = if actual < physical { actual } else { physical };
    let visible = if shown < 1 { 1 } else { shown };
    let viewport = Viewport {
        content_rows: if actual > header.len() { actual } else { header.len() },
        content_width: inner,
        visible_rows: visible as u16,
        offset: fixed.saturating_add(start),
    };
    let footer = footer_text(tree, inner);
    TreePanel { header, window: (start, end), viewport, footer }
}

} // verus!

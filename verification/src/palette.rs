//! The workspace's own command list.
//!
//! It belongs to the workspace rather than to a conversation: the user opens it from anywhere and
//! it floats over everything. Its filter is a [`TextInput`] like any other, so its editing grammar
//! is the composer's.
use vstd::prelude::*;

use crate::choice::{clamp_index, clamped, step_index, stepped};
use crate::conversation_picker::{
    listed_matches, picker_status, ConversationPicker, ConversationPickerStatus,
};
use crate::filter_line::{budget_of, column_offset, offset_at, window, window_lead, window_start, window_text};
use crate::input::{Caret, TextInput};
use crate::permissions::PermissionPanel;
use crate::surface::SurfaceId;
use crate::text::{
    chars_of, contains_exec, contains_text, copy_range, lowercase, lowercased, same_text,
    strip_leading, strip_leading_start, string_of, trim, trimmed,
};

verus! {

/// One thing the workspace can be asked to do.
#[derive(Clone, Copy, Debug, PartialEq, Eq, Structural)]
pub enum Command {
    /// Show the resolved provider, model and reasoning effort.
    Config,
    /// Find and resume an existing conversation.
    Resume,
    /// Start an empty conversation.
    New,
    /// Review grants, enable Session file changes, or revoke a permission.
    Permissions,
}

/// Every command, in the order the list shows them.
pub open spec fn all_commands() -> Seq<Command> {
    seq![Command::Config, Command::Resume, Command::New, Command::Permissions]
}

/// The name the list shows and the user types.
pub open spec fn command_name(command: Command) -> Seq<char> {
    match command {
        Command::Config => "/config"@,
        Command::Resume => "/resume"@,
        Command::New => "/new"@,
        Command::Permissions => "/permissions"@,
    }
}

/// What running a command does.
pub open spec fn command_summary(command: Command) -> Seq<char> {
    match command {
        Command::Config => "Provider, model, and reasoning effort"@,
        Command::Resume => "Find and resume a saved conversation"@,
        Command::New => "Start a new conversation"@,
        Command::Permissions => "Review and change Session or Project permissions"@,
    }
}

/// Other words that find a command.
pub open spec fn command_aliases(command: Command) -> Seq<Seq<char>> {
    match command {
        Command::Config => seq!["settings"@],
        Command::Resume => seq!["continue"@, "sessions"@, "session"@],
        Command::New => seq![],
        Command::Permissions => seq![],
    }
}

/// What a typed filter is matched as: trimmed, without its leading slashes, lowered.
pub open spec fn needle_of(typed: Seq<char>) -> Seq<char> {
    lowercased(strip_leading(trim(typed), '/'))
}

/// Whether `command` is found by the filter `typed`: an empty needle finds every command;
/// otherwise the name without its slash, or one of the aliases, must contain it.
pub open spec fn command_admits(command: Command, typed: Seq<char>) -> bool {
    let needle = needle_of(typed);
    ||| needle.len() == 0
    ||| contains_text(strip_leading(command_name(command), '/'), needle)
    ||| exists|i: int|
        0 <= i < command_aliases(command).len() && contains_text(
            #[trigger] command_aliases(command)[i],
            needle,
        )
}

/// The commands of `commands` that `typed` finds, in order.
pub open spec fn admitted_among(commands: Seq<Command>, typed: Seq<char>) -> Seq<Command>
    decreases commands.len(),
{
    if commands.len() == 0 {
        Seq::empty()
    } else {
        let earlier = admitted_among(commands.drop_last(), typed);
        if command_admits(commands.last(), typed) {
            earlier.push(commands.last())
        } else {
            earlier
        }
    }
}

/// Whether `name` names `command` exactly: its name without the slash, or one of its aliases.
pub open spec fn names_command(command: Command, name: Seq<char>) -> bool {
    name == strip_leading(command_name(command), '/') || command_aliases(command).contains(name)
}

/// The first of `commands` that `name` names.
pub open spec fn first_named(commands: Seq<Command>, name: Seq<char>) -> Option<Command>
    decreases commands.len(),
{
    if commands.len() == 0 {
        None
    } else if names_command(commands[0], name) {
        Some(commands[0])
    } else {
        first_named(commands.drop_first(), name)
    }
}

/// The command a whole `/name` asks for: the text, trimmed, must start with one slash followed by a
/// name or an alias, nothing else.
pub open spec fn slash_command(text: Seq<char>) -> Option<Command> {
    let t = trim(text);
    if t.len() > 0 && t[0] == '/' {
        first_named(all_commands(), t.drop_first())
    } else {
        None
    }
}

impl Command {
    /// Every command, in the order the list shows them.
    pub const ALL: [Command; 4] = [Command::Config, Command::Resume, Command::New, Command::Permissions];

    /// The command a typed `/name` asks for, by name or alias.
    pub fn from_slash(text: &str) -> (found: Option<Command>)
        ensures
            found == slash_command(text@),
    {
        let typed = chars_of(text);
        let t = trimmed(typed.as_slice());
        if t.len() == 0 || t[0] != '/' {
            return None;
        }
        let name = copy_range(t.as_slice(), 1, t.len());
        assert(name@ =~= t@.drop_first());
        let all = Command::ALL;
        assert(all@ =~= all_commands());
        assert(all_commands().skip(0) =~= all_commands());
        assert(slash_command(text@) == first_named(all_commands(), name@));
        let mut i: usize = 0;
        while i < 4
            invariant
                all@ == all_commands(),
                slash_command(text@) == first_named(all_commands(), name@),
                i <= 4,
                first_named(all_commands(), name@) == first_named(all_commands().skip(i as int), name@),
            decreases 4 - i,
        {
            let command = all[i];
            proof {
                assert(all_commands().skip(i as int)[0] == command);
                assert(all_commands().skip(i as int).drop_first() =~= all_commands().skip(i + 1));
            }
            if command.is_named(name.as_slice()) {
                return Some(command);
            }
            i = i + 1;
        }
        assert(all_commands().skip(4) =~= Seq::<Command>::empty());
        None
    }

    /// Whether `name` names this command exactly.
    fn is_named(self, name: &[char]) -> (named: bool)
        ensures
            named == names_command(self, name@),
    {
        let full = chars_of(self.name());
        let start = strip_leading_start(full.as_slice(), '/');
        let bare = copy_range(full.as_slice(), start, full.len());
        if same_text(bare.as_slice(), name) {
            return true;
        }
        let aliases = self.aliases();
        let mut i: usize = 0;
        while i < aliases.len()
            invariant
                aliases@.len() == command_aliases(self).len(),
                forall|k: int| 0 <= k < aliases@.len() ==> #[trigger] aliases@[k]@ == command_aliases(self)[k],
                name@ != strip_leading(command_name(self), '/'),
                i <= aliases@.len(),
                forall|k: int| 0 <= k < i ==> command_aliases(self)[k] != name@,
            decreases aliases@.len() - i,
        {
            let alias = chars_of(aliases[i]);
            if same_text(alias.as_slice(), name) {
                return true;
            }
            i = i + 1;
        }
        false
    }

    /// The name the list shows and the user types.
    pub fn name(self) -> (name: &'static str)
        ensures
            name@ == command_name(self),
    {
        match self {
            Command::Config => "/config",
            Command::Resume => "/resume",
            Command::New => "/new",
            Command::Permissions => "/permissions",
        }
    }

    /// What running the command does, shown beside the name.
    pub fn summary(self) -> (summary: &'static str)
        ensures
            summary@ == command_summary(self),
    {
        match self {
            Command::Config => "Provider, model, and reasoning effort",
            Command::Resume => "Find and resume a saved conversation",
            Command::New => "Start a new conversation",
            Command::Permissions => "Review and change Session or Project permissions",
        }
    }

    /// Other words that find this command: matching keys, never rows of their own.
    pub fn aliases(self) -> (words: &'static [&'static str])
        ensures
            words@.len() == command_aliases(self).len(),
            forall|k: int| 0 <= k < words@.len() ==> #[trigger] words@[k]@ == command_aliases(self)[k],
    {
        match self {
            Command::Config => &["settings"],
            Command::Resume => &["continue", "sessions", "session"],
            Command::New => &[],
            Command::Permissions => &[],
        }
    }

    /// Whether the filter `needle` finds this command.
    pub fn matches(self, needle: &str) -> (found: bool)
        ensures
            found == command_admits(self, needle@),
    {
        let typed = chars_of(needle);
        let t = trimmed(typed.as_slice());
        let start = strip_leading_start(t.as_slice(), '/');
        let bare = copy_range(t.as_slice(), start, t.len());
        let bare_text = string_of(bare.as_slice());
        let lowered = lowercase(bare_text.as_str());
        let wanted = chars_of(lowered.as_str());
        if wanted.len() == 0 {
            return true;
        }
        let full = chars_of(self.name());
        let name_start = strip_leading_start(full.as_slice(), '/');
        let name = copy_range(full.as_slice(), name_start, full.len());
        if contains_exec(name.as_slice(), wanted.as_slice()) {
            return true;
        }
        let aliases = self.aliases();
        let mut i: usize = 0;
        while i < aliases.len()
            invariant
                wanted@ == needle_of(needle@),
                aliases@.len() == command_aliases(self).len(),
                forall|k: int| 0 <= k < aliases@.len() ==> #[trigger] aliases@[k]@ == command_aliases(self)[k],
                i <= aliases@.len(),
                forall|k: int| 0 <= k < i ==> !contains_text(#[trigger] command_aliases(self)[k], wanted@),
            decreases aliases@.len() - i,
        {
            let alias = chars_of(aliases[i]);
            if contains_exec(alias.as_slice(), wanted.as_slice()) {
                return true;
            }
            i = i + 1;
        }
        false
    }
}

/// What the list is showing: its commands, or a page one of them opened in place.
#[derive(Debug)]
pub enum PalettePage {
    Commands,
    Conversations(ConversationPicker),
    Permissions(PermissionPanel),
}

/// The command list while it is open.
#[derive(Debug)]
pub struct CommandPalette {
    page: PalettePage,
    filter: TextInput,
    chosen: usize,
    return_focus: SurfaceId,
}

/// The commands a palette admits, in list order: none while a page is open.
pub open spec fn palette_matches(palette: CommandPalette) -> Seq<Command> {
    if palette.page_of() is Commands {
        admitted_among(all_commands(), palette.filter_of().text_of())
    } else {
        Seq::empty()
    }
}

/// How many rows a palette lists: the conversations its filter admits on that page, otherwise
/// the commands.
pub open spec fn palette_count(palette: CommandPalette) -> int {
    match palette.page_of() {
        PalettePage::Conversations(picker) => listed_matches(
            picker,
            palette.filter_of().text_of(),
        ).len() as int,
        _ => palette_matches(palette).len() as int,
    }
}

impl CommandPalette {
    /// What the list is showing.
    pub closed spec fn page_of(self) -> PalettePage {
        self.page
    }

    /// The filter's state.
    pub closed spec fn filter_of(self) -> TextInput {
        self.filter
    }

    /// The chosen row's index among what is listed.
    pub closed spec fn chosen_of(self) -> int {
        self.chosen as int
    }

    /// Where focus goes when the list closes.
    pub closed spec fn focus_of(self) -> SurfaceId {
        self.return_focus
    }

    /// An empty filter with the first match chosen, remembering where focus came from.
    pub fn opened_from(return_focus: SurfaceId) -> (palette: Self)
        ensures
            palette.page_of() is Commands,
            palette.filter_of().text_of().len() == 0,
            palette.filter_of().caret_of() == 0,
            palette.filter_of().anchor_of() is None,
            palette.chosen_of() == 0,
            palette.focus_of() == return_focus,
    {
        CommandPalette { page: PalettePage::Commands, filter: TextInput::new(), chosen: 0, return_focus }
    }

    /// Where focus goes when the list closes.
    pub fn return_focus(&self) -> (focus: SurfaceId)
        ensures
            focus == self.focus_of(),
    {
        self.return_focus
    }

    /// What the list is showing.
    pub fn page(&self) -> (page: &PalettePage)
        ensures
            *page == self.page_of(),
    {
        &self.page
    }

    /// Shows `page` in place of what the list showed.
    pub fn show(&mut self, page: PalettePage)
        ensures
            final(self).page_of() == page,
            final(self).filter_of() == old(self).filter_of(),
            final(self).chosen_of() == old(self).chosen_of(),
            final(self).focus_of() == old(self).focus_of(),
    {
        self.page = page;
    }

    /// The filter the user is typing into.
    pub fn filter(&self) -> (filter: &TextInput)
        ensures
            *filter == self.filter_of(),
    {
        &self.filter
    }

    /// One horizontal window of the filter and its caret, `width` columns wide, a column being
    /// kept for the caret.
    pub fn filter_view(&self, width: u16) -> (view: (String, Caret))
        ensures
            view.0@ == window_text(self.filter_of().text_of(), self.filter_of().caret_of(), budget_of(width)),
            view.1.row == 0,
            view.1.column == window_lead(self.filter_of().text_of(), self.filter_of().caret_of(), budget_of(width)),
    {
        let (_, visible, caret) = window(&self.filter, width);
        (string_of(visible.as_slice()), caret)
    }

    /// Puts the filter's caret where a click at `column` of that window lands; reports whether
    /// anything visible changed.
    pub fn click_filter(&mut self, width: u16, column: u16) -> (changed: bool)
        ensures
            final(self).page_of() == old(self).page_of(),
            final(self).chosen_of() == old(self).chosen_of(),
            final(self).focus_of() == old(self).focus_of(),
            final(self).filter_of().text_of() == old(self).filter_of().text_of(),
            final(self).filter_of().caret_of() == column_offset(
                old(self).filter_of().text_of(),
                old(self).filter_of().caret_of(),
                budget_of(width),
                column as int,
            ),
            final(self).filter_of().anchor_of() is None,
            changed == (final(self).filter_of().caret_of() != old(self).filter_of().caret_of()
                || old(self).filter_of().anchor_of() is Some),
    {
        let offset = offset_at(&self.filter, width, column);
        self.filter.place_caret(offset)
    }

    /// Drags the filter's caret to where `column` of that window lands.
    pub fn drag_filter(&mut self, width: u16, column: u16)
        ensures
            final(self).page_of() == old(self).page_of(),
            final(self).chosen_of() == old(self).chosen_of(),
            final(self).focus_of() == old(self).focus_of(),
            final(self).filter_of().text_of() == old(self).filter_of().text_of(),
            final(self).filter_of().caret_of() == column_offset(
                old(self).filter_of().text_of(),
                old(self).filter_of().caret_of(),
                budget_of(width),
                column as int,
            ),
            final(self).filter_of().anchor_of() == Some(
                match old(self).filter_of().anchor_of() {
                    Some(a) => a,
                    None => old(self).filter_of().caret_of(),
                },
            ),
    {
        let offset = offset_at(&self.filter, width, column);
        self.filter.drag_to_offset(offset);
    }

    /// The text offsets the window shows.
    pub fn filter_range(&self, width: u16) -> (range: std::ops::Range<usize>)
        ensures
            range.start == window_start(self.filter_of().text_of(), self.filter_of().caret_of(), budget_of(width)),
            range.end == range.start + window_text(
                self.filter_of().text_of(),
                self.filter_of().caret_of(),
                budget_of(width),
            ).len(),
    {
        let (start, visible, _) = window(&self.filter, width);
        start..start + visible.len()
    }

    /// The conversations page, while it is shown.
    pub fn conversations(&self) -> (picker: Option<&ConversationPicker>)
        ensures
            match self.page_of() {
                PalettePage::Conversations(p) => picker == Some(&p),
                _ => picker is None,
            },
    {
        match &self.page {
            PalettePage::Conversations(page) => Some(page),
            _ => None,
        }
    }

    /// The conversations page, for changing, while it is shown.
    pub fn conversations_mut(&mut self) -> (picker: Option<&mut ConversationPicker>)
        ensures
            final(self).filter_of() == old(self).filter_of(),
            final(self).chosen_of() == old(self).chosen_of(),
            final(self).focus_of() == old(self).focus_of(),
            match old(self).page_of() {
                PalettePage::Conversations(p) => picker matches Some(r) && *r == p
                    && final(self).page_of() == PalettePage::Conversations(*final(r)),
                _ => picker is None && final(self).page_of() == old(self).page_of(),
            },
    {
        match &mut self.page {
            PalettePage::Conversations(page) => Some(page),
            _ => None,
        }
    }

    /// The permissions page, while it is shown.
    pub fn permissions(&self) -> (panel: Option<&PermissionPanel>)
        ensures
            match self.page_of() {
                PalettePage::Permissions(p) => panel == Some(&p),
                _ => panel is None,
            },
    {
        match &self.page {
            PalettePage::Permissions(page) => Some(page),
            _ => None,
        }
    }

    /// The permissions page, for changing, while it is shown.
    pub fn permissions_mut(&mut self) -> (panel: Option<&mut PermissionPanel>)
        ensures
            final(self).filter_of() == old(self).filter_of(),
            final(self).chosen_of() == old(self).chosen_of(),
            final(self).focus_of() == old(self).focus_of(),
            match old(self).page_of() {
                PalettePage::Permissions(p) => panel matches Some(r) && *r == p
                    && final(self).page_of() == PalettePage::Permissions(*final(r)),
                _ => panel is None && final(self).page_of() == old(self).page_of(),
            },
    {
        match &mut self.page {
            PalettePage::Permissions(page) => Some(page),
            _ => None,
        }
    }

    /// The filter, for editing.
    pub fn filter_mut(&mut self) -> (filter: &mut TextInput)
        ensures
            *filter == old(self).filter_of(),
            final(self).filter_of() == *final(filter),
            final(self).page_of() == old(self).page_of(),
            final(self).chosen_of() == old(self).chosen_of(),
            final(self).focus_of() == old(self).focus_of(),
    {
        &mut self.filter
    }

    /// Commands the current filter admits, in list order; none while a page is open.
    pub fn matches(&self) -> (found: Vec<Command>)
        ensures
            found@ == palette_matches(*self),
    {
        let mut found: Vec<Command> = Vec::new();
        match &self.page {
            PalettePage::Commands => {},
            _ => {
                return found;
            },
        }
        let needle = self.filter.text();
        let all = Command::ALL;
        assert(all@ =~= all_commands());
        let mut i: usize = 0;
        assert(all_commands().take(0) =~= Seq::<Command>::empty());
        while i < 4
            invariant
                all@ == all_commands(),
                needle@ == self.filter_of().text_of(),
                i <= 4,
                found@ == admitted_among(all_commands().take(i as int), needle@),
            decreases 4 - i,
        {
            let command = all[i];
            proof {
                assert(all_commands().take(i + 1).drop_last() =~= all_commands().take(i as int));
                assert(all_commands().take(i + 1).last() == command);
            }
            if command.matches(needle.as_str()) {
                found.push(command);
            }
            i = i + 1;
        }
        assert(all_commands().take(4) =~= all_commands());
        found
    }

    /// Which match is chosen, or nothing when the filter admits none.
    pub fn chosen(&self) -> (command: Option<Command>)
        ensures
            command == if 0 <= self.chosen_of() < palette_matches(*self).len() {
                Some(palette_matches(*self)[self.chosen_of()])
            } else {
                None
            },
    {
        let found = self.matches();
        if self.chosen < found.len() {
            Some(found[self.chosen])
        } else {
            None
        }
    }

    /// Index of the chosen row among the matches, for rendering the marker.
    pub fn chosen_index(&self) -> (index: usize)
        ensures
            index == self.chosen_of(),
    {
        self.chosen
    }

    /// Moves the choice by one, stopping at the ends rather than wrapping; the permissions page
    /// moves its own, and nothing moves while a conversation opens. Reports whether it moved.
    pub fn step(&mut self, forward: bool) -> (moved: bool)
        ensures
            final(self).filter_of() == old(self).filter_of(),
            final(self).focus_of() == old(self).focus_of(),
            match old(self).page_of() {
                PalettePage::Permissions(p) => final(self).page_of() matches PalettePage::Permissions(q)
                    && q.rows == p.rows && q.chosen == step_index(p.chosen as int, p.rows as int, forward)
                    && moved == (q.chosen != p.chosen) && final(self).chosen_of() == old(self).chosen_of(),
                PalettePage::Conversations(c) => final(self).page_of() == old(self).page_of() && if picker_status(c) is Opening {
                    !moved && final(self).chosen_of() == old(self).chosen_of()
                } else {
                    final(self).chosen_of() == step_index(old(self).chosen_of(), palette_count(*old(self)), forward)
                        && moved == (final(self).chosen_of() != old(self).chosen_of())
                },
                PalettePage::Commands => final(self).page_of() == old(self).page_of()
                    && final(self).chosen_of() == step_index(old(self).chosen_of(), palette_count(*old(self)), forward)
                    && moved == (final(self).chosen_of() != old(self).chosen_of()),
            },
    {
        if let PalettePage::Permissions(panel) = &mut self.page {
            return panel.step(forward);
        }
        if let PalettePage::Conversations(picker) = &self.page {
            match picker.status() {
                ConversationPickerStatus::Opening => {
                    return false;
                },
                _ => {},
            }
        }
        let count = self.match_count();
        let next = stepped(self.chosen, count, forward);
        if next == self.chosen {
            return false;
        }
        self.chosen = next;
        true
    }

    /// Brings the choice back among the rows after the filter changed.
    pub fn reclamp(&mut self)
        ensures
            final(self).page_of() == old(self).page_of(),
            final(self).filter_of() == old(self).filter_of(),
            final(self).focus_of() == old(self).focus_of(),
            final(self).chosen_of() == clamp_index(old(self).chosen_of(), palette_count(*old(self))),
    {
        let count = self.match_count();
        self.chosen = clamped(self.chosen, count);
    }

    /// How many rows are listed: the conversations the filter admits on that page, otherwise the
    /// commands.
    pub fn match_count(&self) -> (count: usize)
        ensures
            count == palette_count(*self),
    {
        match &self.page {
            PalettePage::Conversations(picker) => {
                let text = self.filter.text();
                picker.matching(text.as_str()).len()
            },
            _ => self.matches().len(),
        }
    }
}

} // verus!

verus! {

/// The commands a filter finds among `commands` are exactly those of `commands` it admits, each
/// as often as it occurs there (so at most once from a list without repeats), in the list's own
/// order.
pub proof fn law_the_palette_lists_what_the_filter_finds(commands: Seq<Command>, typed: Seq<char>)
    ensures
        forall|c: Command|
            #[trigger] admitted_among(commands, typed).contains(c) <==> (commands.contains(c)
                && command_admits(c, typed)),
        admitted_among(commands, typed).len() <= commands.len(),
        commands.no_duplicates() ==> admitted_among(commands, typed).no_duplicates(),
    decreases commands.len(),
{
    if commands.len() > 0 {
        let rest = commands.drop_last();
        law_the_palette_lists_what_the_filter_finds(rest, typed);
        let found = admitted_among(commands, typed);
        let earlier = admitted_among(rest, typed);
        assert forall|c: Command| #[trigger] found.contains(c) <==> (commands.contains(c)
            && command_admits(c, typed)) by {
            if commands.contains(c) && command_admits(c, typed) {
                let k = choose|k: int| 0 <= k < commands.len() && commands[k] == c;
                if k < commands.len() - 1 {
                    assert(rest[k] == c);
                    assert(rest.contains(c));
                    assert(earlier.contains(c));
                    let m = choose|m: int| 0 <= m < earlier.len() && earlier[m] == c;
                    if command_admits(commands.last(), typed) {
                        assert(found[m] == c);
                    }
                } else {
                    assert(found[found.len() - 1] == c);
                }
            }
            if found.contains(c) {
                let m = choose|m: int| 0 <= m < found.len() && found[m] == c;
                if command_admits(commands.last(), typed) && m == found.len() - 1 {
                    assert(commands[commands.len() - 1] == c);
                } else {
                    assert(earlier[m] == c);
                    assert(earlier.contains(c));
                    let k = choose|k: int| 0 <= k < rest.len() && rest[k] == c;
                    assert(commands[k] == c);
                }
            }
        };
        if commands.no_duplicates() {
            assert(rest.no_duplicates()) by {
                assert forall|i: int, j: int| 0 <= i < rest.len() && 0 <= j < rest.len() && i != j implies rest[i]
                    != rest[j] by {
                    assert(rest[i] == commands[i] && rest[j] == commands[j]);
                };
            };
            if command_admits(commands.last(), typed) {
                assert(!rest.contains(commands.last())) by {
                    if rest.contains(commands.last()) {
                        let k = choose|k: int| 0 <= k < rest.len() && rest[k] == commands.last();
                        assert(commands[k] == commands[commands.len() - 1]);
                    }
                };
                assert(!earlier.contains(commands.last()));
                assert forall|i: int, j: int| 0 <= i < found.len() && 0 <= j < found.len() && i != j implies found[i]
                    != found[j] by {
                    if i == found.len() - 1 {
                        assert(earlier.contains(found[j]));
                    } else if j == found.len() - 1 {
                        assert(earlier.contains(found[i]));
                    } else {
                        assert(found[i] == earlier[i] && found[j] == earlier[j]);
                    }
                };
            }
        }
    }
}

} // verus!

verus! {

/// A filter finds a command when what was typed, trimmed, without its slashes and lowered,
/// occurs anywhere in the command's name without its slash or in one of its aliases: in the
/// middle as well as at the start ("fig" finds `/config`). An empty filter finds every command,
/// and a command is found in no other way.
pub proof fn law_a_filter_finds_a_command_by_any_part_of_its_name(command: Command, typed: Seq<char>, at: int)
    ensures
        ({
            let needle = needle_of(typed);
            let name = strip_leading(command_name(command), '/');
            (0 <= at && at + needle.len() <= name.len() && name.subrange(at, at + needle.len()) == needle)
                ==> command_admits(command, typed)
        }),
        forall|k: int|
            0 <= k < command_aliases(command).len() && 0 <= at && at + needle_of(typed).len()
                <= (#[trigger] command_aliases(command)[k]).len() && command_aliases(command)[k].subrange(
                at,
                at + needle_of(typed).len(),
            ) == needle_of(typed) ==> command_admits(command, typed),
        needle_of(typed).len() == 0 ==> command_admits(command, typed),
        command_admits(command, typed) ==> ({
            let needle = needle_of(typed);
            ||| needle.len() == 0
            ||| exists|i: int|
                0 <= i && i + needle.len() <= strip_leading(command_name(command), '/').len()
                    && #[trigger] strip_leading(command_name(command), '/').subrange(i, i + needle.len()) == needle
            ||| exists|k: int, i: int|
                0 <= k < command_aliases(command).len() && 0 <= i && i + needle.len()
                    <= command_aliases(command)[k].len() && #[trigger] command_aliases(command)[k].subrange(
                    i,
                    i + needle.len(),
                ) == needle
        }),
{
    let needle = needle_of(typed);
    let name = strip_leading(command_name(command), '/');
    if 0 <= at && at + needle.len() <= name.len() && name.subrange(at, at + needle.len()) == needle {
        assert(crate::text::occurs_at(name, needle, at));
    }
    assert forall|k: int|
        0 <= k < command_aliases(command).len() && 0 <= at && at + needle.len()
            <= (#[trigger] command_aliases(command)[k]).len() && command_aliases(command)[k].subrange(
            at,
            at + needle.len(),
        ) == needle implies command_admits(command, typed) by {
        assert(crate::text::occurs_at(command_aliases(command)[k], needle, at));
    };
    if command_admits(command, typed) && needle.len() > 0 {
        if contains_text(name, needle) {
            let i = choose|i: int| crate::text::occurs_at(name, needle, i);
            assert(name.subrange(i, i + needle.len()) == needle);
        } else {
            let k = choose|k: int|
                0 <= k < command_aliases(command).len() && contains_text(#[trigger] command_aliases(command)[k], needle);
            let i = choose|i: int| crate::text::occurs_at(command_aliases(command)[k], needle, i);
            assert(command_aliases(command)[k].subrange(i, i + needle.len()) == needle);
        }
    }
}

} // verus!

//! The workspace's own input, pulled from the top edge.
//!
//! It addresses the workspace rather than a conversation, and holds pages, never commands: a
//! `/name` is typed where its conversation is. Its filter is a [`TextInput`] like any other.
use vstd::prelude::*;

use crate::choice::{clamp_index, clamped, step_index, stepped};
use crate::configuration::ConfigurationSummary;
use crate::filter_line::{budget_of, column_offset, offset_at, window, window_lead, window_start, window_text};
use crate::input::{Caret, TextInput};
use crate::permissions::PermissionPanel;
use crate::surface::SurfaceId;
use crate::text::{chars_of, contains_exec, contains_text, lowercase, lowercased, string_of, trim, trimmed};

verus! {

/// One view inside the Drawer.
#[derive(Clone, Copy, Debug, PartialEq, Eq, Structural)]
pub enum Page {
    /// The provider, model and reasoning effort this process resolved.
    Configuration,
    /// Session and Project grants: review, enable, revoke.
    Permissions,
}

/// Every page, in the order the list shows them.
pub open spec fn all_pages() -> Seq<Page> {
    seq![Page::Configuration, Page::Permissions]
}

/// The name the list shows and the title carries.
pub open spec fn page_name(page: Page) -> Seq<char> {
    match page {
        Page::Configuration => "Configuration"@,
        Page::Permissions => "Permissions"@,
    }
}

/// What a page holds, shown beside the name.
pub open spec fn page_summary(page: Page) -> Seq<char> {
    match page {
        Page::Configuration => "Provider, model, and reasoning effort"@,
        Page::Permissions => "Grants and trust for this Project"@,
    }
}

/// Whether the filter `typed` finds `page`: its trimmed, lowered text is empty or occurs in the
/// lowered name. A slash is a character like any other.
pub open spec fn page_admits(page: Page, typed: Seq<char>) -> bool {
    let needle = lowercased(trim(typed));
    needle.len() == 0 || contains_text(lowercased(page_name(page)), needle)
}

/// The pages of `pages` that `typed` finds, in order.
pub open spec fn admitted_pages(pages: Seq<Page>, typed: Seq<char>) -> Seq<Page>
    decreases pages.len(),
{
    if pages.len() == 0 {
        Seq::empty()
    } else {
        let earlier = admitted_pages(pages.drop_last(), typed);
        if page_admits(pages.last(), typed) {
            earlier.push(pages.last())
        } else {
            earlier
        }
    }
}

impl Page {
    /// Every page, in the order the list shows them.
    pub const ALL: [Page; 2] = [Page::Configuration, Page::Permissions];

    /// The name the list shows and the title carries.
    pub fn name(self) -> (name: &'static str)
        ensures
            name@ == page_name(self),
    {
        match self {
            Page::Configuration => "Configuration",
            Page::Permissions => "Permissions",
        }
    }

    /// What the page holds, shown beside the name.
    pub fn summary(self) -> (summary: &'static str)
        ensures
            summary@ == page_summary(self),
    {
        match self {
            Page::Configuration => "Provider, model, and reasoning effort",
            Page::Permissions => "Grants and trust for this Project",
        }
    }

    /// Whether the filter `needle` finds this page.
    pub fn matches(self, needle: &str) -> (found: bool)
        ensures
            found == page_admits(self, needle@),
    {
        let typed = chars_of(needle);
        let t = trimmed(typed.as_slice());
        let t_text = string_of(t.as_slice());
        let lowered = lowercase(t_text.as_str());
        let wanted = chars_of(lowered.as_str());
        if wanted.len() == 0 {
            return true;
        }
        let name = lowercase(self.name());
        let name_chars = chars_of(name.as_str());
        contains_exec(name_chars.as_slice(), wanted.as_slice())
    }
}

/// What the Drawer is showing: its list of pages, or one page opened in place.
#[derive(Debug, PartialEq, Eq)]
pub enum Shown {
    Pages,
    Configuration(ConfigurationSummary),
    Permissions(PermissionPanel),
}

/// The Drawer while it is open.
#[derive(Debug)]
pub struct Drawer {
    shown: Shown,
    filter: TextInput,
    chosen: usize,
    return_focus: SurfaceId,
}

/// The pages a Drawer lists: those its filter finds, none while a page is open.
pub open spec fn drawer_pages(drawer: Drawer) -> Seq<Page> {
    if drawer.shown_of() is Pages {
        admitted_pages(all_pages(), drawer.filter_of().text_of())
    } else {
        Seq::empty()
    }
}

/// Which page is open, if one is.
pub open spec fn open_page(shown: Shown) -> Option<Page> {
    match shown {
        Shown::Pages => None,
        Shown::Configuration(_) => Some(Page::Configuration),
        Shown::Permissions(_) => Some(Page::Permissions),
    }
}

impl Drawer {
    /// What the Drawer shows.
    pub closed spec fn shown_of(self) -> Shown {
        self.shown
    }

    /// The list's filter.
    pub closed spec fn filter_of(self) -> TextInput {
        self.filter
    }

    /// The chosen row's index among the listed pages.
    pub closed spec fn chosen_of(self) -> int {
        self.chosen as int
    }

    /// Where focus goes when the Drawer closes.
    pub closed spec fn focus_of(self) -> SurfaceId {
        self.return_focus
    }

    /// The page list with an empty filter and the first page chosen, remembering where focus
    /// came from.
    pub fn opened_from(return_focus: SurfaceId) -> (drawer: Self)
        ensures
            drawer.shown_of() is Pages,
            drawer.filter_of().text_of().len() == 0,
            drawer.filter_of().caret_of() == 0,
            drawer.filter_of().anchor_of() is None,
            drawer.chosen_of() == 0,
            drawer.focus_of() == return_focus,
    {
        Drawer { shown: Shown::Pages, filter: TextInput::new(), chosen: 0, return_focus }
    }

    /// Where focus goes when the Drawer closes.
    pub fn return_focus(&self) -> (focus: SurfaceId)
        ensures
            focus == self.focus_of(),
    {
        self.return_focus
    }

    /// Which page is open, or nothing while the list shows.
    pub fn page(&self) -> (page: Option<Page>)
        ensures
            page == open_page(self.shown_of()),
    {
        match &self.shown {
            Shown::Pages => None,
            Shown::Configuration(_) => Some(Page::Configuration),
            Shown::Permissions(_) => Some(Page::Permissions),
        }
    }

    /// Shows `shown` in place of what the Drawer showed.
    pub fn show(&mut self, shown: Shown)
        ensures
            final(self).shown_of() == shown,
            final(self).filter_of() == old(self).filter_of(),
            final(self).chosen_of() == old(self).chosen_of(),
            final(self).focus_of() == old(self).focus_of(),
    {
        self.shown = shown;
    }

    /// The list's query.
    pub fn filter(&self) -> (filter: &TextInput)
        ensures
            *filter == self.filter_of(),
    {
        &self.filter
    }

    /// Whether what is shown is typed into: the list is, the pages are navigated.
    pub fn takes_text(&self) -> (typed: bool)
        ensures
            typed == (self.shown_of() is Pages),
    {
        match &self.shown {
            Shown::Pages => true,
            _ => false,
        }
    }

    /// The query, for editing, while the list shows; a page hands back nothing, so no keystroke
    /// edits a filter the screen does not show.
    pub fn filter_mut(&mut self) -> (filter: Option<&mut TextInput>)
        ensures
            final(self).shown_of() == old(self).shown_of(),
            final(self).chosen_of() == old(self).chosen_of(),
            final(self).focus_of() == old(self).focus_of(),
            old(self).shown_of() is Pages ==> (filter matches Some(f) && *f == old(self).filter_of()
                && final(self).filter_of() == *final(f)),
            !(old(self).shown_of() is Pages) ==> filter is None && final(self).filter_of()
                == old(self).filter_of(),
    {
        match &self.shown {
            Shown::Pages => Some(&mut self.filter),
            _ => None,
        }
    }

    /// One horizontal window of the filter and its caret, `width` columns wide, a column being
    /// kept for the caret.
    pub fn filter_view(&self, width: u16) -> (view: (String, Caret))
        ensures
            view.0@ == window_text(self.filter_of().text_of(), self.filter_of().caret_of(), budget_of(width)),
            view.1.row == 0,
            view.1.column == window_lead(self.filter_of().text_of(), self.filter_of().caret_of(), budget_of(width)),
    {
        let (_, visible, caret) = window(&self.filter, width);
        (string_of(visible.as_slice()), caret)
    }

    /// Puts the filter's caret where a click at `column` of that window lands, while the list
    /// shows; reports whether anything visible changed.
    pub fn click_filter(&mut self, width: u16, column: u16) -> (changed: bool)
        ensures
            final(self).shown_of() == old(self).shown_of(),
            final(self).chosen_of() == old(self).chosen_of(),
            final(self).focus_of() == old(self).focus_of(),
            final(self).filter_of().text_of() == old(self).filter_of().text_of(),
            old(self).shown_of() is Pages ==> {
                &&& final(self).filter_of().caret_of() == column_offset(
                    old(self).filter_of().text_of(),
                    old(self).filter_of().caret_of(),
                    budget_of(width),
                    column as int,
                )
                &&& final(self).filter_of().anchor_of() is None
                &&& changed == (final(self).filter_of().caret_of() != old(self).filter_of().caret_of()
                    || old(self).filter_of().anchor_of() is Some)
            },
            !(old(self).shown_of() is Pages) ==> !changed && final(self).filter_of() == old(self).filter_of(),
    {
        let offset = offset_at(&self.filter, width, column);
        match self.filter_mut() {
            Some(filter) => filter.place_caret(offset),
            None => false,
        }
    }

    /// Drags the filter's caret to where `column` of that window lands, while the list shows.
    pub fn drag_filter(&mut self, width: u16, column: u16)
        ensures
            final(self).shown_of() == old(self).shown_of(),
            final(self).chosen_of() == old(self).chosen_of(),
            final(self).focus_of() == old(self).focus_of(),
            final(self).filter_of().text_of() == old(self).filter_of().text_of(),
            old(self).shown_of() is Pages ==> {
                &&& final(self).filter_of().caret_of() == column_offset(
                    old(self).filter_of().text_of(),
                    old(self).filter_of().caret_of(),
                    budget_of(width),
                    column as int,
                )
                &&& final(self).filter_of().anchor_of() == Some(
                    match old(self).filter_of().anchor_of() {
                        Some(a) => a,
                        None => old(self).filter_of().caret_of(),
                    },
                )
            },
            !(old(self).shown_of() is Pages) ==> final(self).filter_of() == old(self).filter_of(),
    {
        let offset = offset_at(&self.filter, width, column);
        if let Some(filter) = self.filter_mut() {
            filter.drag_to_offset(offset);
        }
    }

    /// The text offsets the window shows.
    pub fn filter_range(&self, width: u16) -> (range: std::ops::Range<usize>)
        ensures
            range.start == window_start(self.filter_of().text_of(), self.filter_of().caret_of(), budget_of(width)),
            range.end == range.start + window_text(
                self.filter_of().text_of(),
                self.filter_of().caret_of(),
                budget_of(width),
            ).len(),
    {
        let (start, visible, _) = window(&self.filter, width);
        start..start + visible.len()
    }

    /// The resolved settings, while the Configuration page is open.
    pub fn configuration(&self) -> (summary: Option<&ConfigurationSummary>)
        ensures
            match self.shown_of() {
                Shown::Configuration(s) => summary == Some(&s),
                _ => summary is None,
            },
    {
        match &self.shown {
            Shown::Configuration(summary) => Some(summary),
            _ => None,
        }
    }

    /// The permissions page, while it is open.
    pub fn permissions(&self) -> (panel: Option<&PermissionPanel>)
        ensures
            match self.shown_of() {
                Shown::Permissions(p) => panel == Some(&p),
                _ => panel is None,
            },
    {
        match &self.shown {
            Shown::Permissions(page) => Some(page),
            _ => None,
        }
    }

    /// The permissions page, for changing, while it is open.
    pub fn permissions_mut(&mut self) -> (panel: Option<&mut PermissionPanel>)
        ensures
            final(self).filter_of() == old(self).filter_of(),
            final(self).chosen_of() == old(self).chosen_of(),
            final(self).focus_of() == old(self).focus_of(),
            match old(self).shown_of() {
                Shown::Permissions(p) => panel matches Some(r) && *r == p
                    && final(self).shown_of() == Shown::Permissions(*final(r)),
                _ => panel is None && final(self).shown_of() == old(self).shown_of(),
            },
    {
        match &mut self.shown {
            Shown::Permissions(page) => Some(page),
            _ => None,
        }
    }

    /// Pages the list's filter admits, in list order; empty while a page is open.
    pub fn pages(&self) -> (found: Vec<Page>)
        ensures
            found@ == drawer_pages(*self),
    {
        let mut found: Vec<Page> = Vec::new();
        match &self.shown {
            Shown::Pages => {},
            _ => {
                return found;
            },
        }
        let needle = self.filter.text();
        let all = Page::ALL;
        assert(all@ =~= all_pages());
        assert(all_pages().take(0) =~= Seq::<Page>::empty());
        let mut i: usize = 0;
        while i < 2
            invariant
                all@ == all_pages(),
                needle@ == self.filter_of().text_of(),
                i <= 2,
                found@ == admitted_pages(all_pages().take(i as int), needle@),
            decreases 2 - i,
        {
            let page = all[i];
            proof {
                assert(all_pages().take(i + 1).drop_last() =~= all_pages().take(i as int));
                assert(all_pages().take(i + 1).last() == page);
            }
            if page.matches(needle.as_str()) {
                found.push(page);
            }
            i = i + 1;
        }
        assert(all_pages().take(2) =~= all_pages());
        found
    }

    /// Which page is chosen in the list, or nothing when the filter admits none.
    pub fn chosen_page(&self) -> (page: Option<Page>)
        ensures
            page == if 0 <= self.chosen_of() < drawer_pages(*self).len() {
                Some(drawer_pages(*self)[self.chosen_of()])
            } else {
                None
            },
    {
        let found = self.pages();
        if self.chosen < found.len() {
            Some(found[self.chosen])
        } else {
            None
        }
    }

    /// Index of the chosen row among what is listed, for rendering the marker.
    pub fn chosen_index(&self) -> (index: usize)
        ensures
            index == self.chosen_of(),
    {
        self.chosen
    }

    /// Moves the choice by one, stopping at the ends rather than wrapping; the permissions page
    /// moves its own. Reports whether it moved.
    pub fn step(&mut self, forward: bool) -> (moved: bool)
        ensures
            final(self).filter_of() == old(self).filter_of(),
            final(self).focus_of() == old(self).focus_of(),
            match old(self).shown_of() {
                Shown::Permissions(p) => final(self).shown_of() matches Shown::Permissions(q)
                    && q.rows == p.rows && q.chosen == step_index(p.chosen as int, p.rows as int, forward)
                    && moved == (q.chosen != p.chosen) && final(self).chosen_of() == old(self).chosen_of(),
                _ => final(self).shown_of() == old(self).shown_of() && final(self).chosen_of()
                    == step_index(old(self).chosen_of(), drawer_pages(*old(self)).len() as int, forward)
                    && moved == (final(self).chosen_of() != old(self).chosen_of()),
            },
    {
        if let Shown::Permissions(panel) = &mut self.shown {
            return panel.step(forward);
        }
        let count = self.match_count();
        let current = self.chosen_index();
        let next = stepped(current, count, forward);
        if next == current {
            return false;
        }
        self.chosen = next;
        true
    }

    /// Brings the choice back among the listed pages after the filter changed.
    pub fn reclamp(&mut self)
        ensures
            final(self).shown_of() == old(self).shown_of(),
            final(self).filter_of() == old(self).filter_of(),
            final(self).focus_of() == old(self).focus_of(),
            final(self).chosen_of() == clamp_index(old(self).chosen_of(), drawer_pages(*old(self)).len() as int),
    {
        let count = self.match_count();
        self.chosen = clamped(self.chosen, count);
    }

    /// How many pages are listed.
    pub fn match_count(&self) -> (count: usize)
        ensures
            count == drawer_pages(*self).len(),
    {
        self.pages().len()
    }
}

} // verus!

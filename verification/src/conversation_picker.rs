//! Read-only conversation discovery: the rows `/resume` lists, where they stand, and what a
//! refused switch says.
use vstd::prelude::*;

use crate::ids::ConversationId;
use crate::text::{
    chars_of, contains_exec, contains_text, lowercase, lowercased, occurs_at, string_of, trim, trimmed,
};

verus! {

/// At most this many saved conversations are listed.
pub const MAX_CONVERSATION_CHOICES: usize = 200;

/// A bounded display projection of one saved conversation.
#[derive(Clone, Debug, PartialEq, Eq)]
pub struct ConversationChoice {
    pub id: ConversationId,
    pub title: String,
}

/// Why a conversation did not open.
#[derive(Clone, Copy, Debug, PartialEq, Eq, Structural)]
pub enum SwitchRefusal {
    Busy,
    DraftPresent,
    RequestInFlight,
    OpenFailed,
}

/// What a refusal says.
pub open spec fn refusal_text(refusal: SwitchRefusal) -> Seq<char> {
    match refusal {
        SwitchRefusal::Busy => "Stop the current run before switching conversations."@,
        SwitchRefusal::DraftPresent => "Send or clear your draft before switching conversations."@,
        SwitchRefusal::RequestInFlight => "Wait for the conversation request already running."@,
        SwitchRefusal::OpenFailed => "Cannot open: check configuration or conversation file."@,
    }
}

impl SwitchRefusal {
    /// What the refusal says.
    pub fn message(self) -> (text: &'static str)
        ensures
            text@ == refusal_text(self),
    {
        match self {
            SwitchRefusal::Busy => "Stop the current run before switching conversations.",
            SwitchRefusal::DraftPresent => "Send or clear your draft before switching conversations.",
            SwitchRefusal::RequestInFlight => "Wait for the conversation request already running.",
            SwitchRefusal::OpenFailed => "Cannot open: check configuration or conversation file.",
        }
    }

    /// Whether the refusal is a failure rather than a wait.
    pub fn is_failure(self) -> (failure: bool)
        ensures
            failure == (self is OpenFailed),
    {
        match self {
            SwitchRefusal::OpenFailed => true,
            _ => false,
        }
    }
}

/// Where `/resume`'s listing stands: its one status row.
#[derive(Clone, Copy, Debug, PartialEq, Eq, Structural)]
pub enum ConversationPickerStatus {
    Loading,
    Ready,
    Opening,
    ListFailed,
    /// The chosen row did not open; the rows can be chosen again.
    Refused(SwitchRefusal),
}

/// What a status row says.
pub open spec fn status_text(status: ConversationPickerStatus) -> Seq<char> {
    match status {
        ConversationPickerStatus::Loading => "Loading saved conversations…"@,
        ConversationPickerStatus::Ready => "No saved conversation matches"@,
        ConversationPickerStatus::Opening => "Opening conversation…"@,
        ConversationPickerStatus::ListFailed => "Could not read saved conversations."@,
        ConversationPickerStatus::Refused(refusal) => refusal_text(refusal),
    }
}

impl ConversationPickerStatus {
    /// What the status row says.
    pub fn message(self) -> (text: &'static str)
        ensures
            text@ == status_text(self),
    {
        match self {
            ConversationPickerStatus::Loading => "Loading saved conversations…",
            ConversationPickerStatus::Ready => "No saved conversation matches",
            ConversationPickerStatus::Opening => "Opening conversation…",
            ConversationPickerStatus::ListFailed => "Could not read saved conversations.",
            ConversationPickerStatus::Refused(refusal) => refusal.message(),
        }
    }

    /// Whether the status reports a failure.
    pub fn is_failure(self) -> (failure: bool)
        ensures
            failure == (self is ListFailed || (self matches ConversationPickerStatus::Refused(r)
                && r is OpenFailed)),
    {
        match self {
            ConversationPickerStatus::ListFailed => true,
            ConversationPickerStatus::Refused(refusal) => refusal.is_failure(),
            _ => false,
        }
    }
}

/// Whether a saved conversation is admitted by the lowered, trimmed query `q`.
pub open spec fn choice_matches(title: Seq<char>, id: Seq<char>, q: Seq<char>) -> bool {
    contains_text(lowercased(title), q) || contains_text(lowercased(id), q)
}

/// The positions of the `entries` the lowered query `q` admits, in listed order.
pub open spec fn admitted_rows(entries: Seq<ConversationChoice>, q: Seq<char>) -> Seq<usize>
    decreases entries.len(),
{
    if entries.len() == 0 {
        Seq::empty()
    } else {
        let earlier = admitted_rows(entries.drop_last(), q);
        let last = entries.last();
        if choice_matches(last.title@, last.id@, q) {
            earlier.push((entries.len() - 1) as usize)
        } else {
            earlier
        }
    }
}

/// The rows a query picks from a picker: none while a switch is in flight.
pub open spec fn listed_matches(picker: ConversationPicker, query: Seq<char>) -> Seq<usize> {
    match picker {
        ConversationPicker::Listing { entries, .. } => admitted_rows(
            entries@,
            lowercased(trim(query)),
        ),
        ConversationPicker::Switching => Seq::empty(),
    }
}

/// Where a picker's listing stands; a switch in flight is opening.
pub open spec fn picker_status(picker: ConversationPicker) -> ConversationPickerStatus {
    match picker {
        ConversationPicker::Listing { status, .. } => status,
        ConversationPicker::Switching => ConversationPickerStatus::Opening,
    }
}

/// An empty query admits every row.
proof fn lemma_every_row_admitted(entries: Seq<ConversationChoice>, q: Seq<char>)
    requires
        q.len() == 0,
    ensures
        admitted_rows(entries, q) == Seq::new(entries.len(), |j: int| j as usize),
    decreases entries.len(),
{
    if entries.len() > 0 {
        lemma_every_row_admitted(entries.drop_last(), q);
        let last = entries.last();
        assert(occurs_at(lowercased(last.title@), q, 0)) by {
            assert(lowercased(last.title@).subrange(0, 0) =~= q);
        }
        assert(admitted_rows(entries, q) =~= Seq::new(entries.len(), |j: int| j as usize));
    } else {
        assert(admitted_rows(entries, q) =~= Seq::new(entries.len(), |j: int| j as usize));
    }
}

/// The standing permission to list or switch, and `/resume`'s rows while it lists.
#[derive(Clone, Debug, PartialEq, Eq)]
pub enum ConversationPicker {
    /// `/resume`'s rows and where they stand.
    Listing { entries: Vec<ConversationChoice>, status: ConversationPickerStatus, limited: bool },
    /// A switch in flight: nothing to show, and a place for its result to land.
    Switching,
}

impl ConversationPicker {
    /// A listing that has not arrived yet.
    pub fn loading() -> (picker: Self)
        ensures
            picker matches ConversationPicker::Listing { entries, status, limited } && entries@.len()
                == 0 && status is Loading && !limited,
    {
        ConversationPicker::Listing {
            entries: Vec::new(),
            status: ConversationPickerStatus::Loading,
            limited: false,
        }
    }

    /// Where the listing stands; a switch in flight is opening.
    pub fn status(&self) -> (status: ConversationPickerStatus)
        ensures
            status == picker_status(*self),
    {
        match self {
            ConversationPicker::Listing { status, .. } => *status,
            ConversationPicker::Switching => ConversationPickerStatus::Opening,
        }
    }

    /// The positions of every listed conversation the query admits, in listed order: those whose
    /// title or identity contains the trimmed query, both lowered.
    pub fn matching(&self, query: &str) -> (found: Vec<usize>)
        ensures
            found@ == listed_matches(*self, query@),
            trim(query@).len() == 0 ==> (self matches ConversationPicker::Listing { entries, .. }
                ==> found@ == Seq::new(entries@.len(), |j: int| j as usize)),
    {
        let mut found: Vec<usize> = Vec::new();
        match self {
            ConversationPicker::Switching => found,
            ConversationPicker::Listing { entries, .. } => {
                let query_chars = chars_of(query);
                let t = trimmed(query_chars.as_slice());
                let t_string = string_of(t.as_slice());
                let lowered = lowercase(t_string.as_str());
                let q = chars_of(lowered.as_str());
                let mut i: usize = 0;
                proof {
                    assert(entries@.take(0) =~= Seq::<ConversationChoice>::empty());
                }
                while i < entries.len()
                    invariant
                        i <= entries@.len(),
                        q@ == lowercased(trim(query@)),
                        found@ == admitted_rows(entries@.take(i as int), q@),
                    decreases entries@.len() - i,
                {
                    let title = lowercase(entries[i].title.as_str());
                    let title_chars = chars_of(title.as_str());
                    let id = lowercase(entries[i].id.as_str());
                    let id_chars = chars_of(id.as_str());
                    let admitted = contains_exec(title_chars.as_slice(), q.as_slice())
                        || contains_exec(id_chars.as_slice(), q.as_slice());
                    proof {
                        assert(entries@.take(i + 1).drop_last() =~= entries@.take(i as int));
                        assert(entries@.take(i + 1).last() == entries@[i as int]);
                    }
                    if admitted {
                        found.push(i);
                    }
                    i = i + 1;
                }
                proof {
                    assert(entries@.take(entries@.len() as int) =~= entries@);
                    if trim(query@).len() == 0 {
                        lemma_every_row_admitted(entries@, q@);
                        assert(found@ =~= Seq::new(entries@.len(), |j: int| j as usize));
                    }
                }
                found
            },
        }
    }

    /// The position of the first listed conversation with identity `id`, if one is listed.
    pub fn choice(&self, id: &ConversationId) -> (found: Option<usize>)
        ensures
            match found {
                Some(i) => self matches ConversationPicker::Listing { entries, .. } && i
                    < entries@.len() && entries@[i as int].id@ == id@ && forall|j: int|
                    0 <= j < i ==> #[trigger] entries@[j].id@ != id@,
                None => self matches ConversationPicker::Listing { entries, .. } ==> forall|j: int|
                    0 <= j < entries@.len() ==> #[trigger] entries@[j].id@ != id@,
            },
    {
        let rows = self.matching("");
        proof {
            reveal_strlit("");
            assert(trim(""@).len() == 0);
        }
        match self {
            ConversationPicker::Switching => None,
            ConversationPicker::Listing { entries, .. } => {
                let mut k: usize = 0;
                while k < rows.len()
                    invariant
                        self matches ConversationPicker::Listing { entries: listed, .. } && listed@
                            == entries@,
                        rows@ == Seq::new(entries@.len(), |j: int| j as usize),
                        k <= rows@.len(),
                        forall|j: int| 0 <= j < k ==> #[trigger] entries@[j].id@ != id@,
                    decreases rows@.len() - k,
                {
                    let row = rows[k];
                    assert(row == k);
                    if entries[row].id.same(id) {
                        return Some(row);
                    }
                    k = k + 1;
                }
                None
            },
        }
    }

    /// Whether a saved row can be opened now: the listing is in, and no open is in flight.
    pub fn admits_open(&self) -> (admits: bool)
        ensures
            admits == (self matches ConversationPicker::Listing { status, .. } && (status is Ready
                || status is Refused)),
    {
        match self {
            ConversationPicker::Listing { status, .. } => match status {
                ConversationPickerStatus::Ready | ConversationPickerStatus::Refused(_) => true,
                _ => false,
            },
            ConversationPicker::Switching => false,
        }
    }

    /// Whether the newest rows stood in for a longer directory.
    pub fn limited(&self) -> (limited: bool)
        ensures
            limited == (self matches ConversationPicker::Listing { limited, .. } && *limited),
    {
        match self {
            ConversationPicker::Listing { limited, .. } => *limited,
            ConversationPicker::Switching => false,
        }
    }
}

} // verus!

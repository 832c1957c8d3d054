//! The composer menu's one choice: which listing row is marked, kept by identity across edits of
//! the draft, dismissed until the draft's initial token changes, and stepped within the rows.
//! The draft is the query and nothing here writes it.
use vstd::prelude::*;

use crate::composer_menu::{
    command_rows, commands_starting, identity_pair, matching_models, retained_skills, skill_rows,
    skills_starting, Listing, ModelCatalog, ModelChoice, ModelIdentity, SkillChoice,
};
use crate::conversation_picker::{admitted_rows, listed_matches, ConversationChoice, ConversationPicker};
use crate::grammar::{completion, completion_of, initial_token, sigil_token, Command};
use crate::ids::ConversationId;
use crate::intent::Direction;
use crate::text::{
    chars_of, contains_exec, contains_text, lowercase, lowercased, same_text, starts_with,
    starts_with_exec, trim,
};

verus! {

/// How much reasoning a turn may spend.
#[derive(Clone, Copy, Debug, PartialEq, Eq, Structural)]
pub enum ReasoningEffort {
    /// No reasoning.
    Off,
    Low,
    Medium,
    High,
    Xhigh,
    Max,
    /// Whatever the provider chooses.
    Default,
}

/// The word a draft names an effort by.
pub open spec fn effort_name(effort: ReasoningEffort) -> Seq<char> {
    match effort {
        ReasoningEffort::Off => "none"@,
        ReasoningEffort::Low => "low"@,
        ReasoningEffort::Medium => "medium"@,
        ReasoningEffort::High => "high"@,
        ReasoningEffort::Xhigh => "xhigh"@,
        ReasoningEffort::Max => "max"@,
        ReasoningEffort::Default => "default"@,
    }
}

/// The explicit efforts, least first.
pub open spec fn explicit_efforts() -> Seq<ReasoningEffort> {
    seq![
        ReasoningEffort::Off,
        ReasoningEffort::Low,
        ReasoningEffort::Medium,
        ReasoningEffort::High,
        ReasoningEffort::Xhigh,
        ReasoningEffort::Max,
    ]
}

impl ReasoningEffort {
    /// The explicit efforts, least first.
    pub const EXPLICIT: [ReasoningEffort; 6] = [
        ReasoningEffort::Off,
        ReasoningEffort::Low,
        ReasoningEffort::Medium,
        ReasoningEffort::High,
        ReasoningEffort::Xhigh,
        ReasoningEffort::Max,
    ];

    /// The word a draft names this effort by.
    pub fn as_str(self) -> (name: &'static str)
        ensures
            name@ == effort_name(self),
    {
        match self {
            ReasoningEffort::Off => "none",
            ReasoningEffort::Low => "low",
            ReasoningEffort::Medium => "medium",
            ReasoningEffort::High => "high",
            ReasoningEffort::Xhigh => "xhigh",
            ReasoningEffort::Max => "max",
            ReasoningEffort::Default => "default",
        }
    }
}

/// What the menu reads of the Session permissions panel: each row's label, in order, and whether
/// the panel is browsing its grants (its rows then filter by the query) rather than reviewing one.
#[derive(Debug)]
pub struct PermissionRows {
    pub labels: Vec<String>,
    pub browsing: bool,
}

/// One row the menu can act on, by identity rather than by position.
#[derive(Clone, Debug, PartialEq, Eq)]
pub enum MenuRow {
    Skill(String),
    Command(Command),
    Conversation(ConversationId),
    /// A row of the Session permissions panel, by its place there.
    Permission(usize),
    Effort(ReasoningEffort),
    Model(ModelIdentity),
}

/// A menu row, as values.
pub enum RowValue {
    Skill(Seq<char>),
    Command(Command),
    Conversation(Seq<char>),
    Permission(usize),
    Effort(ReasoningEffort),
    Model((Seq<char>, Seq<char>)),
}

impl View for MenuRow {
    type V = RowValue;

    open spec fn view(&self) -> RowValue {
        match self {
            MenuRow::Skill(name) => RowValue::Skill(name@),
            MenuRow::Command(command) => RowValue::Command(*command),
            MenuRow::Conversation(id) => RowValue::Conversation(id@),
            MenuRow::Permission(index) => RowValue::Permission(*index),
            MenuRow::Effort(effort) => RowValue::Effort(*effort),
            MenuRow::Model(identity) => RowValue::Model(identity_pair(*identity)),
        }
    }
}

impl MenuRow {
    /// The same row, as a separate value.
    pub fn duplicate(&self) -> (copy: Self)
        ensures
            copy@ == self@,
    {
        match self {
            MenuRow::Skill(name) => MenuRow::Skill(name.clone()),
            MenuRow::Command(command) => MenuRow::Command(*command),
            MenuRow::Conversation(id) => MenuRow::Conversation(id.duplicate()),
            MenuRow::Permission(index) => MenuRow::Permission(*index),
            MenuRow::Effort(effort) => MenuRow::Effort(*effort),
            MenuRow::Model(identity) => MenuRow::Model(identity.duplicate()),
        }
    }

    /// Whether two rows are the same row.
    pub fn same(&self, other: &Self) -> (same: bool)
        ensures
            same == (self@ == other@),
    {
        match (self, other) {
            (MenuRow::Skill(a), MenuRow::Skill(b)) => same_text(
                chars_of(a.as_str()).as_slice(),
                chars_of(b.as_str()).as_slice(),
            ),
            (MenuRow::Command(a), MenuRow::Command(b)) => *a == *b,
            (MenuRow::Conversation(a), MenuRow::Conversation(b)) => a.same(b),
            (MenuRow::Permission(a), MenuRow::Permission(b)) => *a == *b,
            (MenuRow::Effort(a), MenuRow::Effort(b)) => *a == *b,
            (MenuRow::Model(a), MenuRow::Model(b)) => a.same(b),
            _ => false,
        }
    }
}

/// What the menu's rows are drawn from, as values.
pub struct CatalogValue {
    pub efforts: Option<Seq<ReasoningEffort>>,
    pub skills: Seq<SkillChoice>,
    pub conversations: Option<ConversationPicker>,
    pub permissions: Option<(Seq<Seq<char>>, bool)>,
    pub models: Seq<ModelChoice>,
}

/// The explicit efforts among the first `k` that the allowed list holds and whose names start
/// with `query`.
pub open spec fn efforts_listed(allowed: Option<Seq<ReasoningEffort>>, query: Seq<char>, k: int) -> Seq<
    RowValue,
>
    decreases k,
{
    if k <= 0 {
        Seq::empty()
    } else {
        let e = explicit_efforts()[k - 1];
        efforts_listed(allowed, query, k - 1) + if allowed matches Some(a) && a.contains(e)
            && starts_with(effort_name(e), query) {
            seq![RowValue::Effort(e)]
        } else {
            Seq::empty()
        }
    }
}

/// The rows of the permissions among the first `k` that the query admits: every row, unless the
/// panel is browsing, when a row's lowered label must contain the lowered query.
pub open spec fn permissions_listed(labels: Seq<Seq<char>>, browsing: bool, query: Seq<char>, k: int) -> Seq<
    RowValue,
>
    decreases k,
{
    if k <= 0 {
        Seq::empty()
    } else {
        permissions_listed(labels, browsing, query, k - 1) + if !browsing || contains_text(
            lowercased(labels[k - 1]),
            lowercased(query),
        ) {
            seq![RowValue::Permission((k - 1) as usize)]
        } else {
            Seq::empty()
        }
    }
}

/// The conversations a picker lists.
pub open spec fn picker_entries(picker: ConversationPicker) -> Seq<ConversationChoice> {
    match picker {
        ConversationPicker::Listing { entries, .. } => entries@,
        ConversationPicker::Switching => Seq::empty(),
    }
}

/// The rows a listing admits for `query`, in listing order.
pub open spec fn listed_rows(catalog: CatalogValue, listing: Listing, query: Seq<char>) -> Seq<RowValue> {
    match listing {
        Listing::Effort => if query == "default"@ {
            seq![RowValue::Effort(ReasoningEffort::Default)]
        } else {
            efforts_listed(catalog.efforts, query, 6)
        },
        Listing::Skills => skills_starting(catalog.skills, query, catalog.skills.len() as int).map_values(
            |name: Seq<char>| RowValue::Skill(name),
        ),
        Listing::Commands => commands_starting(query, 5).map_values(
            |command: Command| RowValue::Command(command),
        ),
        Listing::Conversations => match catalog.conversations {
            Some(picker) => listed_matches(picker, query).map_values(
                |i: usize| RowValue::Conversation(picker_entries(picker)[i as int].id@),
            ),
            None => Seq::empty(),
        },
        Listing::Permissions => match catalog.permissions {
            Some((labels, browsing)) => permissions_listed(
                labels,
                browsing,
                query,
                labels.len() as int,
            ),
            None => Seq::empty(),
        },
        Listing::Models => matching_models(catalog.models, query, catalog.models.len() as int).map_values(
            |i: int| RowValue::Model(identity_pair(catalog.models[i].identity)),
        ),
    }
}

/// Where the menu stands.
#[derive(Debug)]
pub enum MenuState {
    Closed,
    /// `None` while the listing has no row: a status row stands in.
    Open { chosen: Option<MenuRow> },
    /// Dismissed until the draft's initial token changes.
    Dismissed { token: String },
}

/// Where the menu stands, as values.
pub enum StateValue {
    Closed,
    Open(Option<RowValue>),
    Dismissed(Seq<char>),
}

/// An optional row, as a value.
pub open spec fn row_view(row: Option<MenuRow>) -> Option<RowValue> {
    match row {
        Some(r) => Some(r@),
        None => None,
    }
}

impl View for MenuState {
    type V = StateValue;

    open spec fn view(&self) -> StateValue {
        match self {
            MenuState::Closed => StateValue::Closed,
            MenuState::Open { chosen } => StateValue::Open(row_view(*chosen)),
            MenuState::Dismissed { token } => StateValue::Dismissed(token@),
        }
    }
}

/// The composer menu: the catalogs its listings draw on, and its one choice.
#[derive(Debug)]
pub struct ComposerMenu {
    pub efforts: Option<Vec<ReasoningEffort>>,
    pub effort_feedback: Option<String>,
    pub effort_phase: u16,
    skills: Vec<SkillChoice>,
    /// Saved conversations for `/resume`, once they are listed.
    pub conversations: Option<ConversationPicker>,
    /// The Session's grants for `/permissions`, once they are projected.
    pub permissions: Option<PermissionRows>,
    pub models: ModelCatalog,
    pub model_feedback: Option<String>,
    state: MenuState,
}

/// The labels of a permissions listing, as text.
pub open spec fn labels_view(labels: Seq<String>) -> Seq<Seq<char>> {
    labels.map_values(|label: String| label@)
}

impl ComposerMenu {
    /// What the rows are drawn from.
    pub closed spec fn catalog(&self) -> CatalogValue {
        CatalogValue {
            efforts: match self.efforts {
                Some(list) => Some(list@),
                None => None,
            },
            skills: self.skills@,
            conversations: self.conversations,
            permissions: match self.permissions {
                Some(rows) => Some((labels_view(rows.labels@), rows.browsing)),
                None => None,
            },
            models: self.models.choices_view(),
        }
    }

    /// Where the menu stands.
    pub closed spec fn state_view(&self) -> StateValue {
        self.state@
    }

    /// A closed menu over empty catalogs.
    pub fn new() -> (menu: Self)
        ensures
            menu.state_view() == StateValue::Closed,
            menu.catalog().efforts is None,
            menu.catalog().skills.len() == 0,
            menu.catalog().conversations is None,
            menu.catalog().permissions is None,
            menu.catalog().models.len() == 0,
    {
        ComposerMenu {
            efforts: None,
            effort_feedback: None,
            effort_phase: 0,
            skills: Vec::new(),
            conversations: None,
            permissions: None,
            models: ModelCatalog::new(),
            model_feedback: None,
            state: MenuState::Closed,
        }
    }

    /// The rows `listing` admits for `query`, in listing order.
    pub fn rows_for(&self, listing: Listing, query: &str) -> (rows: Vec<MenuRow>)
        ensures
            rows@.map_values(|r: MenuRow| r@) == listed_rows(self.catalog(), listing, query@),
    {
        let mut rows: Vec<MenuRow> = Vec::new();
        match listing {
            Listing::Effort => {
                let q = chars_of(query);
                proof {
                    reveal_strlit("default");
                }
                let word = chars_of("default");
                if same_text(q.as_slice(), word.as_slice()) {
                    rows.push(MenuRow::Effort(ReasoningEffort::Default));
                    assert(rows@.map_values(|r: MenuRow| r@) =~= seq![RowValue::Effort(ReasoningEffort::Default)]);
                    return rows;
                }
                let all = ReasoningEffort::EXPLICIT;
                assert(all@ =~= explicit_efforts());
                let mut k: usize = 0;
                while k < 6
                    invariant
                        k <= 6,
                        all@ == explicit_efforts(),
                        q@ == query@,
                        rows@.map_values(|r: MenuRow| r@) == efforts_listed(self.catalog().efforts, query@, k as int),
                    decreases 6 - k,
                {
                    let effort = all[k];
                    let allowed = match &self.efforts {
                        Some(list) => effort_in(list.as_slice(), effort),
                        None => false,
                    };
                    let ghost before = rows@;
                    if allowed && starts_with_exec(chars_of(effort.as_str()).as_slice(), q.as_slice()) {
                        rows.push(MenuRow::Effort(effort));
                    }
                    assert(rows@.map_values(|r: MenuRow| r@) =~= efforts_listed(self.catalog().efforts, query@, k + 1)) by {
                        assert(before.map_values(|r: MenuRow| r@) == efforts_listed(self.catalog().efforts, query@, k as int));
                    }
                    k += 1;
                }
                rows
            },
            Listing::Skills => {
                let names = skill_rows(self.skills.as_slice(), query);
                let ghost listed = names@.map_values(|name: String| name@);
                let mut k: usize = 0;
                while k < names.len()
                    invariant
                        k <= names@.len(),
                        listed == names@.map_values(|name: String| name@),
                        rows@.map_values(|r: MenuRow| r@) == listed.take(k as int).map_values(|name: Seq<char>| RowValue::Skill(name)),
                    decreases names@.len() - k,
                {
                    let ghost prev = rows@;
                    rows.push(MenuRow::Skill(names[k].clone()));
                    proof {
                        assert(listed.take(k + 1) =~= listed.take(k as int).push(listed[k as int]));
                        assert(rows@.map_values(|r: MenuRow| r@) =~= prev.map_values(|r: MenuRow| r@).push(RowValue::Skill(listed[k as int])));
                    }
                    k += 1;
                    assert(rows@.map_values(|r: MenuRow| r@) =~= listed.take(k as int).map_values(|name: Seq<char>| RowValue::Skill(name)));
                }
                assert(listed.take(names@.len() as int) =~= listed);
                rows
            },
            Listing::Commands => {
                let commands = command_rows(query);
                let mut k: usize = 0;
                while k < commands.len()
                    invariant
                        k <= commands@.len(),
                        commands@ == commands_starting(query@, 5),
                        rows@.map_values(|r: MenuRow| r@) == commands@.take(k as int).map_values(|c: Command| RowValue::Command(c)),
                    decreases commands@.len() - k,
                {
                    let ghost prev = rows@;
                    rows.push(MenuRow::Command(commands[k]));
                    proof {
                        assert(commands@.take(k + 1) =~= commands@.take(k as int).push(commands@[k as int]));
                        assert(rows@.map_values(|r: MenuRow| r@) =~= prev.map_values(|r: MenuRow| r@).push(RowValue::Command(commands@[k as int])));
                    }
                    k += 1;
                    assert(rows@.map_values(|r: MenuRow| r@) =~= commands@.take(k as int).map_values(|c: Command| RowValue::Command(c)));
                }
                assert(commands@.take(commands@.len() as int) =~= commands@);
                rows
            },
            Listing::Conversations => {
                match &self.conversations {
                    Some(picker) => {
                        let found = picker.matching(query);
                        let ghost entries = picker_entries(*picker);
                        let mut k: usize = 0;
                        while k < found.len()
                            invariant
                                k <= found@.len(),
                                found@ == listed_matches(*picker, query@),
                                entries == picker_entries(*picker),
                                self.conversations == Some(*picker),
                                rows@.map_values(|r: MenuRow| r@) == found@.take(k as int).map_values(
                                    |i: usize| RowValue::Conversation(entries[i as int].id@),
                                ),
                            decreases found@.len() - k,
                        {
                            let i = found[k];
                            proof {
                                lemma_matches_within(*picker, query@, k as int);
                            }
                            let id = match picker {
                                ConversationPicker::Listing { entries: listed, .. } => listed[i].id.duplicate(),
                                ConversationPicker::Switching => {
                                    proof {
                                        assert(false);
                                    }
                                    ConversationId::new("")
                                },
                            };
                            let ghost prev = rows@;
                            rows.push(MenuRow::Conversation(id));
                            proof {
                                assert(found@.take(k + 1) =~= found@.take(k as int).push(found@[k as int]));
                                assert(rows@.map_values(|r: MenuRow| r@) =~= prev.map_values(|r: MenuRow| r@).push(
                                    RowValue::Conversation(entries[i as int].id@),
                                ));
                            }
                            k += 1;
                            assert(rows@.map_values(|r: MenuRow| r@) =~= found@.take(k as int).map_values(
                                |i: usize| RowValue::Conversation(entries[i as int].id@),
                            ));
                        }
                        assert(found@.take(found@.len() as int) =~= found@);
                        rows
                    },
                    None => {
                        assert(rows@.map_values(|r: MenuRow| r@) =~= Seq::empty());
                        rows
                    },
                }
            },
            Listing::Permissions => {
                match &self.permissions {
                    Some(panel) => {
                        let q = chars_of(lowercase(query).as_str());
                        let ghost labels = labels_view(panel.labels@);
                        let mut k: usize = 0;
                        while k < panel.labels.len()
                            invariant
                                k <= panel.labels@.len(),
                                labels == labels_view(panel.labels@),
                                q@ == lowercased(query@),
                                rows@.map_values(|r: MenuRow| r@) == permissions_listed(labels, panel.browsing, query@, k as int),
                            decreases panel.labels@.len() - k,
                        {
                            let admitted = !panel.browsing || contains_exec(
                                chars_of(lowercase(panel.labels[k].as_str()).as_str()).as_slice(),
                                q.as_slice(),
                            );
                            let ghost before = rows@;
                            if admitted {
                                rows.push(MenuRow::Permission(k));
                            }
                            assert(rows@.map_values(|r: MenuRow| r@) =~= permissions_listed(labels, panel.browsing, query@, k + 1)) by {
                                assert(before.map_values(|r: MenuRow| r@) == permissions_listed(labels, panel.browsing, query@, k as int));
                            }
                            k += 1;
                        }
                        rows
                    },
                    None => {
                        assert(rows@.map_values(|r: MenuRow| r@) =~= Seq::empty());
                        rows
                    },
                }
            },
            Listing::Models => {
                let found = self.models.rows(query);
                let ghost listed = found@.map_values(|row: ModelIdentity| identity_pair(row));
                let mut k: usize = 0;
                while k < found.len()
                    invariant
                        k <= found@.len(),
                        listed == found@.map_values(|row: ModelIdentity| identity_pair(row)),
                        rows@.map_values(|r: MenuRow| r@) == listed.take(k as int).map_values(
                            |pair: (Seq<char>, Seq<char>)| RowValue::Model(pair),
                        ),
                    decreases found@.len() - k,
                {
                    let ghost prev = rows@;
                    rows.push(MenuRow::Model(found[k].duplicate()));
                    proof {
                        assert(listed.take(k + 1) =~= listed.take(k as int).push(listed[k as int]));
                        assert(rows@.map_values(|r: MenuRow| r@) =~= prev.map_values(|r: MenuRow| r@).push(
                            RowValue::Model(listed[k as int]),
                        ));
                    }
                    k += 1;
                    assert(rows@.map_values(|r: MenuRow| r@) =~= listed.take(k as int).map_values(
                        |pair: (Seq<char>, Seq<char>)| RowValue::Model(pair),
                    ));
                }
                assert(listed.take(found@.len() as int) =~= listed);
                proof {
                    let m = self.catalog().models;
                    assert(listed_rows(self.catalog(), listing, query@) =~= listed.map_values(
                        |pair: (Seq<char>, Seq<char>)| RowValue::Model(pair),
                    ));
                }
                rows
            },
        }
    }
}

/// Whether `effort` is among `allowed`.
fn effort_in(allowed: &[ReasoningEffort], effort: ReasoningEffort) -> (found: bool)
    ensures
        found == allowed@.contains(effort),
{
    let mut i: usize = 0;
    while i < allowed.len()
        invariant
            i <= allowed@.len(),
            forall|j: int| 0 <= j < i ==> allowed@[j] != effort,
        decreases allowed@.len() - i,
    {
        if allowed[i] == effort {
            return true;
        }
        i += 1;
    }
    false
}

/// Every position a picker's query admits is one of its listed conversations.
proof fn lemma_matches_within(picker: ConversationPicker, query: Seq<char>, k: int)
    requires
        0 <= k < listed_matches(picker, query).len(),
    ensures
        picker is Listing,
        listed_matches(picker, query)[k] < picker_entries(picker).len(),
{
    match picker {
        ConversationPicker::Listing { entries, .. } => {
            lemma_admitted_within(entries@, lowercased(trim(query)));
        },
        ConversationPicker::Switching => {},
    }
}

/// Every admitted position is a row of `entries`.
proof fn lemma_admitted_within(entries: Seq<ConversationChoice>, q: Seq<char>)
    ensures
        forall|k: int|
            0 <= k < admitted_rows(entries, q).len() ==> #[trigger] admitted_rows(entries, q)[k]
                < entries.len(),
    decreases entries.len(),
{
    if entries.len() > 0 {
        let earlier = admitted_rows(entries.drop_last(), q);
        lemma_admitted_within(entries.drop_last(), q);
        assert forall|k: int| 0 <= k < admitted_rows(entries, q).len() implies #[trigger] admitted_rows(
            entries,
            q,
        )[k] < entries.len() by {
            if k < earlier.len() {
                assert(admitted_rows(entries, q)[k] == earlier[k]);
            }
        }
    }
}

/// The rows a draft's completion admits: none without one.
pub open spec fn found_rows(catalog: CatalogValue, found: Option<(Listing, Seq<char>, Seq<char>)>) -> Seq<
    RowValue,
> {
    match found {
        Some((listing, query, _)) => listed_rows(catalog, listing, query),
        None => Seq::empty(),
    }
}

/// Whether a listing stands for something while it has no rows, so the menu stays open.
pub open spec fn stands_without(listing: Listing) -> bool {
    !(listing is Skills || listing is Commands)
}

/// Whether a marked row survives a sync: the rows still list it, or it is the provider's default
/// while the effort listing has no query.
pub open spec fn keeps_choice(chosen: RowValue, listing: Listing, query: Seq<char>, rows: Seq<RowValue>) -> bool {
    rows.contains(chosen) || (chosen == RowValue::Effort(ReasoningEffort::Default) && listing
        == Listing::Effort && query.len() == 0)
}

/// The first row, if there is one.
pub open spec fn first_row(rows: Seq<RowValue>) -> Option<RowValue> {
    if rows.len() > 0 {
        Some(rows[0])
    } else {
        None
    }
}

/// Where the menu stands after the draft changes: without a completion it closes, unless it was
/// dismissed and the draft still starts with the dismissed token; a dismissal survives every edit
/// until the token changes; a listing with no rows that stands for nothing closes; otherwise it is
/// open, keeping its marked row while that survives, else marking the first row.
pub open spec fn synced(
    state: StateValue,
    found: Option<(Listing, Seq<char>, Seq<char>)>,
    token: Option<Seq<char>>,
    rows: Seq<RowValue>,
) -> StateValue {
    match found {
        None => if state matches StateValue::Dismissed(t) && token == Some(t) {
            state
        } else {
            StateValue::Closed
        },
        Some((listing, query, tok)) => if state matches StateValue::Dismissed(t) && t == tok {
            state
        } else if rows.len() == 0 && !stands_without(listing) {
            StateValue::Closed
        } else {
            StateValue::Open(
                match state {
                    StateValue::Open(Some(c)) => if keeps_choice(c, listing, query, rows) {
                        Some(c)
                    } else {
                        first_row(rows)
                    },
                    _ => first_row(rows),
                },
            )
        },
    }
}

/// The marked row, if the menu is open on one.
pub open spec fn marked(state: StateValue) -> Option<RowValue> {
    match state {
        StateValue::Open(chosen) => chosen,
        _ => None,
    }
}

/// Where `row` first occurs in `rows`.
pub open spec fn first_position(rows: Seq<RowValue>, row: RowValue) -> Option<int>
    decreases rows.len(),
{
    if rows.len() == 0 {
        None
    } else {
        match first_position(rows.drop_last(), row) {
            Some(p) => Some(p),
            None => if rows.last() == row {
                Some(rows.len() - 1)
            } else {
                None
            },
        }
    }
}

/// Where the menu stands after a step, and whether it moved: off the provider's default to the
/// first or last row; otherwise one row along, stopping at the ends.
pub open spec fn stepped(state: StateValue, rows: Seq<RowValue>, forward: bool) -> (StateValue, bool) {
    let default = RowValue::Effort(ReasoningEffort::Default);
    if marked(state) == Some(default) && !rows.contains(default) {
        if rows.len() > 0 {
            (StateValue::Open(Some(if forward { rows[0] } else { rows.last() })), true)
        } else {
            (state, false)
        }
    } else {
        match marked(state) {
            None => (state, false),
            Some(c) => match first_position(rows, c) {
                None => (state, false),
                Some(current) => {
                    let next = if forward {
                        if current + 1 < rows.len() { current + 1 } else { current }
                    } else {
                        if current > 0 { current - 1 } else { current }
                    };
                    if next == current {
                        (state, false)
                    } else {
                        (StateValue::Open(Some(rows[next])), true)
                    }
                },
            },
        }
    }
}

/// Where the menu stands after a pointer or key marks `row`: it is marked when the draft lists it,
/// or when it is the provider's default and the effort listing has no query.
pub open spec fn chose(
    state: StateValue,
    row: RowValue,
    found: Option<(Listing, Seq<char>, Seq<char>)>,
    rows: Seq<RowValue>,
) -> StateValue {
    let provider_default = row == RowValue::Effort(ReasoningEffort::Default) && (found matches Some(
        (listing, query, _),
    ) && listing == Listing::Effort && query.len() == 0);
    if rows.contains(row) || provider_default {
        StateValue::Open(Some(row))
    } else {
        state
    }
}

/// The rows on screen, as a start and an end: at most `visible` (at least one), sliding so the
/// marked row at `chosen` stays inside.
pub open spec fn window_of(count: int, chosen: int, visible: int) -> (int, int) {
    let shown = if visible > 1 { visible } else { 1 };
    let upto = if chosen + 1 > shown { chosen + 1 - shown } else { 0 };
    let deepest = if count > shown { count - shown } else { 0 };
    let start = if upto < deepest { upto } else { deepest };
    (start, if count < start + shown { count } else { start + shown })
}

impl MenuState {
    /// The same state, as a separate value.
    pub fn duplicate(&self) -> (copy: Self)
        ensures
            copy@ == self@,
    {
        match self {
            MenuState::Closed => MenuState::Closed,
            MenuState::Open { chosen } => MenuState::Open {
                chosen: match chosen {
                    Some(row) => Some(row.duplicate()),
                    None => None,
                },
            },
            MenuState::Dismissed { token } => MenuState::Dismissed { token: token.clone() },
        }
    }

    /// Whether two states are the same.
    pub fn same(&self, other: &Self) -> (same: bool)
        ensures
            same == (self@ == other@),
    {
        match (self, other) {
            (MenuState::Closed, MenuState::Closed) => true,
            (MenuState::Open { chosen: a }, MenuState::Open { chosen: b }) => match (a, b) {
                (Some(x), Some(y)) => x.same(y),
                (None, None) => true,
                _ => false,
            },
            (MenuState::Dismissed { token: a }, MenuState::Dismissed { token: b }) => same_text(
                chars_of(a.as_str()).as_slice(),
                chars_of(b.as_str()).as_slice(),
            ),
            _ => false,
        }
    }
}

/// Whether `rows` lists `row`.
fn rows_contain(rows: &Vec<MenuRow>, row: &MenuRow) -> (found: bool)
    ensures
        found == rows@.map_values(|r: MenuRow| r@).contains(row@),
{
    let ghost listed = rows@.map_values(|r: MenuRow| r@);
    let mut i: usize = 0;
    while i < rows.len()
        invariant
            i <= rows@.len(),
            listed == rows@.map_values(|r: MenuRow| r@),
            forall|j: int| 0 <= j < i ==> listed[j] != row@,
        decreases rows@.len() - i,
    {
        if rows[i].same(row) {
            assert(listed[i as int] == row@);
            return true;
        }
        i += 1;
    }
    false
}

/// Where `row` first occurs in `rows`.
fn position_in(rows: &Vec<MenuRow>, row: &MenuRow) -> (found: Option<usize>)
    ensures
        match found {
            Some(i) => first_position(rows@.map_values(|r: MenuRow| r@), row@) == Some(i as int),
            None => first_position(rows@.map_values(|r: MenuRow| r@), row@) is None,
        },
{
    let ghost listed = rows@.map_values(|r: MenuRow| r@);
    let mut i: usize = 0;
    while i < rows.len()
        invariant
            i <= rows@.len(),
            listed == rows@.map_values(|r: MenuRow| r@),
            first_position(listed.take(i as int), row@) is None,
        decreases rows@.len() - i,
    {
        proof {
            assert(listed.take(i + 1).drop_last() =~= listed.take(i as int));
        }
        if rows[i].same(row) {
            proof {
                lemma_first_position_prefix(listed, row@, i as int + 1);
            }
            return Some(i);
        }
        i += 1;
    }
    proof {
        assert(listed.take(rows@.len() as int) =~= listed);
    }
    None
}

/// Where a row first occurs among the first `k` rows is where it first occurs among all of them.
proof fn lemma_first_position_prefix(rows: Seq<RowValue>, row: RowValue, k: int)
    requires
        0 <= k <= rows.len(),
        first_position(rows.take(k), row) is Some,
    ensures
        first_position(rows, row) == first_position(rows.take(k), row),
    decreases rows.len() - k,
{
    if k < rows.len() {
        assert(rows.take(k + 1).drop_last() =~= rows.take(k));
        lemma_first_position_prefix(rows, row, k + 1);
    } else {
        assert(rows.take(k) =~= rows);
    }
}

/// The first row, as a separate value.
fn first_of(rows: &Vec<MenuRow>) -> (first: Option<MenuRow>)
    ensures
        row_view(first) == first_row(rows@.map_values(|r: MenuRow| r@)),
{
    if rows.len() > 0 {
        Some(rows[0].duplicate())
    } else {
        None
    }
}

impl ComposerMenu {
    /// Whether the menu is showing a listing.
    pub fn is_open(&self) -> (open: bool)
        ensures
            open == (self.state_view() is Open),
    {
        match self.state {
            MenuState::Open { .. } => true,
            _ => false,
        }
    }

    /// What the draft lists, whether or not the menu is showing it.
    pub fn listing(&self, text: &str, cursor: usize) -> (listing: Option<Listing>)
        ensures
            listing == match completion_of(text@, cursor as int) {
                Some((l, _, _)) => Some(l),
                None => None,
            },
    {
        match completion(text, cursor) {
            Some(c) => Some(c.listing),
            None => None,
        }
    }

    /// The rows the draft admits, in listing order.
    pub fn rows(&self, text: &str, cursor: usize) -> (rows: Vec<MenuRow>)
        ensures
            rows@.map_values(|r: MenuRow| r@) == found_rows(self.catalog(), completion_of(text@, cursor as int)),
    {
        match completion(text, cursor) {
            Some(c) => self.rows_for(c.listing, c.query.as_str()),
            None => {
                let rows: Vec<MenuRow> = Vec::new();
                assert(rows@.map_values(|r: MenuRow| r@) =~= Seq::empty());
                rows
            },
        }
    }

    /// The marked row, if the menu is open on one.
    pub fn chosen(&self) -> (chosen: Option<&MenuRow>)
        ensures
            match chosen {
                Some(row) => marked(self.state_view()) == Some(row@),
                None => marked(self.state_view()) is None,
            },
    {
        match &self.state {
            MenuState::Open { chosen } => match chosen {
                Some(row) => Some(row),
                None => None,
            },
            _ => None,
        }
    }

    /// Follows an edit of the draft; reports whether the menu changed.
    pub fn sync(&mut self, text: &str, cursor: usize) -> (changed: bool)
        ensures
            final(self).catalog() == old(self).catalog(),
            final(self).state_view() == synced(
                old(self).state_view(),
                completion_of(text@, cursor as int),
                sigil_token(text@),
                found_rows(old(self).catalog(), completion_of(text@, cursor as int)),
            ),
            changed == (final(self).state_view() != old(self).state_view()),
    {
        let before = self.state.duplicate();
        match completion(text, cursor) {
            None => {
                let still = match &self.state {
                    MenuState::Dismissed { token } => match initial_token(text) {
                        Some(current) => same_text(
                            chars_of(current.as_str()).as_slice(),
                            chars_of(token.as_str()).as_slice(),
                        ),
                        None => false,
                    },
                    _ => false,
                };
                if !still {
                    self.state = MenuState::Closed;
                }
            },
            Some(c) => {
                let rows = self.rows_for(c.listing, c.query.as_str());
                let ghost listed = rows@.map_values(|r: MenuRow| r@);
                let dismissed_here = match &self.state {
                    MenuState::Dismissed { token } => same_text(
                        chars_of(token.as_str()).as_slice(),
                        chars_of(c.token.as_str()).as_slice(),
                    ),
                    _ => false,
                };
                if dismissed_here {
                } else if rows.len() == 0 && !c.listing.stands_without_rows() {
                    self.state = MenuState::Closed;
                } else {
                    let query_empty = chars_of(c.query.as_str()).len() == 0;
                    let chosen = match &self.state {
                        MenuState::Open { chosen: Some(current) } => {
                            let is_default = match current {
                                MenuRow::Effort(ReasoningEffort::Default) => true,
                                _ => false,
                            };
                            if rows_contain(&rows, current) || (is_default && c.listing
                                == Listing::Effort && query_empty) {
                                Some(current.duplicate())
                            } else {
                                first_of(&rows)
                            }
                        },
                        _ => first_of(&rows),
                    };
                    self.state = MenuState::Open { chosen };
                }
            },
        }
        !before.same(&self.state)
    }

    /// Puts the mark on `row` if the draft lists it, or if it is the provider's default while
    /// the effort listing has no query.
    pub fn choose_row(&mut self, text: &str, cursor: usize, row: MenuRow)
        ensures
            final(self).catalog() == old(self).catalog(),
            final(self).state_view() == chose(
                old(self).state_view(),
                row@,
                completion_of(text@, cursor as int),
                found_rows(old(self).catalog(), completion_of(text@, cursor as int)),
            ),
    {
        let is_default = match row {
            MenuRow::Effort(ReasoningEffort::Default) => true,
            _ => false,
        };
        let provider_default = is_default && match completion(text, cursor) {
            Some(c) => c.listing == Listing::Effort && chars_of(c.query.as_str()).len() == 0,
            None => false,
        };
        let rows = self.rows(text, cursor);
        if rows_contain(&rows, &row) || provider_default {
            self.state = MenuState::Open { chosen: Some(row) };
        }
    }

    /// Moves the mark one row along the listing, stopping at the ends; reports whether it moved.
    pub fn step(&mut self, text: &str, cursor: usize, direction: Direction) -> (moved: bool)
        ensures
            final(self).catalog() == old(self).catalog(),
            (final(self).state_view(), moved) == stepped(
                old(self).state_view(),
                found_rows(old(self).catalog(), completion_of(text@, cursor as int)),
                direction is Forward,
            ),
    {
        let rows = self.rows(text, cursor);
        let ghost listed = rows@.map_values(|r: MenuRow| r@);
        let default = MenuRow::Effort(ReasoningEffort::Default);
        let on_default = match self.chosen() {
            Some(current) => current.same(&default),
            None => false,
        };
        if on_default && !rows_contain(&rows, &default) {
            if rows.len() > 0 {
                let next = match direction {
                    Direction::Forward => rows[0].duplicate(),
                    Direction::Backward => rows[rows.len() - 1].duplicate(),
                };
                self.state = MenuState::Open { chosen: Some(next) };
                return true;
            }
            return false;
        }
        let current = match self.chosen() {
            Some(chosen) => match position_in(&rows, chosen) {
                Some(i) => i,
                None => return false,
            },
            None => return false,
        };
        proof {
            lemma_first_position_within(listed, marked(self.state_view())->0);
        }
        let next = match direction {
            Direction::Forward => if current + 1 < rows.len() {
                current + 1
            } else {
                current
            },
            Direction::Backward => if current > 0 {
                current - 1
            } else {
                current
            },
        };
        if next == current {
            return false;
        }
        self.state = MenuState::Open { chosen: Some(rows[next].duplicate()) };
        true
    }

    /// The rows on screen, as a start and an end: at most `visible`, sliding so the marked row
    /// stays inside.
    pub fn window(&self, text: &str, cursor: usize, visible: usize) -> (range: (usize, usize))
        ensures
            ({
                let rows = found_rows(self.catalog(), completion_of(text@, cursor as int));
                let chosen = match marked(self.state_view()) {
                    Some(c) => match first_position(rows, c) {
                        Some(i) => i,
                        None => 0,
                    },
                    None => 0,
                };
                (range.0 as int, range.1 as int) == window_of(rows.len() as int, chosen, visible as int)
            }),
    {
        let rows = self.rows(text, cursor);
        let ghost listed = rows@.map_values(|r: MenuRow| r@);
        let chosen = match self.chosen() {
            Some(c) => match position_in(&rows, c) {
                Some(i) => {
                    proof {
                        lemma_first_position_within(listed, c@);
                    }
                    i
                },
                None => 0,
            },
            None => 0,
        };
        let shown = if visible > 1 {
            visible
        } else {
            1
        };
        let upto = if chosen >= shown {
            chosen - shown + 1
        } else {
            0
        };
        let deepest = if rows.len() > shown {
            rows.len() - shown
        } else {
            0
        };
        let start = if upto < deepest {
            upto
        } else {
            deepest
        };
        let end = if rows.len() - start < shown {
            rows.len()
        } else {
            start + shown
        };
        (start, end)
    }

    /// Closes the menu until the draft's initial token changes; reports whether it was open.
    pub fn dismiss(&mut self, text: &str, cursor: usize) -> (changed: bool)
        ensures
            final(self).catalog() == old(self).catalog(),
            changed == (old(self).state_view() is Open),
            final(self).state_view() == match completion_of(text@, cursor as int) {
                Some((_, _, token)) => StateValue::Dismissed(token),
                None => StateValue::Closed,
            },
    {
        let changed = self.is_open();
        self.state = match completion(text, cursor) {
            Some(c) => MenuState::Dismissed { token: c.token },
            None => MenuState::Closed,
        };
        changed
    }

    /// Forgets a dismissal, so the next sync shows the listing again.
    pub fn reopen(&mut self)
        ensures
            final(self).catalog() == old(self).catalog(),
            final(self).state_view() == if old(self).state_view() is Dismissed {
                StateValue::Closed
            } else {
                old(self).state_view()
            },
    {
        if let MenuState::Dismissed { .. } = self.state {
            self.state = MenuState::Closed;
        }
    }

    /// Closes the menu.
    pub fn close(&mut self)
        ensures
            final(self).catalog() == old(self).catalog(),
            final(self).state_view() == StateValue::Closed,
    {
        self.state = MenuState::Closed;
    }

    /// Keeps the leading Skills that fit the catalog's bounds, and closes the menu.
    pub fn set_choices(&mut self, choices: Vec<SkillChoice>)
        ensures
            final(self).state_view() == StateValue::Closed,
            final(self).catalog() == (CatalogValue { skills: final(self).catalog().skills, ..old(self).catalog() }),
            crate::composer_menu::skills_kept(choices@, final(self).catalog().skills.len() as int),
            final(self).catalog().skills == choices@.take(final(self).catalog().skills.len() as int),
    {
        self.skills = retained_skills(choices);
        self.state = MenuState::Closed;
    }

    /// The Skills kept.
    pub fn choices(&self) -> (choices: &[SkillChoice])
        ensures
            choices@ == self.catalog().skills,
    {
        self.skills.as_slice()
    }

    /// The first kept Skill named `name`.
    pub fn skill(&self, name: &str) -> (found: Option<&SkillChoice>)
        ensures
            match found {
                Some(choice) => exists|i: int|
                    0 <= i < self.catalog().skills.len() && self.catalog().skills[i] == *choice
                        && choice.name@ == name@ && forall|j: int|
                        0 <= j < i ==> #[trigger] self.catalog().skills[j].name@ != name@,
                None => forall|i: int|
                    0 <= i < self.catalog().skills.len() ==> #[trigger] self.catalog().skills[i].name@
                        != name@,
            },
    {
        let wanted = chars_of(name);
        let mut i: usize = 0;
        while i < self.skills.len()
            invariant
                i <= self.skills@.len(),
                wanted@ == name@,
                forall|j: int| 0 <= j < i ==> #[trigger] self.skills@[j].name@ != name@,
            decreases self.skills@.len() - i,
        {
            if same_text(chars_of(self.skills[i].name.as_str()).as_slice(), wanted.as_slice()) {
                proof {
                    assert(self.catalog().skills[i as int] == self.skills@[i as int]);
                }
                return Some(&self.skills[i]);
            }
            i += 1;
        }
        None
    }

    /// The label the permission row `index` shows, from the panel that owns it.
    pub fn permission_label(&self, index: usize) -> (label: Option<String>)
        ensures
            match label {
                Some(text) => self.catalog().permissions matches Some((labels, _)) && index
                    < labels.len() && text@ == labels[index as int],
                None => !(self.catalog().permissions matches Some((labels, _)) && index
                    < labels.len()),
            },
    {
        match &self.permissions {
            Some(panel) => if index < panel.labels.len() {
                Some(panel.labels[index].clone())
            } else {
                None
            },
            None => None,
        }
    }
}

/// A first position is a position of the row.
proof fn lemma_first_position_within(rows: Seq<RowValue>, row: RowValue)
    ensures
        first_position(rows, row) matches Some(p) ==> 0 <= p < rows.len() && rows[p] == row,
    decreases rows.len(),
{
    if rows.len() > 0 {
        lemma_first_position_within(rows.drop_last(), row);
    }
}

/// Syncing again with the same draft and rows changes nothing more.
pub proof fn law_syncing_twice_changes_nothing_more(
    state: StateValue,
    found: Option<(Listing, Seq<char>, Seq<char>)>,
    token: Option<Seq<char>>,
    rows: Seq<RowValue>,
)
    ensures
        synced(synced(state, found, token, rows), found, token, rows) == synced(state, found, token, rows),
{
    if rows.len() > 0 {
        assert(rows.contains(rows[0]));
    }
}

/// A dismissal outlasts every edit that keeps the draft's initial token, with or without a
/// listing to complete.
pub proof fn law_a_dismissal_outlasts_edits_of_its_query(
    token: Seq<char>,
    found: Option<(Listing, Seq<char>, Seq<char>)>,
    current: Option<Seq<char>>,
    rows: Seq<RowValue>,
)
    requires
        match found {
            Some((_, _, t)) => t == token,
            None => current == Some(token),
        },
    ensures
        synced(StateValue::Dismissed(token), found, current, rows) == StateValue::Dismissed(token),
{
}

/// A marked row stays marked while the listing still lists it, whatever the query.
pub proof fn law_a_listed_mark_stays(
    chosen: RowValue,
    listing: Listing,
    query: Seq<char>,
    token: Seq<char>,
    current: Option<Seq<char>>,
    rows: Seq<RowValue>,
)
    requires
        rows.contains(chosen),
    ensures
        synced(StateValue::Open(Some(chosen)), Some((listing, query, token)), current, rows)
            == StateValue::Open(Some(chosen)),
{
}

/// A step moves the mark exactly one row, and stops at the ends of the listing.
pub proof fn law_a_step_moves_one_row_and_stops_at_the_ends(
    chosen: RowValue,
    rows: Seq<RowValue>,
    at: int,
    forward: bool,
)
    requires
        first_position(rows, chosen) == Some(at),
        chosen != RowValue::Effort(ReasoningEffort::Default),
    ensures
        ({
            let (after, moved) = stepped(StateValue::Open(Some(chosen)), rows, forward);
            &&& forward && at == rows.len() - 1 ==> !moved && after == StateValue::Open(Some(chosen))
            &&& !forward && at == 0 ==> !moved && after == StateValue::Open(Some(chosen))
            &&& moved ==> after == StateValue::Open(Some(rows[if forward { at + 1 } else { at - 1 }]))
        }),
{
    lemma_first_position_within(rows, chosen);
}

} // verus!

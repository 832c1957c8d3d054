//! What the composer's draft completes to, by the token it starts with: `$` lists Skills, `/`
//! lists Commands, and a listing Command followed by a space lists what it runs on; and the
//! bounded catalogs of Skills and models those listings draw on.
use vstd::prelude::*;
use vstd::utf8::encode_utf8;

pub mod menu;

use crate::grammar::{all_commands, command_name, Command};
use crate::text::{
    chars_of, contains_exec, contains_text, lowercase, lowercased, same_text, starts_with,
    starts_with_exec, string_of,
};

verus! {

/// Rows the menu shows before it scrolls.
pub const VISIBLE_ROWS: usize = 5;

/// Where one Skill completion comes from, for display.
#[derive(Clone, Copy, Debug, PartialEq, Eq, Structural)]
pub enum SkillChoiceSource {
    ProjectNative,
    ProjectShared,
    User,
}

/// The word that tells a Skill's origin.
pub open spec fn source_label(source: SkillChoiceSource) -> Seq<char> {
    match source {
        SkillChoiceSource::ProjectNative => "project"@,
        SkillChoiceSource::ProjectShared => "shared"@,
        SkillChoiceSource::User => "user"@,
    }
}

impl SkillChoiceSource {
    /// The word that tells the Skill's origin.
    pub fn label(self) -> (label: &'static str)
        ensures
            label@ == source_label(self),
    {
        match self {
            SkillChoiceSource::ProjectNative => "project",
            SkillChoiceSource::ProjectShared => "shared",
            SkillChoiceSource::User => "user",
        }
    }
}

/// One catalog summary of a Skill the composer offers.
#[derive(Clone, Debug, PartialEq, Eq)]
pub struct SkillChoice {
    pub name: String,
    pub description: String,
    pub source: SkillChoiceSource,
}

/// What the draft asks the menu to list.
#[derive(Clone, Copy, Debug, PartialEq, Eq, Structural)]
pub enum Listing {
    Skills,
    Commands,
    Conversations,
    Permissions,
    Effort,
    Models,
}

/// The title on the menu's rule.
pub open spec fn listing_title(listing: Listing) -> Seq<char> {
    match listing {
        Listing::Skills => "Skills"@,
        Listing::Commands => "Commands"@,
        Listing::Conversations => "Conversations"@,
        Listing::Permissions => "Session permissions"@,
        Listing::Effort => "Effort"@,
        Listing::Models => "Models"@,
    }
}

/// The keys on the menu's last row.
pub open spec fn listing_keys(listing: Listing) -> Seq<char> {
    match listing {
        Listing::Skills => " ↑↓ choose · Tab/Enter insert · Esc close"@,
        Listing::Commands => " ↑↓ choose · Tab complete · Enter accept · Esc close"@,
        Listing::Conversations => " ↑↓ choose · Enter open · Esc close"@,
        Listing::Permissions => " ↑↓ choose · Enter review · Esc close"@,
        Listing::Effort => " ←/→ adjust · Enter confirm · Esc cancel"@,
        Listing::Models => " ↑↓ choose · Enter select · Esc close"@,
    }
}

impl Listing {
    /// The title on the menu's rule.
    pub fn title(self) -> (title: &'static str)
        ensures
            title@ == listing_title(self),
    {
        match self {
            Listing::Skills => "Skills",
            Listing::Commands => "Commands",
            Listing::Conversations => "Conversations",
            Listing::Permissions => "Session permissions",
            Listing::Effort => "Effort",
            Listing::Models => "Models",
        }
    }

    /// Whether the listing stands for something while it has no rows, so the menu stays open.
    pub fn stands_without_rows(self) -> (stands: bool)
        ensures
            stands == !(self is Skills || self is Commands),
    {
        match self {
            Listing::Skills => false,
            Listing::Commands => false,
            _ => true,
        }
    }

    /// The keys, on the menu's last row.
    pub fn keys(self) -> (keys: &'static str)
        ensures
            keys@ == listing_keys(self),
    {
        match self {
            Listing::Skills => " ↑↓ choose · Tab/Enter insert · Esc close",
            Listing::Commands => " ↑↓ choose · Tab complete · Enter accept · Esc close",
            Listing::Conversations => " ↑↓ choose · Enter open · Esc close",
            Listing::Permissions => " ↑↓ choose · Enter review · Esc close",
            Listing::Effort => " ←/→ adjust · Enter confirm · Esc cancel",
            Listing::Models => " ↑↓ choose · Enter select · Esc close",
        }
    }
}

/// An exact configured provider and model pair.
#[derive(Clone, Debug, PartialEq, Eq)]
pub struct ModelIdentity {
    pub provider: String,
    pub model: String,
}

/// How one configured model is presented.
#[derive(Clone, Debug, PartialEq, Eq)]
pub struct ModelChoice {
    pub identity: ModelIdentity,
    pub display_name: String,
    pub wire_id: String,
}

/// At most this many skills are kept.
pub const MAX_SKILL_CHOICES: usize = 256;

/// At most this many bytes of skill names and descriptions are kept.
pub const MAX_SKILL_CATALOG_BYTES: usize = 65536;

/// At most this many models are kept.
pub const MAX_MODEL_CHOICES: usize = 256;

/// At most this many bytes of model identities and names are kept.
pub const MAX_MODEL_CATALOG_BYTES: usize = 65536;

/// The length in bytes that `str::len` reports for a text.
pub open spec fn byte_len(text: Seq<char>) -> usize {
    encode_utf8(text).len() as usize
}

/// The bytes one skill takes: its name's and its description's.
pub open spec fn skill_bytes(choice: SkillChoice) -> int {
    byte_len(choice.name@) + byte_len(choice.description@)
}

/// The bytes the first `k` skills take.
pub open spec fn skills_bytes(choices: Seq<SkillChoice>, k: int) -> int
    decreases k,
{
    if k <= 0 {
        0
    } else {
        skills_bytes(choices, k - 1) + skill_bytes(choices[k - 1])
    }
}

/// Whether the skill at `j` is kept once those before it are: it is named and the catalog
/// still fits.
pub open spec fn skill_fits(choices: Seq<SkillChoice>, j: int) -> bool {
    choices[j].name@.len() > 0 && skills_bytes(choices, j + 1) <= MAX_SKILL_CATALOG_BYTES
}

/// Whether the first `k` skills are the ones kept: each fits, and the next one, where there is
/// room for it, does not.
pub open spec fn skills_kept(choices: Seq<SkillChoice>, k: int) -> bool {
    &&& 0 <= k <= choices.len()
    &&& k <= MAX_SKILL_CHOICES
    &&& forall|j: int| 0 <= j < k ==> #[trigger] skill_fits(choices, j)
    &&& (k < choices.len() && k < MAX_SKILL_CHOICES) ==> !skill_fits(choices, k)
}

/// The skills kept from `choices`: the longest leading run of named skills, at most 256 of them,
/// whose names and descriptions fit in 64 KiB.
pub fn retained_skills(choices: Vec<SkillChoice>) -> (kept: Vec<SkillChoice>)
    ensures
        skills_kept(choices@, kept@.len() as int),
        kept@ == choices@.take(kept@.len() as int),
{
    let mut choices = choices;
    let mut bytes: usize = 0;
    let mut k: usize = 0;
    let mut full = false;
    while k < choices.len() && k < MAX_SKILL_CHOICES && !full
        invariant
            k <= choices@.len(),
            k <= MAX_SKILL_CHOICES,
            bytes == skills_bytes(choices@, k as int),
            bytes <= MAX_SKILL_CATALOG_BYTES,
            forall|j: int| 0 <= j < k ==> #[trigger] skill_fits(choices@, j),
            full ==> k < choices@.len() && !skill_fits(choices@, k as int),
        decreases choices@.len() - k, if full { 0int } else { 1int },
    {
        let name_bytes = choices[k].name.as_str().len();
        let description_bytes = choices[k].description.as_str().len();
        let named = choices[k].name.as_str().unicode_len() > 0;
        let next = match bytes.checked_add(name_bytes) {
            Some(total) => total.checked_add(description_bytes),
            None => None,
        };
        proof {
            assert(name_bytes == byte_len(choices@[k as int].name@));
            assert(description_bytes == byte_len(choices@[k as int].description@));
            assert(skills_bytes(choices@, k + 1) == bytes + name_bytes + description_bytes);
        }
        match next {
            Some(total) => {
                if named && total <= MAX_SKILL_CATALOG_BYTES {
                    bytes = total;
                    k += 1;
                } else {
                    full = true;
                }
            },
            None => {
                full = true;
            },
        }
    }
    choices.truncate(k);
    choices
}

/// The bytes one model takes: its provider, model, display name and wire name.
pub open spec fn model_bytes(choice: ModelChoice) -> int {
    byte_len(choice.identity.provider@) + byte_len(choice.identity.model@) + byte_len(
        choice.display_name@,
    ) + byte_len(choice.wire_id@)
}

/// The bytes the first `k` models take.
pub open spec fn models_bytes(choices: Seq<ModelChoice>, k: int) -> int
    decreases k,
{
    if k <= 0 {
        0
    } else {
        models_bytes(choices, k - 1) + model_bytes(choices[k - 1])
    }
}

/// Whether the first `k` models are the ones kept, and whether the catalog says it was limited:
/// each kept model fits in 64 KiB with those before it, at most 256 are kept, and the catalog is
/// limited exactly when a model was left out.
pub open spec fn models_kept(choices: Seq<ModelChoice>, k: int, limited: bool) -> bool {
    &&& 0 <= k <= choices.len()
    &&& k <= MAX_MODEL_CHOICES
    &&& forall|j: int| 0 <= j < k ==> #[trigger] models_bytes(choices, j + 1) <= MAX_MODEL_CATALOG_BYTES
    &&& limited == (k < choices.len())
    &&& k < choices.len() ==> (k == MAX_MODEL_CHOICES || models_bytes(choices, k + 1)
        > MAX_MODEL_CATALOG_BYTES)
}

/// Whether a model matches a query: one of its provider, model, display name and wire name
/// contains the query, ignoring case.
pub open spec fn model_matches(choice: ModelChoice, query: Seq<char>) -> bool {
    let q = lowercased(query);
    ||| contains_text(lowercased(choice.identity.provider@), q)
    ||| contains_text(lowercased(choice.identity.model@), q)
    ||| contains_text(lowercased(choice.display_name@), q)
    ||| contains_text(lowercased(choice.wire_id@), q)
}

/// The models that match `query`, in catalog order, by index.
pub open spec fn matching_models(choices: Seq<ModelChoice>, query: Seq<char>, k: int) -> Seq<int>
    decreases k,
{
    if k <= 0 {
        Seq::empty()
    } else {
        matching_models(choices, query, k - 1) + if model_matches(choices[k - 1], query) {
            seq![k - 1]
        } else {
            Seq::empty()
        }
    }
}

/// A model identity as its provider and model texts.
pub open spec fn identity_pair(identity: ModelIdentity) -> (Seq<char>, Seq<char>) {
    (identity.provider@, identity.model@)
}

impl ModelIdentity {
    /// The same identity, as a separate value.
    pub fn duplicate(&self) -> (copy: Self)
        ensures
            copy.provider@ == self.provider@,
            copy.model@ == self.model@,
    {
        ModelIdentity { provider: self.provider.clone(), model: self.model.clone() }
    }

    /// Whether two identities name the same provider and model.
    pub fn same(&self, other: &Self) -> (same: bool)
        ensures
            same == (self.provider@ == other.provider@ && self.model@ == other.model@),
    {
        same_text(chars_of(self.provider.as_str()).as_slice(), chars_of(other.provider.as_str()).as_slice())
            && same_text(chars_of(self.model.as_str()).as_slice(), chars_of(other.model.as_str()).as_slice())
    }
}

/// The configured models the composer can offer, bounded in count and bytes.
#[derive(Debug)]
pub struct ModelCatalog {
    choices: Vec<ModelChoice>,
    limited: bool,
}

impl ModelCatalog {
    /// The models kept.
    pub closed spec fn choices_view(&self) -> Seq<ModelChoice> {
        self.choices@
    }

    /// Whether models were left out.
    pub closed spec fn limited_view(&self) -> bool {
        self.limited
    }

    /// An empty catalog.
    pub fn new() -> (catalog: Self)
        ensures
            catalog.choices_view() == Seq::<ModelChoice>::empty(),
            !catalog.limited_view(),
    {
        ModelCatalog { choices: Vec::new(), limited: false }
    }

    /// The catalog of `choices`: the leading models that fit 256 entries and 64 KiB, and whether
    /// any was left out.
    pub fn collect(choices: Vec<ModelChoice>) -> (catalog: Self)
        ensures
            models_kept(choices@, catalog.choices_view().len() as int, catalog.limited_view()),
            catalog.choices_view() == choices@.take(catalog.choices_view().len() as int),
    {
        let mut choices = choices;
        let mut bytes: usize = 0;
        let mut k: usize = 0;
        let mut limited = false;
        while k < choices.len() && !limited
            invariant
                k <= choices@.len(),
                k <= MAX_MODEL_CHOICES,
                bytes == models_bytes(choices@, k as int),
                bytes <= MAX_MODEL_CATALOG_BYTES,
                forall|j: int| 0 <= j < k ==> #[trigger] models_bytes(choices@, j + 1) <= MAX_MODEL_CATALOG_BYTES,
                limited ==> k < choices@.len() && (k == MAX_MODEL_CHOICES || models_bytes(choices@, k + 1)
                    > MAX_MODEL_CATALOG_BYTES),
            decreases choices@.len() - k, if limited { 0int } else { 1int },
        {
            let choice = &choices[k];
            let size = choice.identity.provider.as_str().len().saturating_add(
                choice.identity.model.as_str().len(),
            ).saturating_add(choice.display_name.as_str().len()).saturating_add(
                choice.wire_id.as_str().len(),
            );
            proof {
                assert(models_bytes(choices@, k + 1) == bytes + model_bytes(choices@[k as int]));
            }
            if k == MAX_MODEL_CHOICES || bytes.saturating_add(size) > MAX_MODEL_CATALOG_BYTES {
                limited = true;
            } else {
                bytes = bytes + size;
                k += 1;
            }
        }
        choices.truncate(k);
        ModelCatalog { choices, limited }
    }

    /// Whether models were left out.
    pub fn limited(&self) -> (limited: bool)
        ensures
            limited == self.limited_view(),
    {
        self.limited
    }

    /// The models kept.
    pub fn choices(&self) -> (choices: &[ModelChoice])
        ensures
            choices@ == self.choices_view(),
    {
        self.choices.as_slice()
    }

    /// The identities of the models that match `query`, in catalog order.
    pub fn rows(&self, query: &str) -> (rows: Vec<ModelIdentity>)
        ensures
            rows@.map_values(|row: ModelIdentity| identity_pair(row)) == matching_models(
                self.choices_view(),
                query@,
                self.choices_view().len() as int,
            ).map_values(|i: int| identity_pair(self.choices_view()[i].identity)),
    {
        let q = chars_of(lowercase(query).as_str());
        let mut rows: Vec<ModelIdentity> = Vec::new();
        let mut k: usize = 0;
        while k < self.choices.len()
            invariant
                k <= self.choices@.len(),
                q@ == lowercased(query@),
                rows@.map_values(|row: ModelIdentity| identity_pair(row)) == matching_models(
                    self.choices@,
                    query@,
                    k as int,
                ).map_values(|i: int| identity_pair(self.choices@[i].identity)),
            decreases self.choices@.len() - k,
        {
            let choice = &self.choices[k];
            let hit = contains_exec(chars_of(lowercase(choice.identity.provider.as_str()).as_str()).as_slice(), q.as_slice())
                || contains_exec(chars_of(lowercase(choice.identity.model.as_str()).as_str()).as_slice(), q.as_slice())
                || contains_exec(chars_of(lowercase(choice.display_name.as_str()).as_str()).as_slice(), q.as_slice())
                || contains_exec(chars_of(lowercase(choice.wire_id.as_str()).as_str()).as_slice(), q.as_slice());
            let ghost before = rows@;
            proof {
                assert(hit == model_matches(self.choices@[k as int], query@));
            }
            if hit {
                let copy = choice.identity.duplicate();
                rows.push(copy);
                proof {
                    assert(rows@.map_values(|row: ModelIdentity| identity_pair(row)) =~= before.map_values(
                        |row: ModelIdentity| identity_pair(row),
                    ).push(identity_pair(copy)));
                }
            }
            proof {
                let prev = matching_models(self.choices@, query@, k as int);
                let next = matching_models(self.choices@, query@, k + 1);
                if hit {
                    assert(next =~= prev.push(k as int));
                    assert(next.map_values(|i: int| identity_pair(self.choices@[i].identity)) =~= prev.map_values(
                        |i: int| identity_pair(self.choices@[i].identity),
                    ).push(identity_pair(self.choices@[k as int].identity)));
                } else {
                    assert(next =~= prev);
                }
            }
            k += 1;
        }
        rows
    }

    /// The kept model with identity `identity`, if any.
    pub fn choice(&self, identity: &ModelIdentity) -> (found: Option<&ModelChoice>)
        ensures
            match found {
                Some(c) => exists|i: int|
                    0 <= i < self.choices_view().len() && self.choices_view()[i] == *c && (forall|q: int|
                        0 <= q < i ==> !(self.choices_view()[q].identity.provider@ == identity.provider@
                            && self.choices_view()[q].identity.model@ == identity.model@))
                        && c.identity.provider@ == identity.provider@ && c.identity.model@
                        == identity.model@,
                None => forall|i: int|
                    0 <= i < self.choices_view().len() ==> !(self.choices_view()[i].identity.provider@
                        == identity.provider@ && self.choices_view()[i].identity.model@
                        == identity.model@),
            },
    {
        let mut i: usize = 0;
        while i < self.choices.len()
            invariant
                i <= self.choices@.len(),
                forall|q: int|
                    0 <= q < i ==> !(self.choices@[q].identity.provider@ == identity.provider@
                        && self.choices@[q].identity.model@ == identity.model@),
            decreases self.choices@.len() - i,
        {
            if self.choices[i].identity.same(identity) {
                proof {
                    let c = self.choices@[i as int];
                    assert(0 <= i < self.choices_view().len() && self.choices_view()[i as int] == c);
                }
                return Some(&self.choices[i]);
            }
            i += 1;
        }
        None
    }
}

/// The lines above the model rows: any feedback, a note when models were left out, and, when no
/// row is listed, whether none is configured or none matches.
pub open spec fn model_heading_lines(
    feedback: Option<Seq<char>>,
    limited: bool,
    no_rows: bool,
    no_models: bool,
) -> Seq<Seq<char>> {
    (match feedback {
        Some(f) => seq![f],
        None => Seq::empty(),
    }) + (if limited {
        seq!["Model list limited to 256 entries / 64 KiB."@]
    } else {
        Seq::empty()
    }) + (if no_rows {
        seq![
            if no_models {
                "No configured models."@
            } else {
                "No matching models."@
            },
        ]
    } else {
        Seq::empty()
    })
}

impl ModelCatalog {
    /// The lines above the model rows for the query `query`.
    pub fn heading(&self, feedback: Option<&str>, query: &str) -> (lines: Vec<String>)
        ensures
            lines@.map_values(|line: String| line@) == model_heading_lines(
                match feedback {
                    Some(f) => Some(f@),
                    None => None,
                },
                self.limited_view(),
                matching_models(self.choices_view(), query@, self.choices_view().len() as int).len()
                    == 0,
                self.choices_view().len() == 0,
            ),
    {
        let ghost fb = match feedback {
            Some(f) => Some(f@),
            None => None,
        };
        let mut lines: Vec<String> = Vec::new();
        match feedback {
            Some(f) => {
                lines.push(f.to_owned());
            },
            None => {},
        }
        let ghost first = match fb {
            Some(f) => seq![f],
            None => Seq::<Seq<char>>::empty(),
        };
        assert(lines@.map_values(|line: String| line@) =~= first);
        if self.limited {
            let ghost before = lines@;
            proof {
                reveal_strlit("Model list limited to 256 entries / 64 KiB.");
            }
            lines.push("Model list limited to 256 entries / 64 KiB.".to_owned());
            assert(lines@.map_values(|line: String| line@) =~= before.map_values(|line: String| line@).push(
                "Model list limited to 256 entries / 64 KiB."@,
            ));
        }
        let ghost second = first + if self.limited_view() {
            seq!["Model list limited to 256 entries / 64 KiB."@]
        } else {
            Seq::<Seq<char>>::empty()
        };
        assert(lines@.map_values(|line: String| line@) =~= second);
        let rows = self.rows(query);
        proof {
            let matching = matching_models(self.choices_view(), query@, self.choices_view().len() as int);
            assert(rows@.map_values(|row: ModelIdentity| identity_pair(row)).len() == rows@.len());
            assert(matching.map_values(|i: int| identity_pair(self.choices_view()[i].identity)).len() == matching.len());
        }
        if rows.len() == 0 {
            let ghost before = lines@;
            if self.choices.len() == 0 {
                proof {
                    reveal_strlit("No configured models.");
                }
                lines.push("No configured models.".to_owned());
                assert(lines@.map_values(|line: String| line@) =~= before.map_values(|line: String| line@).push(
                    "No configured models."@,
                ));
            } else {
                proof {
                    reveal_strlit("No matching models.");
                }
                lines.push("No matching models.".to_owned());
                assert(lines@.map_values(|line: String| line@) =~= before.map_values(|line: String| line@).push(
                    "No matching models."@,
                ));
            }
        }
        proof {
            let expected = model_heading_lines(
                fb,
                self.limited_view(),
                matching_models(self.choices_view(), query@, self.choices_view().len() as int).len()
                    == 0,
                self.choices_view().len() == 0,
            );
            assert(lines@.map_values(|line: String| line@) =~= expected);
        }
        lines
    }
}

/// The names of the skills among the first `k` whose names start with `query`, in order.
pub open spec fn skills_starting(skills: Seq<SkillChoice>, query: Seq<char>, k: int) -> Seq<
    Seq<char>,
>
    decreases k,
{
    if k <= 0 {
        Seq::empty()
    } else {
        skills_starting(skills, query, k - 1) + if starts_with(skills[k - 1].name@, query) {
            seq![skills[k - 1].name@]
        } else {
            Seq::empty()
        }
    }
}

/// The names of the skills whose names start with `query`, in catalog order.
pub fn skill_rows(skills: &[SkillChoice], query: &str) -> (rows: Vec<String>)
    ensures
        rows@.map_values(|row: String| row@) == skills_starting(skills@, query@, skills@.len() as int),
{
    let q = chars_of(query);
    let mut rows: Vec<String> = Vec::new();
    let mut k: usize = 0;
    while k < skills.len()
        invariant
            k <= skills@.len(),
            q@ == query@,
            rows@.map_values(|row: String| row@) == skills_starting(skills@, query@, k as int),
        decreases skills@.len() - k,
    {
        let name = chars_of(skills[k].name.as_str());
        let ghost before = rows@;
        if starts_with_exec(name.as_slice(), q.as_slice()) {
            rows.push(string_of(name.as_slice()));
        }
        k += 1;
        assert(rows@.map_values(|row: String| row@) =~= skills_starting(skills@, query@, k as int)) by {
            assert(before.map_values(|row: String| row@) == skills_starting(skills@, query@, k - 1));
        }
    }
    rows
}

/// The Commands the composer menu offers under `/`, in the order it lists them. The rest are run
/// by name but not listed.
pub open spec fn menu_commands() -> Seq<Command> {
    seq![Command::New, Command::Resume, Command::Compact, Command::Permissions, Command::Effort]
}

/// The Commands the composer menu offers under `/`.
pub const MENU_COMMANDS: [Command; 5] = [
    Command::New,
    Command::Resume,
    Command::Compact,
    Command::Permissions,
    Command::Effort,
];

/// The listed Commands among the first `k` whose names start with `query`, in listing order.
pub open spec fn commands_starting(query: Seq<char>, k: int) -> Seq<Command>
    decreases k,
{
    if k <= 0 {
        Seq::empty()
    } else {
        commands_starting(query, k - 1) + if starts_with(command_name(menu_commands()[k - 1]), query) {
            seq![menu_commands()[k - 1]]
        } else {
            Seq::empty()
        }
    }
}

/// The listed Commands whose names start with `query`, in listing order.
pub fn command_rows(query: &str) -> (rows: Vec<Command>)
    ensures
        rows@ == commands_starting(query@, 5),
{
    let q = chars_of(query);
    let all = MENU_COMMANDS;
    let mut rows: Vec<Command> = Vec::new();
    let mut k: usize = 0;
    proof {
        assert(all@ =~= menu_commands());
    }
    while k < 5
        invariant
            k <= 5,
            all@ == menu_commands(),
            q@ == query@,
            rows@ == commands_starting(query@, k as int),
        decreases 5 - k,
    {
        let command = all[k];
        let name = chars_of(command.name());
        if starts_with_exec(name.as_slice(), q.as_slice()) {
            rows.push(command);
        }
        k += 1;
    }
    rows
}

} // verus!

verus! {

proof fn lemma_matching_models(choices: Seq<ModelChoice>, query: Seq<char>, k: int, i: int)
    requires
        0 <= k <= choices.len(),
    ensures
        matching_models(choices, query, k).contains(i) == (0 <= i < k && model_matches(choices[i], query)),
    decreases k,
{
    if k > 0 {
        lemma_matching_models(choices, query, k - 1, i);
        let before = matching_models(choices, query, k - 1);
        let added: Seq<int> = if model_matches(choices[k - 1], query) { seq![k - 1] } else { Seq::empty() };
        let all = before + added;
        assert(matching_models(choices, query, k) == all);
        if all.contains(i) {
            let j = choose|j: int| 0 <= j < all.len() && all[j] == i;
            if j < before.len() {
                assert(before[j] == i);
                assert(before.contains(i));
            } else {
                assert(added[j - before.len()] == i);
            }
        }
        if before.contains(i) {
            let j = choose|j: int| 0 <= j < before.len() && before[j] == i;
            assert(all[j] == i);
        }
        if i == k - 1 && model_matches(choices[i], query) {
            assert(all[before.len() as int] == i);
        }
    }
}

/// A model is listed for a query exactly when the lowered query occurs somewhere in its lowered
/// provider, model name, display name or wire id; so a query naming a model's provider lists it.
pub proof fn law_a_model_is_found_by_any_of_its_names(choices: Seq<ModelChoice>, query: Seq<char>, i: int, at: int)
    requires
        0 <= i < choices.len(),
    ensures
        ({
            let q = lowercased(query);
            let c = choices[i];
            let listed = matching_models(choices, query, choices.len() as int).contains(i);
            let found_in = |field: Seq<char>| 0 <= at && at + q.len() <= field.len() && field.subrange(at, at + q.len()) == q;
            &&& found_in(lowercased(c.identity.provider@)) ==> listed
            &&& found_in(lowercased(c.identity.model@)) ==> listed
            &&& found_in(lowercased(c.display_name@)) ==> listed
            &&& found_in(lowercased(c.wire_id@)) ==> listed
            &&& listed ==> (contains_text(lowercased(c.identity.provider@), q) || contains_text(
                lowercased(c.identity.model@),
                q,
            ) || contains_text(lowercased(c.display_name@), q) || contains_text(lowercased(c.wire_id@), q))
        }),
{
    lemma_matching_models(choices, query, choices.len() as int, i);
    let q = lowercased(query);
    let c = choices[i];
    if 0 <= at {
        if at + q.len() <= lowercased(c.identity.provider@).len() {
            assert(lowercased(c.identity.provider@).subrange(at, at + q.len()) == q ==> crate::text::occurs_at(
                lowercased(c.identity.provider@),
                q,
                at,
            ));
        }
        if at + q.len() <= lowercased(c.identity.model@).len() {
            assert(lowercased(c.identity.model@).subrange(at, at + q.len()) == q ==> crate::text::occurs_at(
                lowercased(c.identity.model@),
                q,
                at,
            ));
        }
        if at + q.len() <= lowercased(c.display_name@).len() {
            assert(lowercased(c.display_name@).subrange(at, at + q.len()) == q ==> crate::text::occurs_at(
                lowercased(c.display_name@),
                q,
                at,
            ));
        }
        if at + q.len() <= lowercased(c.wire_id@).len() {
            assert(lowercased(c.wire_id@).subrange(at, at + q.len()) == q ==> crate::text::occurs_at(
                lowercased(c.wire_id@),
                q,
                at,
            ));
        }
    }
}

} // verus!

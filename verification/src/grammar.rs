//! The draft's grammar: which listing a draft asks for, its query and the token the query is in,
//! and whether the whole draft is a Command.
//!
//! Drafts are read as characters; every offset here counts characters.
use vstd::prelude::*;

use crate::composer_menu::Listing;
use crate::text::{
    chars_of, copy_range, is_whitespace, is_whitespace_char, same_text, string_of, trim, trim_start,
    trimmed,
};

verus! {

/// A `/name` typed into a conversation's input and run from there.
#[derive(Clone, Copy, Debug, PartialEq, Eq, Structural)]
pub enum Command {
    New,
    Resume,
    Compact,
    Permissions,
    Effort,
    Model,
    /// Browse the current conversation's saved messages and named heads.
    Tree,
}

/// Every Command, in the order the menu lists them.
pub open spec fn all_commands() -> Seq<Command> {
    seq![
        Command::New,
        Command::Resume,
        Command::Compact,
        Command::Permissions,
        Command::Effort,
        Command::Model,
        Command::Tree,
    ]
}

/// The name after the slash.
pub open spec fn command_name(command: Command) -> Seq<char> {
    match command {
        Command::New => "new"@,
        Command::Resume => "resume"@,
        Command::Compact => "compact"@,
        Command::Permissions => "permissions"@,
        Command::Effort => "effort"@,
        Command::Model => "model"@,
        Command::Tree => "tree"@,
    }
}

/// Other names that complete to the same Command.
pub open spec fn command_aliases(command: Command) -> Seq<Seq<char>> {
    match command {
        Command::Tree => seq!["rewind"@],
        _ => seq![],
    }
}

/// The flags a Command accepts.
pub open spec fn command_flag_list(command: Command) -> Seq<CommandFlag> {
    match command {
        Command::Compact => seq![CommandFlag::Force],
        _ => seq![],
    }
}

/// The listing a completed Command opens.
pub open spec fn command_listing(command: Command) -> Option<Listing> {
    match command {
        Command::Resume => Some(Listing::Conversations),
        Command::Permissions => Some(Listing::Permissions),
        Command::Effort => Some(Listing::Effort),
        Command::Model => Some(Listing::Models),
        _ => None,
    }
}

/// What `Enter` does, shown beside the name.
pub open spec fn command_summary(command: Command) -> Seq<char> {
    match command {
        Command::New => "Start a new conversation"@,
        Command::Resume => "Resume a saved conversation"@,
        Command::Compact => "Compact this conversation's context now"@,
        Command::Permissions => "Review this Session's permissions"@,
        Command::Effort => "Adjust this conversation's reasoning effort"@,
        Command::Model => "Choose this conversation's model"@,
        Command::Tree => "Browse branches or rewind to a saved message"@,
    }
}

/// The first of `commands` whose name is `name`.
pub open spec fn first_with_name(commands: Seq<Command>, name: Seq<char>) -> Option<Command>
    decreases commands.len(),
{
    if commands.len() == 0 {
        None
    } else if command_name(commands[0]) == name {
        Some(commands[0])
    } else {
        first_with_name(commands.drop_first(), name)
    }
}

/// The Command `name` names: by its name, or `rewind` for `Tree`.
pub open spec fn parsed_command(name: Seq<char>) -> Option<Command> {
    match first_with_name(all_commands(), name) {
        Some(command) => Some(command),
        None => if name == "rewind"@ {
            Some(Command::Tree)
        } else {
            None
        },
    }
}

/// The listing the Command named `name` opens, if it names one that lists.
pub open spec fn listing_named(name: Seq<char>) -> Option<Listing> {
    match parsed_command(name) {
        Some(command) => command_listing(command),
        None => None,
    }
}

/// How many characters of `s` come before its first white space.
pub open spec fn first_space(s: Seq<char>) -> nat
    decreases s.len(),
{
    if s.len() == 0 || is_whitespace_char(s[0]) {
        0
    } else {
        1 + first_space(s.drop_first())
    }
}

/// What follows the draft's `$` or `/`, if it starts with one.
pub open spec fn after_sigil(text: Seq<char>) -> Option<Seq<char>> {
    if text.len() > 0 && (text[0] == '$' || text[0] == '/') {
        Some(text.drop_first())
    } else {
        None
    }
}

/// The token after the sigil, up to the first white space.
pub open spec fn sigil_token(text: Seq<char>) -> Option<Seq<char>> {
    match after_sigil(text) {
        Some(rest) => Some(rest.take(first_space(rest) as int)),
        None => None,
    }
}

/// Whether a token is written as a flag: it starts with two dashes.
pub open spec fn is_flag_token(token: Seq<char>) -> bool {
    token.len() >= 2 && token[0] == '-' && token[1] == '-'
}

/// The flag of `command` written as `token`, if it declares one.
pub open spec fn declared_flag(command: Command, token: Seq<char>) -> Option<CommandFlag> {
    if command_flag_list(command).len() > 0 && token == flag_name(command_flag_list(command)[0]) {
        Some(command_flag_list(command)[0])
    } else {
        None
    }
}

/// The flag as it is typed, sigil included.
pub open spec fn flag_name(flag: CommandFlag) -> Seq<char> {
    match flag {
        CommandFlag::Force => "--force"@,
    }
}

/// The bit a flag takes in a set of flags.
pub open spec fn flag_bit(flag: CommandFlag) -> u8 {
    match flag {
        CommandFlag::Force => 1u8,
    }
}

/// Reads the leading flags of `rest` on top of `bits`: white space is skipped; a token that is not
/// written as a flag ends them and begins the query; a flag the Command does not declare makes the
/// draft no Command at all.
pub open spec fn flags_from(command: Command, rest: Seq<char>, bits: u8) -> Option<(u8, Seq<char>)>
    decreases rest.len(),
{
    if rest.len() > 0 && is_whitespace_char(rest[0]) {
        flags_from(command, rest.drop_first(), bits)
    } else if rest.len() == 0 {
        Some((bits, rest))
    } else {
        let end = first_space(rest);
        let token = rest.take(end as int);
        if !is_flag_token(token) {
            Some((bits, rest))
        } else {
            proof {
                lemma_first_space_bound(rest);
            }
            match declared_flag(command, token) {
                Some(flag) => flags_from(command, rest.skip(end as int), bits | flag_bit(flag)),
                None => None,
            }
        }
    }
}

/// The declared flags a whole-Command draft carries, none when it is not a Command.
pub open spec fn draft_flags(text: Seq<char>) -> u8 {
    if text.len() > 0 && text[0] == '/' {
        let rest = text.drop_first();
        let token = rest.take(first_space(rest) as int);
        match parsed_command(token) {
            Some(command) => match flags_from(command, rest.skip(token.len() as int), 0u8) {
                Some((bits, _)) => bits,
                None => 0u8,
            },
            None => 0u8,
        }
    } else {
        0u8
    }
}

/// The Command a whole draft is: `/compact` runs, `/compact please` is text, and a listing
/// Command with a query after it is still that Command.
pub open spec fn exact_command_of(text: Seq<char>) -> Option<Command> {
    if text.len() > 0 && text[0] == '/' {
        let rest = text.drop_first();
        let token = rest.take(first_space(rest) as int);
        match parsed_command(token) {
            Some(command) => match flags_from(command, rest.skip(token.len() as int), 0u8) {
                Some((_, query)) => if trim(query).len() == 0 || command_listing(command) is Some {
                    Some(command)
                } else {
                    None
                },
                None => None,
            },
            None => None,
        }
    } else {
        None
    }
}

/// Whether a character is numeric, as `char::is_numeric` reports.
pub uninterp spec fn numeric_char(c: char) -> bool;

/// Whether a Skill token may not start with `c`: a digit or other numeral, an ASCII capital, or
/// an underscore.
pub open spec fn refused_skill_start(c: char) -> bool {
    numeric_char(c) || ('A' <= c <= 'Z') || c == '_'
}

/// What a draft with its caret at `cursor` is completing: the listing, the query so far, and the
/// token the query is in.
pub open spec fn completion_of(text: Seq<char>, cursor: int) -> Option<(Listing, Seq<char>, Seq<char>)> {
    if text.len() > 0 && text[0] == '$' {
        let rest = text.drop_first();
        let token = rest.take(first_space(rest) as int);
        if cursor == 0 || cursor - 1 > token.len() {
            None
        } else if token.len() > 0 && refused_skill_start(token[0]) {
            None
        } else {
            Some((Listing::Skills, rest.take(cursor - 1), token))
        }
    } else if text.len() > 0 && text[0] == '/' {
        let rest = text.drop_first();
        let token = rest.take(first_space(rest) as int);
        if listing_named(token) is Some && rest.len() > token.len() {
            Some((listing_named(token)->0, trim(rest.skip(token.len() as int)), token))
        } else if cursor == 0 || cursor - 1 > token.len() {
            None
        } else {
            Some((Listing::Commands, rest.take(cursor - 1), token))
        }
    } else {
        None
    }
}

/// The first white-space-separated word of `s`.
pub open spec fn first_word(s: Seq<char>) -> Option<Seq<char>> {
    let t = trim_start(s);
    if t.len() == 0 {
        None
    } else {
        Some(t.take(first_space(t) as int))
    }
}

/// Whether the draft binds the Skill `name`: it starts with `$` and its first word is the name.
pub open spec fn binds_skill(text: Seq<char>, name: Seq<char>) -> bool {
    text.len() > 0 && text[0] == '$' && first_word(text.drop_first()) == Some(name)
}

pub proof fn lemma_first_space_bound(s: Seq<char>)
    ensures
        first_space(s) <= s.len(),
        first_space(s) < s.len() ==> is_whitespace_char(s[first_space(s) as int]),
        forall|j: int| 0 <= j < first_space(s) ==> !is_whitespace_char(#[trigger] s[j]),
    decreases s.len(),
{
    if s.len() > 0 && !is_whitespace_char(s[0]) {
        lemma_first_space_bound(s.drop_first());
        assert forall|j: int| 0 <= j < first_space(s) implies !is_whitespace_char(#[trigger] s[j]) by {
            if j > 0 {
                assert(s[j] == s.drop_first()[j - 1]);
            }
        }
    }
}

proof fn lemma_first_space_at(s: Seq<char>, k: int)
    requires
        0 <= k <= s.len(),
        forall|j: int| 0 <= j < k ==> !is_whitespace_char(#[trigger] s[j]),
        k == s.len() || is_whitespace_char(s[k]),
    ensures
        first_space(s) == k,
    decreases k,
{
    if k > 0 {
        assert forall|j: int| 0 <= j < k - 1 implies !is_whitespace_char(#[trigger] s.drop_first()[j]) by {
            assert(s.drop_first()[j] == s[j + 1]);
        }
        if k < s.len() {
            assert(s.drop_first()[k - 1] == s[k]);
        }
        lemma_first_space_at(s.drop_first(), k - 1);
    }
}

/// Where the run of non-white-space characters that starts at `from` ends.
fn word_end(text: &[char], from: usize) -> (end: usize)
    requires
        from <= text@.len(),
    ensures
        from <= end <= text@.len(),
        end - from == first_space(text@.skip(from as int)),
{
    let n = text.len();
    let mut end = from;
    while end < n && !is_whitespace(text[end])
        invariant
            n == text@.len(),
            from <= end <= n,
            forall|j: int| from <= j < end ==> !is_whitespace_char(#[trigger] text@[j]),
        decreases n - end,
    {
        end = end + 1;
    }
    proof {
        let s = text@.skip(from as int);
        assert forall|j: int| 0 <= j < end - from implies !is_whitespace_char(#[trigger] s[j]) by {
            assert(s[j] == text@[from + j]);
        }
        if end < n {
            assert(s[end - from] == text@[end as int]);
        }
        lemma_first_space_at(s, end - from);
    }
    end
}

/// Where `text` has its first character that is not white space, from `from` on.
fn skip_spaces(text: &[char], from: usize) -> (start: usize)
    requires
        from <= text@.len(),
    ensures
        from <= start <= text@.len(),
        trim_start(text@.skip(from as int)) == text@.skip(start as int),
        forall|j: int| from <= j < start ==> is_whitespace_char(#[trigger] text@[j]),
        start < text@.len() ==> !is_whitespace_char(text@[start as int]),
{
    let n = text.len();
    let mut start = from;
    while start < n && is_whitespace(text[start])
        invariant
            n == text@.len(),
            from <= start <= n,
            forall|j: int| from <= j < start ==> is_whitespace_char(#[trigger] text@[j]),
            trim_start(text@.skip(from as int)) == trim_start(text@.skip(start as int)),
        decreases n - start,
    {
        proof {
            assert(text@.skip(start as int).drop_first() =~= text@.skip(start + 1));
        }
        start = start + 1;
    }
    proof {
        let s = text@.skip(start as int);
        if s.len() > 0 {
            assert(s[0] == text@[start as int]);
        }
    }
    start
}

/// The set of declared flags one draft carries.
#[derive(Clone, Copy, Debug, Default, PartialEq, Eq, Structural)]
pub struct CommandFlags {
    bits: u8,
}

impl CommandFlags {
    /// The flags, one bit each.
    pub closed spec fn bits_of(self) -> u8 {
        self.bits
    }

    /// Whether `flag` is in the set.
    pub open spec fn has(self, flag: CommandFlag) -> bool {
        self.bits_of() & flag_bit(flag) != 0
    }

    /// No flags.
    pub fn none() -> (flags: Self)
        ensures
            flags.bits_of() == 0,
    {
        CommandFlags { bits: 0 }
    }

    /// The bit `flag` takes.
    pub fn bit(flag: CommandFlag) -> (bit: u8)
        ensures
            bit == flag_bit(flag),
    {
        match flag {
            CommandFlag::Force => 1,
        }
    }

    /// Whether `flag` is in the set.
    pub fn contains(self, flag: CommandFlag) -> (present: bool)
        ensures
            present == self.has(flag),
    {
        self.bits & CommandFlags::bit(flag) != 0
    }

    /// The set with `flag` added.
    pub fn with(self, flag: CommandFlag) -> (flags: Self)
        ensures
            flags.bits_of() == self.bits_of() | flag_bit(flag),
            flags.has(flag),
    {
        let bit = CommandFlags::bit(flag);
        let old_bits = self.bits;
        let bits = old_bits | bit;
        assert((bits & bit) != 0) by (bit_vector)
            requires
                bits == old_bits | bit,
                bit == 1u8,
        ;
        CommandFlags { bits }
    }
}

/// One typed modifier on a Command: what it does differently, never what it acts on.
#[derive(Clone, Copy, Debug, PartialEq, Eq, Structural)]
pub enum CommandFlag {
    /// Run the action even where the runtime would otherwise decline it as unnecessary.
    Force,
}

impl CommandFlag {
    /// The flag as it is typed, sigil included.
    pub fn name(self) -> (name: &'static str)
        ensures
            name@ == flag_name(self),
    {
        match self {
            CommandFlag::Force => "--force",
        }
    }
}

impl Command {
    /// Every Command, in the order the menu lists them.
    pub const ALL: [Command; 7] = [
        Command::New,
        Command::Resume,
        Command::Compact,
        Command::Permissions,
        Command::Effort,
        Command::Model,
        Command::Tree,
    ];

    /// The name after the slash.
    pub fn name(self) -> (name: &'static str)
        ensures
            name@ == command_name(self),
    {
        match self {
            Command::New => "new",
            Command::Resume => "resume",
            Command::Compact => "compact",
            Command::Permissions => "permissions",
            Command::Effort => "effort",
            Command::Model => "model",
            Command::Tree => "tree",
        }
    }

    /// Other names that complete to the same Command.
    pub fn aliases(self) -> (words: &'static [&'static str])
        ensures
            words@.len() == command_aliases(self).len(),
            forall|k: int| 0 <= k < words@.len() ==> #[trigger] words@[k]@ == command_aliases(self)[k],
    {
        match self {
            Command::Tree => &["rewind"],
            _ => &[],
        }
    }

    /// The flags this Command accepts.
    pub fn flags(self) -> (flags: &'static [CommandFlag])
        ensures
            flags@ == command_flag_list(self),
    {
        match self {
            Command::Compact => &[CommandFlag::Force],
            _ => &[],
        }
    }

    /// The listing a completed Command opens, whose query is the text after it.
    pub fn lists(self) -> (listing: Option<Listing>)
        ensures
            listing == command_listing(self),
    {
        match self {
            Command::Resume => Some(Listing::Conversations),
            Command::Permissions => Some(Listing::Permissions),
            Command::Effort => Some(Listing::Effort),
            Command::Model => Some(Listing::Models),
            _ => None,
        }
    }

    /// What `Enter` does, shown beside the name.
    pub fn summary(self) -> (summary: &'static str)
        ensures
            summary@ == command_summary(self),
    {
        match self {
            Command::New => "Start a new conversation",
            Command::Resume => "Resume a saved conversation",
            Command::Compact => "Compact this conversation's context now",
            Command::Permissions => "Review this Session's permissions",
            Command::Effort => "Adjust this conversation's reasoning effort",
            Command::Model => "Choose this conversation's model",
            Command::Tree => "Browse branches or rewind to a saved message",
        }
    }

    /// The Command `name` names, by its name or `rewind`.
    pub fn parse(name: &str) -> (command: Option<Command>)
        ensures
            command == parsed_command(name@),
    {
        let wanted = chars_of(name);
        Command::parse_chars(wanted.as_slice())
    }

    /// The Command the characters `name` name.
    fn parse_chars(name: &[char]) -> (command: Option<Command>)
        ensures
            command == parsed_command(name@),
    {
        let all = Command::ALL;
        assert(all@ =~= all_commands());
        assert(all_commands().skip(0) =~= all_commands());
        let mut i: usize = 0;
        while i < 7
            invariant
                all@ == all_commands(),
                i <= 7,
                first_with_name(all_commands(), name@) == first_with_name(all_commands().skip(i as int), name@),
            decreases 7 - i,
        {
            let command = all[i];
            proof {
                assert(all_commands().skip(i as int)[0] == command);
                assert(all_commands().skip(i as int).drop_first() =~= all_commands().skip(i + 1));
            }
            let spelled = chars_of(command.name());
            if same_text(spelled.as_slice(), name) {
                return Some(command);
            }
            i = i + 1;
        }
        assert(all_commands().skip(7) =~= Seq::<Command>::empty());
        let rewind = chars_of("rewind");
        if same_text(rewind.as_slice(), name) {
            Some(Command::Tree)
        } else {
            None
        }
    }
}

/// Reads the leading flags of `text` from `from` on: the flags, and where the query after them
/// begins; nothing when a flag the Command does not declare is typed.
fn split_flags_at(command: Command, text: &[char], from: usize) -> (split: Option<(CommandFlags, usize)>)
    requires
        from <= text@.len(),
    ensures
        match flags_from(command, text@.skip(from as int), 0u8) {
            Some((bits, query)) => split matches Some((flags, at)) && flags.bits_of() == bits && at
                <= text@.len() && text@.skip(at as int) == query,
            None => split is None,
        },
{
    let n = text.len();
    let mut flags = CommandFlags::none();
    let mut pos = from;
    let declared = command.flags();
    loop
        invariant
            n == text@.len(),
            from <= pos <= n,
            declared@ == command_flag_list(command),
            flags_from(command, text@.skip(from as int), 0u8) == flags_from(
                command,
                text@.skip(pos as int),
                flags.bits_of(),
            ),
        decreases n - pos,
    {
        let start = skip_spaces(text, pos);
        proof {
            lemma_flags_skip_spaces(command, text@, pos as int, start as int, flags.bits_of());
        }
        if start == n {
            assert(text@.skip(start as int) =~= Seq::<char>::empty());
            return Some((flags, start));
        }
        let end = word_end(text, start);
        let token = copy_range(text, start, end);
        let ghost rest = text@.skip(start as int);
        proof {
            assert(rest[0] == text@[start as int]);
            assert(token@ =~= rest.take(first_space(rest) as int));
        }
        if !(token.len() >= 2 && token[0] == '-' && token[1] == '-') {
            return Some((flags, start));
        }
        if declared.len() == 0 {
            return None;
        }
        let flag = declared[0];
        let spelled = chars_of(flag.name());
        if !same_text(spelled.as_slice(), token.as_slice()) {
            return None;
        }
        proof {
            assert(rest.skip(first_space(rest) as int) =~= text@.skip(end as int));
        }
        flags = flags.with(flag);
        pos = end;
    }
}

proof fn lemma_flags_skip_spaces(command: Command, text: Seq<char>, pos: int, start: int, bits: u8)
    requires
        0 <= pos <= start <= text.len(),
        forall|j: int| pos <= j < start ==> is_whitespace_char(#[trigger] text[j]),
    ensures
        flags_from(command, text.skip(pos), bits) == flags_from(command, text.skip(start), bits),
    decreases start - pos,
{
    if pos < start {
        assert(text.skip(pos)[0] == text[pos]);
        assert(text.skip(pos).drop_first() =~= text.skip(pos + 1));
        lemma_flags_skip_spaces(command, text, pos + 1, start, bits);
    }
}

/// Splits the text after a Command's name into its leading declared flags and the query after
/// them; nothing when a typed flag is not one the Command declares.
pub fn split_flags(command: Command, trailing: &str) -> (split: Option<(CommandFlags, String)>)
    ensures
        match flags_from(command, trailing@, 0u8) {
            Some((bits, query)) => split matches Some((flags, rest)) && flags.bits_of() == bits
                && rest@ == query,
            None => split is None,
        },
{
    let text = chars_of(trailing);
    assert(text@.skip(0) =~= text@);
    match split_flags_at(command, text.as_slice(), 0) {
        Some((flags, at)) => {
            let rest = copy_range(text.as_slice(), at, text.len());
            assert(rest@ =~= text@.skip(at as int));
            Some((flags, string_of(rest.as_slice())))
        },
        None => None,
    }
}

/// The token after the sigil, up to the first white space.
pub fn initial_token(text: &str) -> (token: Option<String>)
    ensures
        match sigil_token(text@) {
            Some(t) => token matches Some(s) && s@ == t,
            None => token is None,
        },
{
    let chars = chars_of(text);
    if chars.len() == 0 || !(chars[0] == '$' || chars[0] == '/') {
        return None;
    }
    let end = word_end(chars.as_slice(), 1);
    let token = copy_range(chars.as_slice(), 1, end);
    proof {
        assert(chars@.skip(1) =~= chars@.drop_first());
        assert(token@ =~= chars@.drop_first().take(end - 1));
    }
    Some(string_of(token.as_slice()))
}

/// How many characters the token after the sigil holds; none without a sigil.
pub fn command_token_len(text: &str) -> (length: usize)
    ensures
        length == match sigil_token(text@) {
            Some(t) => t.len(),
            None => 0,
        },
{
    let chars = chars_of(text);
    if chars.len() == 0 || !(chars[0] == '$' || chars[0] == '/') {
        return 0;
    }
    let end = word_end(chars.as_slice(), 1);
    proof {
        assert(chars@.skip(1) =~= chars@.drop_first());
    }
    end - 1
}

/// The declared flags a whole-Command draft carries, none when it is not a Command.
pub fn command_flags(text: &str) -> (flags: CommandFlags)
    ensures
        flags.bits_of() == draft_flags(text@),
{
    let chars = chars_of(text);
    if chars.len() == 0 || chars[0] != '/' {
        return CommandFlags::none();
    }
    let end = word_end(chars.as_slice(), 1);
    let token = copy_range(chars.as_slice(), 1, end);
    proof {
        assert(chars@.skip(1) =~= chars@.drop_first());
        assert(token@ =~= chars@.drop_first().take(end - 1));
        assert(chars@.drop_first().skip(end - 1) =~= chars@.skip(end as int));
    }
    match Command::parse_chars(token.as_slice()) {
        Some(command) => match split_flags_at(command, chars.as_slice(), end) {
            Some((flags, _)) => flags,
            None => CommandFlags::none(),
        },
        None => CommandFlags::none(),
    }
}

/// The Command a whole draft is, or nothing.
pub fn exact_command(text: &str) -> (command: Option<Command>)
    ensures
        command == exact_command_of(text@),
{
    let chars = chars_of(text);
    if chars.len() == 0 || chars[0] != '/' {
        return None;
    }
    let end = word_end(chars.as_slice(), 1);
    let token = copy_range(chars.as_slice(), 1, end);
    proof {
        assert(chars@.skip(1) =~= chars@.drop_first());
        assert(token@ =~= chars@.drop_first().take(end - 1));
        assert(chars@.drop_first().skip(end - 1) =~= chars@.skip(end as int));
    }
    let command = match Command::parse_chars(token.as_slice()) {
        Some(command) => command,
        None => {
            return None;
        },
    };
    match split_flags_at(command, chars.as_slice(), end) {
        Some((_, at)) => {
            let query = copy_range(chars.as_slice(), at, chars.len());
            assert(query@ =~= chars@.skip(at as int));
            let kept = trimmed(query.as_slice());
            if kept.len() == 0 || command.lists().is_some() {
                Some(command)
            } else {
                None
            }
        },
        None => None,
    }
}

/// Whether the draft binds the Skill `name`: `$` and then the name as its first word.
pub fn binding_matches(text: &str, name: &str) -> (bound: bool)
    ensures
        bound == binds_skill(text@, name@),
{
    let chars = chars_of(text);
    if chars.len() == 0 || chars[0] != '$' {
        return false;
    }
    let start = skip_spaces(chars.as_slice(), 1);
    proof {
        assert(chars@.skip(1) =~= chars@.drop_first());
    }
    if start == chars.len() {
        assert(chars@.skip(start as int) =~= Seq::<char>::empty());
        return false;
    }
    let end = word_end(chars.as_slice(), start);
    let word = copy_range(chars.as_slice(), start, end);
    assert(word@ =~= chars@.skip(start as int).take(end - start));
    let wanted = chars_of(name);
    same_text(word.as_slice(), wanted.as_slice())
}

/// Whether `c` is numeric, by `char::is_numeric`.
#[verifier::external_body]
fn is_numeric(c: char) -> (numeric: bool)
    ensures
        numeric == numeric_char(c),
{
    c.is_numeric()
}

/// What the draft is completing: the listing, the query so far, and the token the query is in.
#[derive(Debug, PartialEq, Eq)]
pub struct Completion {
    pub listing: Listing,
    pub query: String,
    pub token: String,
}

/// What a draft with its caret at character `cursor` is completing, if anything.
pub fn completion(text: &str, cursor: usize) -> (found: Option<Completion>)
    ensures
        match completion_of(text@, cursor as int) {
            Some((listing, query, token)) => found matches Some(c) && c.listing == listing
                && c.query@ == query && c.token@ == token,
            None => found is None,
        },
{
    let chars = chars_of(text);
    if chars.len() == 0 || !(chars[0] == '$' || chars[0] == '/') {
        return None;
    }
    let end = word_end(chars.as_slice(), 1);
    let token = copy_range(chars.as_slice(), 1, end);
    let ghost rest = chars@.drop_first();
    proof {
        assert(chars@.skip(1) =~= rest);
        assert(token@ =~= rest.take(end - 1));
    }
    let token_len = end - 1;
    if chars[0] == '$' {
        if cursor == 0 || cursor - 1 > token_len {
            return None;
        }
        if token_len > 0 {
            let first = token[0];
            if is_numeric(first) || ('A' <= first && first <= 'Z') || first == '_' {
                return None;
            }
        }
        let query = copy_range(chars.as_slice(), 1, cursor);
        assert(query@ =~= rest.take(cursor - 1));
        return Some(
            Completion {
                listing: Listing::Skills,
                query: string_of(query.as_slice()),
                token: string_of(token.as_slice()),
            },
        );
    }
    let listing = match Command::parse_chars(token.as_slice()) {
        Some(command) => command.lists(),
        None => None,
    };
    if let Some(listing) = listing {
        if chars.len() - 1 > token_len {
            let after = copy_range(chars.as_slice(), end, chars.len());
            assert(after@ =~= rest.skip(token@.len() as int));
            let query = trimmed(after.as_slice());
            return Some(
                Completion {
                    listing,
                    query: string_of(query.as_slice()),
                    token: string_of(token.as_slice()),
                },
            );
        }
    }
    if cursor == 0 || cursor - 1 > token_len {
        return None;
    }
    let query = copy_range(chars.as_slice(), 1, cursor);
    assert(query@ =~= rest.take(cursor - 1));
    Some(
        Completion {
            listing: Listing::Commands,
            query: string_of(query.as_slice()),
            token: string_of(token.as_slice()),
        },
    )
}

} // verus!

verus! {

/// A draft completes only when it starts with `$` or `/`; it lists skills exactly when it starts
/// with `$`, and then its token never starts with a digit, a capital letter or an underscore; the
/// token is always the draft's first word after that sign.
pub proof fn law_what_a_draft_can_complete(text: Seq<char>, cursor: int)
    ensures
        !(text.len() > 0 && (text[0] == '$' || text[0] == '/')) ==> completion_of(text, cursor) is None,
        completion_of(text, cursor) matches Some((listing, query, token)) ==> {
            &&& (listing == Listing::Skills) == (text[0] == '$')
            &&& token == text.drop_first().take(first_space(text.drop_first()) as int)
            &&& (listing == Listing::Skills && token.len() > 0 ==> !refused_skill_start(token[0]))
        },
{
}

} // verus!

verus! {

proof fn lemma_found_at(commands: Seq<Command>, name: Seq<char>, k: int)
    requires
        0 <= k < commands.len(),
        command_name(commands[k]) == name,
        forall|j: int| 0 <= j < k ==> command_name(#[trigger] commands[j]) != name,
    ensures
        first_with_name(commands, name) == Some(commands[k]),
    decreases k,
{
    if k > 0 {
        assert(command_name(commands[0]) != name);
        let rest = commands.drop_first();
        assert forall|j: int| 0 <= j < k - 1 implies command_name(#[trigger] rest[j]) != name by {
            assert(rest[j] == commands[j + 1]);
        };
        lemma_found_at(rest, name, k - 1);
    }
}

proof fn lemma_found_nowhere(commands: Seq<Command>, name: Seq<char>)
    requires
        forall|j: int| 0 <= j < commands.len() ==> command_name(#[trigger] commands[j]) != name,
    ensures
        first_with_name(commands, name) is None,
    decreases commands.len(),
{
    if commands.len() > 0 {
        assert(command_name(commands[0]) != name);
        let rest = commands.drop_first();
        assert forall|j: int| 0 <= j < rest.len() implies command_name(#[trigger] rest[j]) != name by {
            assert(rest[j] == commands[j + 1]);
        };
        lemma_found_nowhere(rest, name);
    }
}

proof fn lemma_names(command: Command)
    ensures
        command_name(command) != "rewind"@,
        command_name(command) != Seq::<char>::empty(),
        command_name(command) != "/new"@,
        forall|other: Command| other != command ==> command_name(other) != command_name(command),
{
    reveal_strlit("new");
    reveal_strlit("resume");
    reveal_strlit("compact");
    reveal_strlit("permissions");
    reveal_strlit("effort");
    reveal_strlit("model");
    reveal_strlit("tree");
    reveal_strlit("rewind");
    reveal_strlit("/new");
    assert forall|other: Command| other != command implies command_name(other) != command_name(command) by {
        let a = command_name(other);
        let b = command_name(command);
        if a == b {
            assert(a.len() == b.len());
            assert(a[0] == b[0]);
        }
    };
    let n = command_name(command);
    assert(n.len() > 0) by {
        match command {
            Command::New => {},
            Command::Resume => {},
            Command::Compact => {},
            Command::Permissions => {},
            Command::Effort => {},
            Command::Model => {},
            Command::Tree => {},
        }
    };
    if n == "rewind"@ {
        assert(n.len() == 6 && n[2] == 'w');
    }
    if n == "/new"@ {
        assert(n[0] == '/');
    }
}

/// Every Command is found by its own name, `rewind` finds `Tree`, and neither an empty name nor
/// one that still carries its slash names any Command.
pub proof fn law_each_command_answers_to_its_name(command: Command)
    ensures
        parsed_command(command_name(command)) == Some(command),
        parsed_command("rewind"@) == Some(Command::Tree),
        parsed_command(Seq::<char>::empty()) is None,
        parsed_command("/new"@) is None,
{
    reveal_strlit("rewind");
    reveal_strlit("/new");
    assert("/new"@ != "rewind"@) by {
        assert("/new"@.len() == 4);
    };
    assert(Seq::<char>::empty() != "rewind"@) by {
        assert("rewind"@.len() == 6);
    };
    let all = all_commands();
    assert forall|j: int| 0 <= j < all.len() implies {
        &&& command_name(#[trigger] all[j]) != "rewind"@
        &&& command_name(all[j]) != Seq::<char>::empty()
        &&& command_name(all[j]) != "/new"@
    } by {
        lemma_names(all[j]);
    };
    lemma_found_nowhere(all, "rewind"@);
    lemma_found_nowhere(all, Seq::<char>::empty());
    lemma_found_nowhere(all, "/new"@);
    let k: int = match command {
        Command::New => 0,
        Command::Resume => 1,
        Command::Compact => 2,
        Command::Permissions => 3,
        Command::Effort => 4,
        Command::Model => 5,
        Command::Tree => 6,
    };
    assert(all[k] == command);
    assert forall|j: int| 0 <= j < k implies command_name(#[trigger] all[j]) != command_name(command) by {
        lemma_names(command);
        assert(all[j] != command);
    };
    lemma_found_at(all, command_name(command), k);
}

} // verus!

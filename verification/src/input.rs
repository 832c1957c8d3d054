//! One editable line of text with a caret: the composer's, a filter's, an editor's.
//!
//! Offsets count characters. The caret sits between characters, from `0` before the first to the
//! text's length after the last; a drag leaves an anchor where it began.
use vstd::prelude::*;

use crate::text::{chars_of, is_whitespace, is_whitespace_char, string_of};

verus! {

/// A caret motion inside one input.
#[derive(Clone, Copy, Debug, PartialEq, Eq, Structural)]
pub enum Motion {
    /// One character back.
    Left,
    /// One character forward.
    Right,
    /// To the start of the caret's line.
    LineStart,
    /// To the end of the caret's line.
    LineEnd,
}

/// One edit addressed to whichever input holds the cursor.
#[derive(Clone, Debug, PartialEq, Eq)]
pub enum TextIntent {
    Paste(String),
    Insert(char),
    Newline,
    DeleteBackward,
    DeleteForward,
    DeleteWordBackward,
    KillToLineStart,
    KillToLineEnd,
    Move(Motion),
    Submit,
}

/// Where the start of the line holding offset `k` is.
pub open spec fn line_start(t: Seq<char>, k: int) -> int
    decreases k,
{
    if k <= 0 {
        0
    } else if t[k - 1] == '\n' {
        k
    } else {
        line_start(t, k - 1)
    }
}

/// Where the end of the line holding offset `k` is.
pub open spec fn line_end(t: Seq<char>, k: int) -> int
    decreases t.len() - k,
{
    if k >= t.len() {
        t.len() as int
    } else if t[k] == '\n' {
        k
    } else {
        line_end(t, k + 1)
    }
}

/// Walks back from `k` over characters whose white-space-ness is `ws`.
pub open spec fn back_over(t: Seq<char>, k: int, ws: bool) -> int
    decreases k,
{
    if k <= 0 {
        0
    } else if is_whitespace_char(t[k - 1]) == ws {
        back_over(t, k - 1, ws)
    } else {
        k
    }
}

/// Where the word before offset `k` starts: white space, then the word, are walked back over.
pub open spec fn word_start(t: Seq<char>, k: int) -> int {
    back_over(t, back_over(t, k, true), false)
}

/// `t` with `inserted` placed at offset `k`.
pub open spec fn splice(t: Seq<char>, k: int, inserted: Seq<char>) -> Seq<char> {
    t.subrange(0, k) + inserted + t.subrange(k, t.len() as int)
}

/// `t` without the characters from `a` up to `b`.
pub open spec fn cut(t: Seq<char>, a: int, b: int) -> Seq<char> {
    t.subrange(0, a) + t.subrange(b, t.len() as int)
}

proof fn lemma_back_over_bounds(t: Seq<char>, k: int, ws: bool)
    requires
        0 <= k <= t.len(),
    ensures
        0 <= back_over(t, k, ws) <= k,
    decreases k,
{
    if k > 0 && is_whitespace_char(t[k - 1]) == ws {
        lemma_back_over_bounds(t, k - 1, ws);
    }
}

/// A caret's place on screen, in rows and columns from a text's first cell.
#[derive(Clone, Copy, Debug, PartialEq, Eq, Structural)]
pub struct Caret {
    pub row: u16,
    pub column: u16,
}

/// An editable text and its caret.
#[derive(Debug, PartialEq, Eq)]
pub struct TextInput {
    chars: Vec<char>,
    cursor: usize,
    anchor: Option<usize>,
}

impl TextInput {
    #[verifier::type_invariant]
    spec fn well_formed(self) -> bool {
        &&& self.cursor <= self.chars@.len()
        &&& self.anchor matches Some(a) ==> a <= self.chars@.len()
    }

    /// The text, as characters.
    pub closed spec fn text_of(self) -> Seq<char> {
        self.chars@
    }

    /// The caret's offset.
    pub closed spec fn caret_of(self) -> int {
        self.cursor as int
    }

    /// Where a drag began, while one is held.
    pub closed spec fn anchor_of(self) -> Option<int> {
        match self.anchor {
            Some(a) => Some(a as int),
            None => None,
        }
    }

    /// An empty input with the caret at its start.
    pub fn new() -> (input: Self)
        ensures
            input.text_of() == Seq::<char>::empty(),
            input.caret_of() == 0,
            input.anchor_of() is None,
    {
        TextInput { chars: Vec::new(), cursor: 0, anchor: None }
    }

    /// The text, as characters.
    pub fn chars(&self) -> (chars: &[char])
        ensures
            chars@ == self.text_of(),
    {
        self.chars.as_slice()
    }

    /// The text.
    pub fn text(&self) -> (text: String)
        ensures
            text@ == self.text_of(),
    {
        string_of(self.chars.as_slice())
    }

    /// Whether nothing has been typed.
    pub fn is_empty(&self) -> (empty: bool)
        ensures
            empty == (self.text_of().len() == 0),
    {
        self.chars.len() == 0
    }

    /// The caret's offset.
    pub fn cursor(&self) -> (cursor: usize)
        ensures
            cursor == self.caret_of(),
            cursor <= self.text_of().len(),
    {
        proof {
            use_type_invariant(self);
        }
        self.cursor
    }

    /// The text between the drag's anchor and the caret, as offsets, while a drag is held.
    pub fn selection(&self) -> (range: Option<(usize, usize)>)
        ensures
            self.anchor_of() is None ==> range is None,
            self.anchor_of() matches Some(a) ==> range == Some(
                if a <= self.caret_of() {
                    (a as usize, self.caret_of() as usize)
                } else {
                    (self.caret_of() as usize, a as usize)
                },
            ),
    {
        match self.anchor {
            None => None,
            Some(a) => if a <= self.cursor {
                Some((a, self.cursor))
            } else {
                Some((self.cursor, a))
            },
        }
    }

    fn splice_at_caret(&mut self, inserted: &[char])
        ensures
            final(self).text_of() == splice(old(self).text_of(), old(self).caret_of(), inserted@),
            final(self).caret_of() == old(self).caret_of() + inserted@.len(),
            final(self).anchor_of() is None,
    {
        proof {
            use_type_invariant(&*self);
        }
        let ghost before = self.chars@;
        let k = self.cursor;
        let mut next: Vec<char> = Vec::new();
        let mut i: usize = 0;
        while i < k
            invariant
                k <= before.len(),
                before == self.chars@,
                i <= k,
                next@ == before.subrange(0, i as int),
            decreases k - i,
        {
            next.push(self.chars[i]);
            i = i + 1;
            assert(next@ =~= before.subrange(0, i as int));
        }
        let mut j: usize = 0;
        while j < inserted.len()
            invariant
                next@ == before.subrange(0, k as int) + inserted@.subrange(0, j as int),
                j <= inserted@.len(),
            decreases inserted@.len() - j,
        {
            next.push(inserted[j]);
            j = j + 1;
            assert(next@ =~= before.subrange(0, k as int) + inserted@.subrange(0, j as int));
        }
        assert(inserted@.subrange(0, j as int) =~= inserted@);
        let cursor = next.len();
        let mut m: usize = k;
        while m < self.chars.len()
            invariant
                k <= m <= before.len(),
                before == self.chars@,
                next@ == before.subrange(0, k as int) + inserted@ + before.subrange(k as int, m as int),
            decreases before.len() - m,
        {
            next.push(self.chars[m]);
            m = m + 1;
            assert(next@ =~= before.subrange(0, k as int) + inserted@ + before.subrange(
                k as int,
                m as int,
            ));
        }
        *self = TextInput { chars: next, cursor, anchor: None };
    }

    fn cut_range(&mut self, a: usize, b: usize)
        requires
            a <= b <= old(self).text_of().len(),
        ensures
            final(self).text_of() == cut(old(self).text_of(), a as int, b as int),
            final(self).caret_of() == a,
            final(self).anchor_of() is None,
    {
        let ghost before = self.chars@;
        let mut next: Vec<char> = Vec::new();
        let mut i: usize = 0;
        while i < a
            invariant
                a <= b <= before.len(),
                before == self.chars@,
                i <= a,
                next@ == before.subrange(0, i as int),
            decreases a - i,
        {
            next.push(self.chars[i]);
            i = i + 1;
            assert(next@ =~= before.subrange(0, i as int));
        }
        let mut m: usize = b;
        while m < self.chars.len()
            invariant
                a <= b <= m <= before.len(),
                before == self.chars@,
                next@ == before.subrange(0, a as int) + before.subrange(b as int, m as int),
            decreases before.len() - m,
        {
            next.push(self.chars[m]);
            m = m + 1;
            assert(next@ =~= before.subrange(0, a as int) + before.subrange(b as int, m as int));
        }
        *self = TextInput { chars: next, cursor: a, anchor: None };
    }

    /// Types one character at the caret.
    pub fn insert(&mut self, character: char)
        ensures
            final(self).text_of() == splice(old(self).text_of(), old(self).caret_of(), seq![character]),
            final(self).caret_of() == old(self).caret_of() + 1,
            final(self).anchor_of() is None,
    {
        let one = [character];
        assert(one@ =~= seq![character]);
        self.splice_at_caret(&one);
    }

    /// Breaks the line at the caret.
    pub fn newline(&mut self)
        ensures
            final(self).text_of() == splice(old(self).text_of(), old(self).caret_of(), seq!['\n']),
            final(self).caret_of() == old(self).caret_of() + 1,
            final(self).anchor_of() is None,
    {
        self.insert('\n');
    }

    /// Inserts `text` at the caret and reports whether anything arrived.
    pub fn paste(&mut self, text: &str) -> (changed: bool)
        ensures
            changed == (text@.len() > 0),
            changed ==> final(self).text_of() == splice(old(self).text_of(), old(self).caret_of(), text@),
            changed ==> final(self).caret_of() == old(self).caret_of() + text@.len(),
            changed ==> final(self).anchor_of() is None,
            !changed ==> *final(self) == *old(self),
    {
        let chars = chars_of(text);
        if chars.len() == 0 {
            return false;
        }
        self.splice_at_caret(chars.as_slice());
        true
    }

    /// Removes the character before the caret, if there is one.
    pub fn delete_backward(&mut self) -> (changed: bool)
        ensures
            changed == (old(self).caret_of() > 0),
            changed ==> final(self).text_of() == cut(
                old(self).text_of(),
                old(self).caret_of() - 1,
                old(self).caret_of(),
            ),
            changed ==> final(self).caret_of() == old(self).caret_of() - 1,
            !changed ==> *final(self) == *old(self),
    {
        proof {
            use_type_invariant(&*self);
        }
        if self.cursor == 0 {
            return false;
        }
        let k = self.cursor;
        self.cut_range(k - 1, k);
        true
    }

    /// Removes the character after the caret, if there is one.
    pub fn delete_forward(&mut self) -> (changed: bool)
        ensures
            changed == (old(self).caret_of() < old(self).text_of().len()),
            changed ==> final(self).text_of() == cut(
                old(self).text_of(),
                old(self).caret_of(),
                old(self).caret_of() + 1,
            ),
            changed ==> final(self).caret_of() == old(self).caret_of(),
            !changed ==> *final(self) == *old(self),
    {
        proof {
            use_type_invariant(&*self);
        }
        if self.cursor >= self.chars.len() {
            return false;
        }
        let k = self.cursor;
        self.cut_range(k, k + 1);
        true
    }

    fn back_over_exec(&self, k: usize, ws: bool) -> (j: usize)
        requires
            k <= self.text_of().len(),
        ensures
            j == back_over(self.text_of(), k as int, ws),
    {
        let mut j = k;
        while j > 0 && is_whitespace(self.chars[j - 1]) == ws
            invariant
                j <= k <= self.chars@.len(),
                back_over(self.chars@, k as int, ws) == back_over(self.chars@, j as int, ws),
            decreases j,
        {
            j = j - 1;
        }
        j
    }

    /// Removes the word before the caret, and the white space between it and the caret.
    pub fn delete_word_backward(&mut self) -> (changed: bool)
        ensures
            changed == (word_start(old(self).text_of(), old(self).caret_of())
                < old(self).caret_of()),
            changed ==> final(self).text_of() == cut(
                old(self).text_of(),
                word_start(old(self).text_of(), old(self).caret_of()),
                old(self).caret_of(),
            ),
            changed ==> final(self).caret_of() == word_start(old(self).text_of(), old(self).caret_of()),
            !changed ==> *final(self) == *old(self),
    {
        proof {
            use_type_invariant(&*self);
        }
        let k = self.cursor;
        let gap = self.back_over_exec(k, true);
        proof {
            lemma_back_over_bounds(self.chars@, k as int, true);
        }
        let start = self.back_over_exec(gap, false);
        proof {
            lemma_back_over_bounds(self.chars@, gap as int, false);
        }
        if start == k {
            return false;
        }
        self.cut_range(start, k);
        true
    }

    fn line_start_exec(&self, k: usize) -> (j: usize)
        requires
            k <= self.text_of().len(),
        ensures
            j == line_start(self.text_of(), k as int),
            j <= k,
    {
        let mut j = k;
        while j > 0 && self.chars[j - 1] != '\n'
            invariant
                j <= k <= self.chars@.len(),
                line_start(self.chars@, k as int) == line_start(self.chars@, j as int),
            decreases j,
        {
            j = j - 1;
        }
        j
    }

    fn line_end_exec(&self, k: usize) -> (j: usize)
        requires
            k <= self.text_of().len(),
        ensures
            j == line_end(self.text_of(), k as int),
            k <= j <= self.text_of().len(),
    {
        let mut j = k;
        while j < self.chars.len() && self.chars[j] != '\n'
            invariant
                k <= j <= self.chars@.len(),
                line_end(self.chars@, k as int) == line_end(self.chars@, j as int),
            decreases self.chars@.len() - j,
        {
            j = j + 1;
        }
        j
    }

    /// Removes everything between the start of the caret's line and the caret.
    pub fn kill_to_line_start(&mut self) -> (changed: bool)
        ensures
            changed == (line_start(old(self).text_of(), old(self).caret_of())
                < old(self).caret_of()),
            changed ==> final(self).text_of() == cut(
                old(self).text_of(),
                line_start(old(self).text_of(), old(self).caret_of()),
                old(self).caret_of(),
            ),
            changed ==> final(self).caret_of() == line_start(old(self).text_of(), old(self).caret_of()),
            !changed ==> *final(self) == *old(self),
    {
        proof {
            use_type_invariant(&*self);
        }
        let k = self.cursor;
        let start = self.line_start_exec(k);
        if start == k {
            return false;
        }
        self.cut_range(start, k);
        true
    }

    /// Removes everything between the caret and the end of its line.
    pub fn kill_to_line_end(&mut self) -> (changed: bool)
        ensures
            changed == (old(self).caret_of() < line_end(old(self).text_of(), old(self).caret_of())),
            changed ==> final(self).text_of() == cut(
                old(self).text_of(),
                old(self).caret_of(),
                line_end(old(self).text_of(), old(self).caret_of()),
            ),
            changed ==> final(self).caret_of() == old(self).caret_of(),
            !changed ==> *final(self) == *old(self),
    {
        proof {
            use_type_invariant(&*self);
        }
        let k = self.cursor;
        let end = self.line_end_exec(k);
        if end == k {
            return false;
        }
        self.cut_range(k, end);
        true
    }

    /// Moves the caret and reports whether it moved.
    pub fn move_caret(&mut self, motion: Motion) -> (moved: bool)
        ensures
            final(self).text_of() == old(self).text_of(),
            final(self).anchor_of() is None,
            final(self).caret_of() == (match motion {
                Motion::Left => if old(self).caret_of() > 0 {
                    old(self).caret_of() - 1
                } else {
                    0
                },
                Motion::Right => if old(self).caret_of() < old(self).text_of().len() {
                    old(self).caret_of() + 1
                } else {
                    old(self).caret_of()
                },
                Motion::LineStart => line_start(old(self).text_of(), old(self).caret_of()),
                Motion::LineEnd => line_end(old(self).text_of(), old(self).caret_of()),
            }),
            moved == (final(self).caret_of() != old(self).caret_of()),
    {
        proof {
            use_type_invariant(&*self);
        }
        let k = self.cursor;
        let next = match motion {
            Motion::Left => if k > 0 {
                k - 1
            } else {
                0
            },
            Motion::Right => if k < self.chars.len() {
                k + 1
            } else {
                k
            },
            Motion::LineStart => self.line_start_exec(k),
            Motion::LineEnd => self.line_end_exec(k),
        };
        self.anchor = None;
        self.cursor = next;
        next != k
    }

    /// Puts the caret at `offset`, clamped to the text, and ends any drag. Reports whether
    /// anything visible changed.
    pub fn place_caret(&mut self, offset: usize) -> (changed: bool)
        ensures
            final(self).text_of() == old(self).text_of(),
            final(self).caret_of() == if offset <= old(self).text_of().len() {
                offset as int
            } else {
                old(self).text_of().len() as int
            },
            final(self).anchor_of() is None,
            changed == (final(self).caret_of() != old(self).caret_of() || old(self).anchor_of() is Some),
    {
        proof {
            use_type_invariant(&*self);
        }
        let next = if offset <= self.chars.len() {
            offset
        } else {
            self.chars.len()
        };
        let changed = next != self.cursor || self.anchor.is_some();
        self.anchor = None;
        self.cursor = next;
        changed
    }

    /// Moves the caret to `offset`, clamped to the text, keeping the drag's anchor where the drag
    /// began.
    pub fn drag_to_offset(&mut self, offset: usize)
        ensures
            final(self).text_of() == old(self).text_of(),
            final(self).caret_of() == if offset <= old(self).text_of().len() {
                offset as int
            } else {
                old(self).text_of().len() as int
            },
            final(self).anchor_of() == Some(
                match old(self).anchor_of() {
                    Some(a) => a,
                    None => old(self).caret_of(),
                },
            ),
    {
        proof {
            use_type_invariant(&*self);
        }
        let anchor = match self.anchor {
            Some(a) => a,
            None => self.cursor,
        };
        let next = if offset <= self.chars.len() {
            offset
        } else {
            self.chars.len()
        };
        self.anchor = Some(anchor);
        self.cursor = next;
    }
}

/// What one edit is known to do to an input: what `apply_text` promises.
pub open spec fn edit_facts(before: TextInput, after: TextInput, intent: TextIntent, changed: bool) -> bool {
    &&& intent is Submit ==> !changed && after == before
    &&& intent matches TextIntent::Insert(c) ==> changed && after.text_of() == splice(
        before.text_of(),
        before.caret_of(),
        seq![c],
    )
    &&& intent is Newline ==> changed && after.text_of() == splice(before.text_of(), before.caret_of(), seq!['\n'])
    &&& intent matches TextIntent::Paste(p) ==> changed == (p@.len() > 0) && (changed ==> after.text_of()
        == splice(before.text_of(), before.caret_of(), p@))
    &&& intent is DeleteBackward ==> changed == (before.caret_of() > 0)
    &&& intent is DeleteForward ==> changed == (before.caret_of() < before.text_of().len())
    &&& intent is KillToLineStart ==> changed == (line_start(before.text_of(), before.caret_of())
        < before.caret_of())
    &&& intent is KillToLineEnd ==> changed == (before.caret_of() < line_end(
        before.text_of(),
        before.caret_of(),
    ))
    &&& intent is DeleteWordBackward ==> changed == (word_start(before.text_of(), before.caret_of())
        < before.caret_of())
    &&& intent is Move ==> after.text_of() == before.text_of()
}

/// Applies one edit to whichever input the caller owns, and reports whether it changed anything.
///
/// `Submit` is not an edit: what submitting means belongs to the caller.
pub fn apply_text(input: &mut TextInput, intent: TextIntent) -> (changed: bool)
    ensures
        edit_facts(*old(input), *final(input), intent, changed),
        intent is Submit ==> !changed && *final(input) == *old(input),
        intent matches TextIntent::Insert(c) ==> changed && final(input).text_of() == splice(
            old(input).text_of(),
            old(input).caret_of(),
            seq![c],
        ),
        intent is Newline ==> changed && final(input).text_of() == splice(
            old(input).text_of(),
            old(input).caret_of(),
            seq!['\n'],
        ),
        intent matches TextIntent::Paste(p) ==> changed == (p@.len() > 0),
        intent is DeleteBackward ==> changed == (old(input).caret_of() > 0),
        intent is DeleteForward ==> changed == (old(input).caret_of()
            < old(input).text_of().len()),
        intent is KillToLineStart ==> changed == (line_start(
            old(input).text_of(),
            old(input).caret_of(),
        ) < old(input).caret_of()),
        intent is KillToLineEnd ==> changed == (old(input).caret_of() < line_end(
            old(input).text_of(),
            old(input).caret_of(),
        )),
        intent is DeleteWordBackward ==> changed == (word_start(
            old(input).text_of(),
            old(input).caret_of(),
        ) < old(input).caret_of()),
        intent is Move ==> final(input).text_of() == old(input).text_of(),
{
    match intent {
        TextIntent::Paste(text) => input.paste(text.as_str()),
        TextIntent::Insert(character) => {
            input.insert(character);
            true
        },
        TextIntent::Newline => {
            input.newline();
            true
        },
        TextIntent::DeleteBackward => input.delete_backward(),
        TextIntent::DeleteForward => input.delete_forward(),
        TextIntent::DeleteWordBackward => input.delete_word_backward(),
        TextIntent::KillToLineStart => input.kill_to_line_start(),
        TextIntent::KillToLineEnd => input.kill_to_line_end(),
        TextIntent::Move(motion) => input.move_caret(motion),
        TextIntent::Submit => false,
    }
}

} // verus!

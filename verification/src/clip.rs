//! Fitting text into a number of terminal columns, one character at a time: what a line keeps,
//! and where an ellipsis says that more was cut.
use vstd::prelude::*;

use crate::text::{chars_of, is_control, is_control_char, string_of};
use crate::unicode::{char_columns, char_width, display_width, width_of};

verus! {

/// The columns `c` occupies, counting a character without a width as none.
pub open spec fn cells(c: char) -> nat {
    match char_columns(c) {
        Some(w) => w as nat,
        None => 0,
    }
}

/// The columns `s` occupies, character by character.
pub open spec fn cells_of(s: Seq<char>) -> nat
    decreases s.len(),
{
    if s.len() == 0 {
        0
    } else {
        cells_of(s.drop_last()) + cells(s.last())
    }
}

/// `s` without its control characters.
pub open spec fn printable(s: Seq<char>) -> Seq<char>
    decreases s.len(),
{
    if s.len() == 0 {
        Seq::empty()
    } else {
        printable(s.drop_last()) + if is_control_char(s.last()) {
            Seq::empty()
        } else {
            seq![s.last()]
        }
    }
}

/// How many characters of `s`, from the `n`th on, fit in `width` columns after the first `n`:
/// the count stops at the first character that does not fit.
pub open spec fn fitting_from(s: Seq<char>, width: nat, n: int) -> int
    decreases s.len() - n,
{
    if n < 0 || n >= s.len() {
        s.len() as int
    } else if cells_of(s.take(n)) + cells(s[n]) > width {
        n
    } else {
        fitting_from(s, width, n + 1)
    }
}

/// How many leading characters of `s` fit in `width` columns, stopping at the first that does not.
pub open spec fn fitting(s: Seq<char>, width: nat) -> int {
    fitting_from(s, width, 0)
}

/// The longest of the first `m` characters of `s` that leaves room for one more column.
pub open spec fn backed(s: Seq<char>, m: int, width: nat) -> int
    decreases m,
{
    if m <= 0 {
        0
    } else if cells_of(s.take(m)) < width {
        m
    } else {
        backed(s, m - 1, width)
    }
}

/// What a line of `width` columns shows of `text`: nothing when its first character (a space
/// for an empty text) has no width; else its printable characters up to the first that does not
/// fit, and, when some were cut and there is room, fewer of them and an ellipsis.
pub open spec fn truncated(text: Seq<char>, width: nat) -> Seq<char> {
    let first = if text.len() > 0 {
        text[0]
    } else {
        ' '
    };
    let v = printable(text);
    let n = fitting(v, width);
    if char_columns(first) is None {
        Seq::empty()
    } else if n == v.len() {
        v
    } else if width == 0 {
        v.take(n)
    } else {
        v.take(backed(v, n, width)).push('…')
    }
}

/// `text` on one line: each control character becomes a space.
pub open spec fn one_line(text: Seq<char>) -> Seq<char> {
    text.map_values(|c: char| if is_control_char(c) { ' ' } else { c })
}

/// The columns one character occupies, counting a character without a width as none.
fn cells_exec(c: char) -> (n: usize)
    ensures
        n == cells(c),
{
    match char_width(c) {
        Some(w) => w,
        None => 0,
    }
}

/// `text` on one line: each control character becomes a space.
pub fn single_line(text: &str) -> (line: String)
    ensures
        line@ == one_line(text@),
{
    let chars = chars_of(text);
    let mut out: Vec<char> = Vec::new();
    let mut i: usize = 0;
    while i < chars.len()
        invariant
            i <= chars@.len(),
            chars@ == text@,
            out@ == one_line(chars@.take(i as int)),
        decreases chars@.len() - i,
    {
        let c = chars[i];
        out.push(if is_control(c) { ' ' } else { c });
        i += 1;
        assert(out@ =~= one_line(chars@.take(i as int)));
    }
    assert(chars@.take(chars@.len() as int) =~= chars@);
    string_of(out.as_slice())
}

/// The cells of a prefix grow by the next character's.
proof fn lemma_cells_take(s: Seq<char>, n: int)
    requires
        0 <= n < s.len(),
    ensures
        cells_of(s.take(n + 1)) == cells_of(s.take(n)) + cells(s[n]),
{
    assert(s.take(n + 1).drop_last() =~= s.take(n));
}

/// Clips `text` to `width` columns, marking a cut with an ellipsis where there is room.
pub fn truncate(text: &str, width: u16) -> (clipped: String)
    ensures
        clipped@ == truncated(text@, width as nat),
{
    let chars = chars_of(text);
    let first = if chars.len() > 0 {
        chars[0]
    } else {
        ' '
    };
    if char_width(first).is_none() {
        let empty: Vec<char> = Vec::new();
        return string_of(empty.as_slice());
    }
    let limit = width as usize;
    let mut visible: Vec<char> = Vec::new();
    let mut i: usize = 0;
    while i < chars.len()
        invariant
            i <= chars@.len(),
            chars@ == text@,
            visible@ == printable(chars@.take(i as int)),
        decreases chars@.len() - i,
    {
        let c = chars[i];
        if !is_control(c) {
            visible.push(c);
        }
        i += 1;
        proof {
            assert(chars@.take(i as int).drop_last() =~= chars@.take(i - 1));
        }
    }
    assert(chars@.take(chars@.len() as int) =~= chars@);
    let ghost v = visible@;
    let mut kept: Vec<char> = Vec::new();
    let mut used: usize = 0;
    let mut cut = false;
    let mut k: usize = 0;
    proof {
        assert(v.take(0) =~= Seq::<char>::empty());
    }
    while k < visible.len()
        invariant_except_break
            !cut,
        invariant
            v == visible@,
            k <= v.len(),
            kept@ == v.take(k as int),
            used == cells_of(v.take(k as int)),
            used <= limit,
            limit == width,
            fitting(v, width as nat) == fitting_from(v, width as nat, k as int),
        ensures
            cut ==> k < v.len() && fitting(v, width as nat) == k,
            !cut ==> k == v.len(),
        decreases v.len() - k,
    {
        let w = cells_exec(visible[k]);
        if w > limit - used {
            cut = true;
            assert(fitting_from(v, width as nat, k as int) == k);
            break;
        }
        proof {
            lemma_cells_take(v, k as int);
        }
        kept.push(visible[k]);
        used = used + w;
        k += 1;
        assert(kept@ =~= v.take(k as int));
    }
    if !cut {
        assert(kept@ =~= v);
        return string_of(kept.as_slice());
    }
    assert(fitting(v, width as nat) == k);
    if limit == 0 {
        return string_of(kept.as_slice());
    }
    let mut m: usize = k;
    while used >= limit && m > 0
        invariant
            m <= k,
            k < v.len(),
            kept@ == v.take(m as int),
            used == cells_of(v.take(m as int)),
            backed(v, k as int, width as nat) == backed(v, m as int, width as nat),
            limit == width,
        decreases m,
    {
        proof {
            lemma_cells_take(v, m - 1);
        }
        let last = kept.pop().unwrap();
        used = used - cells_exec(last);
        m = m - 1;
        assert(kept@ =~= v.take(m as int));
    }
    kept.push('…');
    string_of(kept.as_slice())
}

/// What a piece of a line is painted as.
#[derive(Clone, Copy, Debug, PartialEq, Eq, Structural)]
pub enum Role {
    /// Secondary text.
    Muted,
    /// Text that marks something current.
    Accent,
    /// Text with no treatment of its own.
    Plain,
    /// Work going on in the background.
    Ambient,
    /// The user's own surface colour.
    SurfacePrimary,
    /// Something only the user can do.
    ActionRequired,
    /// Something that failed.
    Failure,
    /// Running text.
    Body,
}

/// The columns the pieces of a line would take in full, each measured whole.
pub open spec fn parts_width(parts: Seq<(Seq<char>, Role)>) -> int
    decreases parts.len(),
{
    if parts.len() == 0 {
        0
    } else {
        parts_width(parts.drop_last()) + display_width(parts.last().0)
    }
}

/// The pieces that fit in `room` columns, in order: each keeps its leading characters that fit
/// in what is left, and the pieces stop after one that was cut or that used the last column.
pub open spec fn fitted(parts: Seq<(Seq<char>, Role)>, room: nat) -> Seq<(Seq<char>, Role)>
    decreases parts.len(),
{
    if parts.len() == 0 {
        Seq::empty()
    } else {
        let (text, role) = parts[0];
        let kept = text.take(fitting(text, room));
        let left = room - cells_of(kept);
        seq![(kept, role)] + if left <= 0 || display_width(text) > room {
            Seq::empty()
        } else {
            fitted(parts.drop_first(), left as nat)
        }
    }
}

/// The columns the fitted pieces take.
pub open spec fn fitted_cells(parts: Seq<(Seq<char>, Role)>, room: nat) -> int
    decreases parts.len(),
{
    if parts.len() == 0 {
        0
    } else {
        let (text, role) = parts[0];
        let kept = text.take(fitting(text, room));
        let left = room - cells_of(kept);
        cells_of(kept) + if left <= 0 || display_width(text) > room {
            0
        } else {
            fitted_cells(parts.drop_first(), left as nat)
        }
    }
}

/// Whether the pieces overflow `width` columns.
pub open spec fn overflows(parts: Seq<(Seq<char>, Role)>, width: nat) -> bool {
    parts_width(parts) > width
}

/// A line of pieces in `width` columns: when they overflow, one column is kept back for an
/// ellipsis that follows what fits.
pub open spec fn fitted_line(parts: Seq<(Seq<char>, Role)>, width: nat) -> (Seq<(Seq<char>, Role)>, int) {
    let room = if overflows(parts, width) && width > 0 {
        (width - 1) as nat
    } else {
        width
    };
    let kept = fitted(parts, room);
    if overflows(parts, width) {
        (kept.push(("…"@, Role::Muted)), fitted_cells(parts, room) + 1)
    } else {
        (kept, fitted_cells(parts, room))
    }
}

/// The pieces of a line, as values.
pub open spec fn parts_view(parts: Seq<(String, Role)>) -> Seq<(Seq<char>, Role)> {
    parts.map_values(|p: (String, Role)| (p.0@, p.1))
}

/// Where the leading characters that fit stop, the kept ones take no more than the room.
proof fn lemma_fitting_bound(s: Seq<char>, width: nat, n: int)
    requires
        0 <= n <= s.len(),
        cells_of(s.take(n)) <= width,
    ensures
        n <= fitting_from(s, width, n) <= s.len(),
        cells_of(s.take(fitting_from(s, width, n))) <= width,
    decreases s.len() - n,
{
    if n < s.len() && cells_of(s.take(n)) + cells(s[n]) <= width {
        lemma_cells_take(s, n);
        lemma_fitting_bound(s, width, n + 1);
    } else if n == s.len() {
    }
}

/// The leading characters of `text` that fit in `room` columns, and the columns they take.
fn fit_text(text: &str, room: usize) -> (fit: (Vec<char>, usize))
    ensures
        fit.0@ == text@.take(fitting(text@, room as nat)),
        fit.1 == cells_of(fit.0@),
        fit.1 <= room,
{
    let chars = chars_of(text);
    let mut kept: Vec<char> = Vec::new();
    let mut used: usize = 0;
    let mut k: usize = 0;
    proof {
        assert(chars@.take(0) =~= Seq::<char>::empty());
    }
    while k < chars.len()
        invariant
            chars@ == text@,
            k <= chars@.len(),
            kept@ == chars@.take(k as int),
            used == cells_of(chars@.take(k as int)),
            used <= room,
            fitting(chars@, room as nat) == fitting_from(chars@, room as nat, k as int),
        ensures
            fitting(chars@, room as nat) == k,
            kept@ == chars@.take(k as int),
            used == cells_of(kept@),
            used <= room,
        decreases chars@.len() - k,
    {
        let w = cells_exec(chars[k]);
        if w > room - used {
            break;
        }
        proof {
            lemma_cells_take(chars@, k as int);
        }
        kept.push(chars[k]);
        used = used + w;
        k += 1;
        assert(kept@ =~= chars@.take(k as int));
    }
    (kept, used)
}

/// Fits a line of pieces into `width` columns, keeping back one column for an ellipsis when they
/// overflow; reports the columns used.
pub fn fit_parts(parts: Vec<(String, Role)>, width: u16) -> (line: (Vec<(String, Role)>, u16))
    ensures
        ({
            let (expected, used) = fitted_line(parts_view(parts@), width as nat);
            parts_view(line.0@) == expected && line.1 == used
        }),
{
    let ghost all = parts_view(parts@);
    let limit = width as usize;
    let mut total: usize = 0;
    let mut i: usize = 0;
    proof {
        assert(all.take(0) =~= Seq::<(Seq<char>, Role)>::empty());
    }
    while i < parts.len()
        invariant
            i <= parts@.len(),
            all == parts_view(parts@),
            total == if parts_width(all.take(i as int)) > usize::MAX { usize::MAX as int } else { parts_width(all.take(i as int)) },
            parts_width(all.take(i as int)) >= 0,
        decreases parts@.len() - i,
    {
        let w = width_of(chars_of(parts[i].0.as_str()).as_slice());
        proof {
            assert(all.take(i + 1).drop_last() =~= all.take(i as int));
        }
        total = total.saturating_add(w);
        i += 1;
    }
    proof {
        assert(all.take(parts@.len() as int) =~= all);
    }
    let over = total > limit;
    let mut room: usize = if over && limit > 0 {
        limit - 1
    } else {
        limit
    };
    let ghost start = room;
    let mut out: Vec<(String, Role)> = Vec::new();
    let mut used: usize = 0;
    let mut k: usize = 0;
    let mut done = false;
    while k < parts.len()
        invariant_except_break
            !done,
            parts_view(out@) + fitted(all.skip(k as int), room as nat) == fitted(all, start as nat),
            used + fitted_cells(all.skip(k as int), room as nat) == fitted_cells(all, start as nat),
        invariant
            all == parts_view(parts@),
            k <= parts@.len(),
            start <= limit,
            limit == width,
            room <= start,
            used + room == start,
        ensures
            parts_view(out@) == fitted(all, start as nat),
            used == fitted_cells(all, start as nat),
            used <= start,
        decreases parts@.len() - k,
    {
        let (text, role) = (&parts[k].0, parts[k].1);
        let whole = width_of(chars_of(text.as_str()).as_slice());
        let (kept, cells) = fit_text(text.as_str(), room);
        let ghost rest = all.skip(k as int);
        proof {
            assert(rest[0] == (text@, role));
            assert(rest.drop_first() =~= all.skip(k + 1));
            lemma_fitted_nonneg(rest.drop_first(), (room - cells) as nat);
        }
        let ghost before = out@;
        let ghost old_room = room;
        let ghost old_used = used;
        out.push((string_of(kept.as_slice()), role));
        assert(parts_view(out@) =~= parts_view(before).push((kept@, role)));
        let clipped = whole > room;
        room = room - cells;
        used = used + cells;
        k += 1;
        if room == 0 || clipped {
            proof {
                assert(fitted(rest, old_room as nat) == seq![(kept@, role)] + Seq::<(Seq<char>, Role)>::empty());
                assert(fitted(rest, old_room as nat) =~= seq![(kept@, role)]);
                assert(parts_view(out@) =~= parts_view(before) + seq![(kept@, role)]);
                assert(fitted_cells(rest, old_room as nat) == cells);
            }
            done = true;
            break;
        }
        proof {
            assert(fitted(rest, old_room as nat) == seq![(kept@, role)] + fitted(all.skip(k as int), room as nat));
            assert(parts_view(before) + fitted(rest, old_room as nat) =~= parts_view(out@) + fitted(all.skip(k as int), room as nat));
            assert(fitted_cells(rest, old_room as nat) == cells + fitted_cells(all.skip(k as int), room as nat));
        }
    }
    if k == parts.len() && !done {
        proof {
            assert(all.skip(k as int) =~= Seq::<(Seq<char>, Role)>::empty());
        }
    }
    if over {
        proof {
            reveal_strlit("…");
        }
        let ghost before = out@;
        out.push((string_of(chars_of("…").as_slice()), Role::Muted));
        assert(parts_view(out@) =~= parts_view(before).push(("…"@, Role::Muted)));
        used = used + 1;
    }
    (out, used as u16)
}

/// The fitted pieces take no negative room.
proof fn lemma_fitted_nonneg(parts: Seq<(Seq<char>, Role)>, room: nat)
    ensures
        0 <= fitted_cells(parts, room) <= room,
    decreases parts.len(),
{
    if parts.len() > 0 {
        let (text, role) = parts[0];
        lemma_fitting_bound(text, room, 0);
        assert(text.take(0) =~= Seq::<char>::empty());
        let kept = text.take(fitting(text, room));
        let left = room - cells_of(kept);
        if !(left <= 0 || display_width(text) > room) {
            lemma_fitted_nonneg(parts.drop_first(), left as nat);
        }
    }
}

} // verus!

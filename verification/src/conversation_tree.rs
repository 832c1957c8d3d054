//! The text of the conversation tree's rows: the lanes drawn before an entry, the order its
//! children are visited in, and messages cleaned for one row.
use vstd::prelude::*;

use crate::activity::decimal;
use crate::text::{is_control, is_control_char, string_of};

verus! {

/// At most this many characters of a tree message are kept.
pub const MESSAGE_LIMIT: usize = 180;

/// At most this many lanes are drawn before an entry; deeper ones are elided.
pub const MAX_LANES: usize = 8;

/// The characters of `s` that are not control characters, in order.
pub open spec fn without_controls(s: Seq<char>) -> Seq<char>
    decreases s.len(),
{
    if s.len() == 0 {
        s
    } else if is_control_char(s.last()) {
        without_controls(s.drop_last())
    } else {
        without_controls(s.drop_last()).push(s.last())
    }
}

/// `s` with each control character shown as a space.
pub open spec fn controls_as_spaces(s: Seq<char>) -> Seq<char> {
    s.map_values(|c: char| if is_control_char(c) { ' ' } else { c })
}

/// A message as the tree keeps it: its control characters dropped, then its first 180 characters.
pub open spec fn sanitized(message: Seq<char>) -> Seq<char> {
    if without_controls(message).len() <= MESSAGE_LIMIT {
        without_controls(message)
    } else {
        without_controls(message).take(MESSAGE_LIMIT as int)
    }
}

/// A message as the tree keeps it: its control characters dropped, then its first 180 characters.
pub fn sanitize_message(message: &str) -> (clean: String)
    ensures
        clean@ == sanitized(message@),
{
    let n = message.unicode_len();
    let mut kept: Vec<char> = Vec::new();
    let mut i: usize = 0;
    proof {
        assert(message@.take(0) =~= Seq::<char>::empty());
    }
    while i < n && kept.len() < MESSAGE_LIMIT
        invariant
            n == message@.len(),
            i <= n,
            kept@.len() <= MESSAGE_LIMIT,
            kept@ == without_controls(message@.take(i as int)),
        decreases n - i,
    {
        let c = message.get_char(i);
        proof {
            assert(message@.take(i + 1).drop_last() =~= message@.take(i as int));
            assert(message@.take(i + 1).last() == c);
        }
        if !is_control(c) {
            kept.push(c);
        }
        i = i + 1;
    }
    proof {
        lemma_without_controls_prefix(message@, i as int);
        if i == n {
            assert(message@.take(n as int) =~= message@);
        }
    }
    string_of(kept.as_slice())
}

proof fn lemma_without_controls_grows(s: Seq<char>, i: int)
    requires
        0 <= i <= s.len(),
    ensures
        without_controls(s.take(i)).len() <= without_controls(s).len(),
        without_controls(s) .take(without_controls(s.take(i)).len() as int) == without_controls(s.take(i)),
    decreases s.len() - i,
{
    if i == s.len() {
        assert(s.take(i) =~= s);
        assert(without_controls(s).take(without_controls(s).len() as int) =~= without_controls(s));
    } else {
        lemma_without_controls_grows(s, i + 1);
        assert(s.take(i + 1).drop_last() =~= s.take(i));
        let shorter = without_controls(s.take(i));
        let longer = without_controls(s.take(i + 1));
        assert(longer.take(shorter.len() as int) =~= shorter);
        assert(without_controls(s).take(shorter.len() as int) =~= longer.take(shorter.len() as int));
    }
}

proof fn lemma_without_controls_prefix(s: Seq<char>, i: int)
    requires
        0 <= i <= s.len(),
        without_controls(s.take(i)).len() <= MESSAGE_LIMIT,
        i < s.len() ==> without_controls(s.take(i)).len() == MESSAGE_LIMIT,
    ensures
        without_controls(s.take(i)) == if without_controls(s).len() <= MESSAGE_LIMIT {
            without_controls(s)
        } else {
            without_controls(s).take(MESSAGE_LIMIT as int)
        },
{
    lemma_without_controls_grows(s, i);
    if i == s.len() {
        assert(s.take(i) =~= s);
    }
}

/// A text on one row: each control character becomes a space.
pub fn single_line(text: &str) -> (line: String)
    ensures
        line@ == controls_as_spaces(text@),
{
    let n = text.unicode_len();
    let mut out: Vec<char> = Vec::new();
    let mut i: usize = 0;
    while i < n
        invariant
            n == text@.len(),
            i <= n,
            out@ == controls_as_spaces(text@.take(i as int)),
        decreases n - i,
    {
        let c = text.get_char(i);
        out.push(if is_control(c) {
            ' '
        } else {
            c
        });
        i = i + 1;
        assert(out@ =~= controls_as_spaces(text@.take(i as int)));
    }
    assert(text@.take(n as int) =~= text@);
    string_of(out.as_slice())
}

/// How many branches a fold hides, in words.
pub open spec fn branch_text(count: nat) -> Seq<char> {
    if count == 1 {
        seq!['1', ' ', 'b', 'r', 'a', 'n', 'c', 'h']
    } else {
        decimal(count) + seq![' ', 'b', 'r', 'a', 'n', 'c', 'h', 'e', 's']
    }
}

/// How many branches a fold hides, in words: "1 branch", otherwise the count and "branches".
pub fn branch_count(count: usize) -> (text: String)
    ensures
        text@ == branch_text(count as nat),
{
    let mut out: Vec<char> = Vec::new();
    if count == 1 {
        out.push('1');
    } else {
        crate::activity::push_decimal(count as u64, &mut out);
    }
    out.push(' ');
    out.push('b');
    out.push('r');
    out.push('a');
    out.push('n');
    out.push('c');
    out.push('h');
    if count != 1 {
        out.push('e');
        out.push('s');
    }
    assert(out@ =~= branch_text(count as nat));
    string_of(out.as_slice())
}

/// The lane text for one ancestor: its rail runs on while it has later children.
pub open spec fn lane_text(open: bool) -> Seq<char> {
    if open {
        seq![' ', '│', ' ']
    } else {
        seq![' ', ' ', ' ']
    }
}

/// The lanes drawn for `lanes`, in order.
pub open spec fn lanes_text(lanes: Seq<bool>) -> Seq<char>
    decreases lanes.len(),
{
    if lanes.len() == 0 {
        Seq::empty()
    } else {
        lanes_text(lanes.drop_last()) + lane_text(lanes.last())
    }
}

/// The junction before an entry that has siblings: the last one closes its parent's rail.
pub open spec fn junction_text(junction: Option<bool>) -> Seq<char> {
    match junction {
        Some(true) => seq![' ', '└', '─'],
        Some(false) => seq![' ', '├', '─'],
        None => Seq::empty(),
    }
}

/// What is drawn before an entry: an ellipsis when lanes are elided, the last eight lanes, and
/// its junction.
pub open spec fn prefix_text(lanes: Seq<bool>, junction: Option<bool>) -> Seq<char> {
    let skipped = if lanes.len() > MAX_LANES { lanes.len() - MAX_LANES } else { 0 };
    (if lanes.len() > MAX_LANES {
        seq!['…', ' ']
    } else {
        Seq::empty()
    }) + lanes_text(lanes.skip(skipped as int)) + junction_text(junction)
}

/// What is drawn before an entry with these ancestor lanes and junction.
pub fn prefix(lanes: &[bool], junction: Option<bool>) -> (text: String)
    ensures
        text@ == prefix_text(lanes@, junction),
{
    let mut out: Vec<char> = Vec::new();
    let n = lanes.len();
    let skipped: usize = if n > MAX_LANES {
        n - MAX_LANES
    } else {
        0
    };
    if n > MAX_LANES {
        out.push('…');
        out.push(' ');
    }
    let ghost head = out@;
    let ghost kept = lanes@.skip(skipped as int);
    let mut i = skipped;
    proof {
        assert(kept.take(0) =~= Seq::<bool>::empty());
    }
    while i < n
        invariant
            n == lanes@.len(),
            skipped <= i <= n,
            kept == lanes@.skip(skipped as int),
            out@ == head + lanes_text(kept.take(i - skipped)),
        decreases n - i,
    {
        proof {
            assert(kept.take(i - skipped + 1).drop_last() =~= kept.take(i - skipped));
            assert(kept.take(i - skipped + 1).last() == lanes@[i as int]);
        }
        if lanes[i] {
            out.push(' ');
            out.push('│');
            out.push(' ');
        } else {
            out.push(' ');
            out.push(' ');
            out.push(' ');
        }
        i = i + 1;
        assert(out@ =~= head + lanes_text(kept.take(i - skipped)));
    }
    assert(kept.take(n - skipped) =~= kept);
    match junction {
        Some(last) => {
            out.push(' ');
            out.push(if last {
                '└'
            } else {
                '├'
            });
            out.push('─');
        },
        None => {},
    }
    assert(out@ =~= prefix_text(lanes@, junction));
    string_of(out.as_slice())
}

/// A row waiting to be drawn: its entry, its ancestors' lanes, and its junction.
pub type PendingRow = (usize, Vec<bool>, Option<bool>);

/// The junction of child `position` of `count`: none for an only child, otherwise whether it is
/// the last.
pub open spec fn junction_of(position: int, count: int) -> Option<bool> {
    if count > 1 {
        Some(position + 1 == count)
    } else {
        None
    }
}

/// The lanes, as a value of their own.
fn copy_lanes(lanes: &[bool]) -> (copy: Vec<bool>)
    ensures
        copy@ == lanes@,
{
    let mut copy: Vec<bool> = Vec::new();
    let mut i: usize = 0;
    while i < lanes.len()
        invariant
            i <= lanes@.len(),
            copy@ == lanes@.take(i as int),
        decreases lanes@.len() - i,
    {
        copy.push(lanes[i]);
        i = i + 1;
        assert(copy@ =~= lanes@.take(i as int));
    }
    assert(lanes@.take(lanes@.len() as int) =~= lanes@);
    copy
}

/// Pushes `children` onto `stack` last first, so they are drawn in order, each with the lanes of
/// its ancestors and its junction.
pub fn push_children(stack: &mut Vec<PendingRow>, children: &[usize], lanes: &[bool])
    ensures
        final(stack)@.len() == old(stack)@.len() + children@.len(),
        forall|i: int| 0 <= i < old(stack)@.len() ==> #[trigger] final(stack)@[i] == old(stack)@[i],
        forall|k: int|
            0 <= k < children@.len() ==> {
                let row = #[trigger] final(stack)@[old(stack)@.len() + k];
                let position = children@.len() - 1 - k;
                &&& row.0 == children@[position]
                &&& row.1@ == lanes@
                &&& row.2 == junction_of(position, children@.len() as int)
            },
{
    let n = children.len();
    let mut k: usize = 0;
    while k < n
        invariant
            n == children@.len(),
            k <= n,
            stack@.len() == old(stack)@.len() + k,
            forall|i: int| 0 <= i < old(stack)@.len() ==> #[trigger] stack@[i] == old(stack)@[i],
            forall|j: int|
                0 <= j < k ==> {
                    let row = #[trigger] stack@[old(stack)@.len() + j];
                    let position = n - 1 - j;
                    &&& row.0 == children@[position]
                    &&& row.1@ == lanes@
                    &&& row.2 == junction_of(position, n as int)
                },
        decreases n - k,
    {
        let position = n - 1 - k;
        let junction = if n > 1 {
            Some(position + 1 == n)
        } else {
            None
        };
        let copied = copy_lanes(lanes);
        stack.push((children[position], copied, junction));
        k = k + 1;
    }
}

} // verus!

//! What the conversation tree writes beside and under its rows: a row's heads as a badge, and
//! what a folded row hides, the current head first in each.
use vstd::prelude::*;

use crate::activity::{decimal, push_decimal};
use crate::clip::{one_line, single_line, Role};
use crate::ids::Identity;
use crate::text::{chars_of, same_text, string_of};
use crate::tree_presentation::identity_views;
use crate::tree_session::{lemma_text_before_total, lemma_text_before_transitive, sorts_before, text_before};

verus! {

broadcast use vstd::seq_lib::to_multiset_insert;

/// Whether head `a` is listed before head `b`: the current head first, then by name.
pub open spec fn head_less(a: Seq<char>, b: Seq<char>, active: Seq<char>) -> bool {
    (a == active && b != active) || ((a == active) == (b == active) && text_before(a, b))
}

/// Whether `heads` are listed current first, then by name.
pub open spec fn heads_ordered(heads: Seq<Seq<char>>, active: Seq<char>) -> bool {
    forall|i: int, j: int| 0 <= i < j < heads.len() ==> !head_less(heads[j], heads[i], active)
}

proof fn lemma_head_less_order(a: Seq<char>, b: Seq<char>, c: Seq<char>, active: Seq<char>)
    ensures
        !(head_less(a, b, active) && head_less(b, a, active)),
        head_less(a, b, active) && head_less(b, c, active) ==> head_less(a, c, active),
{
    lemma_text_before_total(a, b);
    if head_less(a, b, active) && head_less(b, c, active) {
        if (a == active) == (b == active) && (b == active) == (c == active) {
            lemma_text_before_transitive(a, b, c);
        }
    }
}

/// Whether head `a` is listed before head `b`.
fn head_before(a: &Identity, b: &Identity, active: &[char]) -> (before: bool)
    ensures
        before == head_less(a@, b@, active@),
{
    let ac = chars_of(a.as_str());
    let bc = chars_of(b.as_str());
    let a_current = same_text(ac.as_slice(), active);
    let b_current = same_text(bc.as_slice(), active);
    (a_current && !b_current) || (a_current == b_current && sorts_before(ac.as_slice(), bc.as_slice()))
}

/// `heads` listed current first, then by name; equal heads keep their order.
pub fn head_order(heads: &[Identity], active: &str) -> (ordered: Vec<Identity>)
    ensures
        heads_ordered(identity_views(ordered@), active@),
        identity_views(ordered@).to_multiset() == identity_views(heads@).to_multiset(),
{
    let act = chars_of(active);
    let mut ordered: Vec<Identity> = Vec::new();
    let mut k: usize = 0;
    proof {
        assert(identity_views(heads@).take(0) =~= Seq::<Seq<char>>::empty());
        assert(identity_views(ordered@) =~= Seq::<Seq<char>>::empty());
    }
    while k < heads.len()
        invariant
            k <= heads@.len(),
            act@ == active@,
            heads_ordered(identity_views(ordered@), active@),
            identity_views(ordered@).to_multiset() == identity_views(heads@).take(k as int).to_multiset(),
        decreases heads@.len() - k,
    {
        let h = &heads[k];
        let ghost views = identity_views(ordered@);
        let mut at: usize = 0;
        while at < ordered.len() && !head_before(h, &ordered[at], act.as_slice())
            invariant
                views == identity_views(ordered@),
                at <= ordered@.len(),
                act@ == active@,
                forall|q: int| 0 <= q < at ==> !head_less(h@, #[trigger] views[q], active@),
            decreases ordered@.len() - at,
        {
            at += 1;
        }
        ordered.insert(at, h.duplicate());
        proof {
            let after = identity_views(ordered@);
            assert(after =~= views.insert(at as int, h@));
            assert forall|i: int, j: int| 0 <= i < j < after.len() implies !head_less(after[j], after[i], active@) by {
                if i < at && j == at {
                } else if i == at && j > at {
                    // h comes before views[at], which comes no later than views[j - 1].
                    lemma_head_less_order(views[j - 1], h@, views[at as int], active@);
                    if j - 1 > at {
                        lemma_head_less_order(views[j - 1], views[at as int], h@, active@);
                        lemma_head_less_order(h@, views[at as int], views[j - 1], active@);
                    }
                } else if i < at && j > at {
                    lemma_head_less_order(views[j - 1], h@, views[i], active@);
                    lemma_head_less_order(views[j - 1], views[at as int], h@, active@);
                    lemma_head_less_order(h@, views[at as int], views[j - 1], active@);
                }
            }
            assert(identity_views(heads@).take(k + 1) =~= identity_views(heads@).take(k as int).push(h@));
            vstd::seq_lib::to_multiset_build(identity_views(heads@).take(k as int), h@);
        }
        k += 1;
    }
    proof {
        assert(identity_views(heads@).take(heads@.len() as int) =~= identity_views(heads@));
    }
    ordered
}

/// The pieces naming `heads`, in order: separators between them, and the current one marked.
pub open spec fn head_pieces(heads: Seq<Seq<char>>, active: Seq<char>) -> Seq<(Seq<char>, Role)>
    decreases heads.len(),
{
    if heads.len() == 0 {
        Seq::empty()
    } else {
        let name = heads.last();
        let current = name == active;
        head_pieces(heads.drop_last(), active) + (if heads.len() > 1 {
            seq![(" · "@, Role::Muted)]
        } else {
            Seq::empty()
        }) + seq![
            (
                (if current { "● "@ } else { Seq::empty() }) + one_line(name),
                if current { Role::Accent } else { Role::Muted },
            ),
        ]
    }
}

/// The pieces of a line, as values.
pub open spec fn pieces_view(parts: Seq<(String, Role)>) -> Seq<(Seq<char>, Role)> {
    parts.map_values(|p: (String, Role)| (p.0@, p.1))
}

/// Appends the pieces naming `heads` to `parts`.
fn push_head_pieces(parts: &mut Vec<(String, Role)>, heads: &Vec<Identity>, active: &[char])
    ensures
        pieces_view(final(parts)@) == pieces_view(old(parts)@) + head_pieces(identity_views(heads@), active@),
{
    let ghost start = pieces_view(parts@);
    let ghost names = identity_views(heads@);
    let mut k: usize = 0;
    proof {
        assert(names.take(0) =~= Seq::<Seq<char>>::empty());
        assert(pieces_view(parts@) =~= start + head_pieces(names.take(0), active@));
    }
    while k < heads.len()
        invariant
            k <= heads@.len(),
            names == identity_views(heads@),
            pieces_view(parts@) == start + head_pieces(names.take(k as int), active@),
        decreases heads@.len() - k,
    {
        let ghost before = parts@;
        proof {
            assert(names.take(k + 1).drop_last() =~= names.take(k as int));
            assert(names.take(k + 1).last() == heads@[k as int]@);
        }
        if k > 0 {
            proof {
                reveal_strlit(" · ");
            }
            parts.push((string_of(chars_of(" · ").as_slice()), Role::Muted));
        }
        let name = heads[k].as_str();
        let line = single_line(name);
        let current = same_text(chars_of(name).as_slice(), active);
        let mut text: Vec<char> = Vec::new();
        if current {
            proof {
                reveal_strlit("● ");
            }
            text = chars_of("● ");
        }
        let ghost prefix = text@;
        let lc = chars_of(line.as_str());
        let mut i: usize = 0;
        while i < lc.len()
            invariant
                i <= lc@.len(),
                text@ == prefix + lc@.take(i as int),
            decreases lc@.len() - i,
        {
            text.push(lc[i]);
            i += 1;
            assert(text@ =~= prefix + lc@.take(i as int));
        }
        assert(lc@.take(lc@.len() as int) =~= lc@);
        let ghost mid = parts@;
        let role = if current {
            Role::Accent
        } else {
            Role::Muted
        };
        parts.push((string_of(text.as_slice()), role));
        proof {
            let name_view = names[k as int];
            let piece = ((if current { "● "@ } else { Seq::<char>::empty() }) + one_line(name_view), role);
            assert(text@ == piece.0);
            let sep: Seq<(Seq<char>, Role)> = if k > 0 {
                seq![(" · "@, Role::Muted)]
            } else {
                Seq::empty()
            };
            assert(pieces_view(mid) =~= pieces_view(before) + sep);
            assert(pieces_view(parts@) =~= pieces_view(mid).push(piece));
            assert(head_pieces(names.take(k + 1), active@) == head_pieces(names.take(k as int), active@) + sep + seq![piece]);
            assert(pieces_view(parts@) =~= start + head_pieces(names.take(k + 1), active@));
        }
        k += 1;
    }
    proof {
        assert(names.take(heads@.len() as int) =~= names);
    }
}

/// A row's heads as a badge: nothing without heads, else the heads in brackets.
pub open spec fn badge_pieces(heads: Seq<Seq<char>>, active: Seq<char>) -> Seq<(Seq<char>, Role)> {
    if heads.len() == 0 {
        Seq::empty()
    } else {
        seq![(" ["@, Role::Muted)] + head_pieces(heads, active) + seq![("]"@, Role::Muted)]
    }
}

/// `count` and a noun, singular for one.
pub open spec fn counted(count: nat, one: Seq<char>, many: Seq<char>) -> Seq<char> {
    decimal(count) + " "@ + if count == 1 {
        one
    } else {
        many
    }
}

/// The line under a folded row: its rails, how many entries it hides, then the heads among them.
pub open spec fn folded_pieces(rails: Seq<char>, count: nat, heads: Seq<Seq<char>>, active: Seq<char>) -> Seq<
    (Seq<char>, Role),
> {
    seq![(rails + "    "@ + counted(count, "entry"@, "entries"@), Role::Muted)] + if heads.len() == 0 {
        Seq::empty()
    } else {
        seq![(" · "@ + counted(heads.len(), "branch"@, "branches"@) + ": "@, Role::Muted)]
            + head_pieces(heads, active)
    }
}

/// Appends the text of `piece` to `out`.
pub(crate) fn push_text(out: &mut Vec<char>, piece: &str)
    ensures
        final(out)@ == old(out)@ + piece@,
{
    let chars = chars_of(piece);
    let ghost start = out@;
    let mut i: usize = 0;
    while i < chars.len()
        invariant
            i <= chars@.len(),
            chars@ == piece@,
            out@ == start + chars@.take(i as int),
        decreases chars@.len() - i,
    {
        out.push(chars[i]);
        i += 1;
        assert(out@ =~= start + chars@.take(i as int));
    }
    assert(chars@.take(chars@.len() as int) =~= chars@);
}

/// `count` and a noun, singular for one, appended to `out`.
pub(crate) fn push_counted(out: &mut Vec<char>, count: usize, one: &str, many: &str)
    ensures
        final(out)@ == old(out)@ + counted(count as nat, one@, many@),
{
    let ghost start = out@;
    push_decimal(count as u64, out);
    proof {
        reveal_strlit(" ");
    }
    push_text(out, " ");
    if count == 1 {
        push_text(out, one);
    } else {
        push_text(out, many);
    }
    assert(out@ =~= start + counted(count as nat, one@, many@));
}

/// A row's heads as a badge: nothing without heads, else, in brackets, the current head first,
/// then the others by name.
pub fn badge_parts(markers: &[Identity], active: &str) -> (parts: Vec<(String, Role)>)
    ensures
        exists|ordered: Seq<Seq<char>>|
            heads_ordered(ordered, active@) && ordered.to_multiset() == identity_views(
                markers@,
            ).to_multiset() && pieces_view(parts@) == badge_pieces(ordered, active@),
{
    let ordered = head_order(markers, active);
    let mut parts: Vec<(String, Role)> = Vec::new();
    proof {
        vstd::seq_lib::to_multiset_len(identity_views(ordered@));
        vstd::seq_lib::to_multiset_len(identity_views(markers@));
    }
    if ordered.len() == 0 {
        assert(pieces_view(parts@) =~= badge_pieces(identity_views(ordered@), active@));
        return parts;
    }
    proof {
        reveal_strlit(" [");
        reveal_strlit("]");
    }
    parts.push((string_of(chars_of(" [").as_slice()), Role::Muted));
    let act = chars_of(active);
    push_head_pieces(&mut parts, &ordered, act.as_slice());
    let ghost before = parts@;
    parts.push((string_of(chars_of("]").as_slice()), Role::Muted));
    assert(pieces_view(parts@) =~= pieces_view(before).push(("]"@, Role::Muted)));
    assert(pieces_view(parts@) =~= badge_pieces(identity_views(ordered@), active@));
    parts
}

/// The line under a folded row: its rails, how many entries it hides, then, when it hides heads,
/// how many and their names, the current head first and then by name.
pub fn folded_parts(rails: &str, count: usize, heads: &[Identity], active: &str) -> (parts: Vec<(String, Role)>)
    ensures
        exists|ordered: Seq<Seq<char>>|
            heads_ordered(ordered, active@) && ordered.to_multiset() == identity_views(
                heads@,
            ).to_multiset() && pieces_view(parts@) == folded_pieces(rails@, count as nat, ordered, active@),
{
    let ordered = head_order(heads, active);
    proof {
        vstd::seq_lib::to_multiset_len(identity_views(ordered@));
        vstd::seq_lib::to_multiset_len(identity_views(heads@));
        reveal_strlit("    ");
        reveal_strlit("entry");
        reveal_strlit("entries");
    }
    let mut first: Vec<char> = chars_of(rails);
    push_text(&mut first, "    ");
    push_counted(&mut first, count, "entry", "entries");
    let mut parts: Vec<(String, Role)> = Vec::new();
    parts.push((string_of(first.as_slice()), Role::Muted));
    if ordered.len() == 0 {
        assert(pieces_view(parts@) =~= folded_pieces(rails@, count as nat, identity_views(ordered@), active@));
        return parts;
    }
    proof {
        reveal_strlit(" · ");
        reveal_strlit("branch");
        reveal_strlit("branches");
        reveal_strlit(": ");
    }
    let mut second: Vec<char> = chars_of(" · ");
    push_counted(&mut second, ordered.len(), "branch", "branches");
    push_text(&mut second, ": ");
    parts.push((string_of(second.as_slice()), Role::Muted));
    let ghost before = pieces_view(parts@);
    let act = chars_of(active);
    push_head_pieces(&mut parts, &ordered, act.as_slice());
    assert(pieces_view(parts@) =~= folded_pieces(rails@, count as nat, identity_views(ordered@), active@));
    parts
}

} // verus!

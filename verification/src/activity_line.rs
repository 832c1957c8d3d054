//! The conversation's last row: what the agent is doing on the left, with its mark and the
//! readings that fit; what waits on the reader on the right, pushed to the row's end.
use vstd::prelude::*;

use crate::activity::{mark, mark_frame, MARK};
use crate::clip::{parts_width, Role};
use crate::current_work::{work_view, CurrentWork, WorkValue};
use crate::readings::{drop_order, fitted_readings, kept_after, readings_of};
use crate::text::{chars_of, string_of};
use crate::unicode::width_of;

verus! {

/// The label, its role and the mark's role for the current work; nothing without work, or for an
/// approval whose card is already in view.
pub open spec fn work_label(work: Option<WorkValue>, approval_visible: bool) -> Option<(Seq<char>, Role, Role)> {
    match work {
        None => None,
        Some(WorkValue::Thinking) => Some(("Thinking…"@, Role::Ambient, Role::SurfacePrimary)),
        Some(WorkValue::Responding) => Some(("Responding…"@, Role::Ambient, Role::SurfacePrimary)),
        Some(WorkValue::RunningTool(tool)) => Some(
            ("Running "@ + tool + "…"@, Role::Ambient, Role::SurfacePrimary),
        ),
        Some(WorkValue::ApprovalRequired) => if approval_visible {
            None
        } else {
            Some(("Approval required"@, Role::ActionRequired, Role::ActionRequired))
        },
    }
}

/// `n`, held at the largest `usize`.
pub open spec fn capped(n: int) -> usize {
    if n > usize::MAX {
        usize::MAX
    } else {
        n as usize
    }
}

/// The readings as pieces after the label.
pub open spec fn reading_pieces(readings: Seq<(usize, Seq<char>)>) -> Seq<(Seq<char>, Role)> {
    readings.map_values(|r: (usize, Seq<char>)| (" · "@ + r.1, Role::Muted))
}

/// The left side: the mark (moving with the clock while the work moves, else at rest), a space,
/// the label, and, while the work moves, the readings that fit the row.
pub open spec fn left_side(
    work: Option<WorkValue>,
    approval_visible: bool,
    moving: bool,
    phase: u16,
    readings: Seq<(usize, Seq<char>)>,
    right: Seq<(Seq<char>, Role)>,
    width: u16,
) -> Seq<(Seq<char>, Role)> {
    match work_label(work, approval_visible) {
        None => Seq::empty(),
        Some((text, role, mark_role)) => {
            let glyph = if moving { MARK[mark_frame(phase)]@ } else { MARK[0]@ };
            let head = seq![(glyph, mark_role), (" "@, Role::Plain), (text, role)];
            head + if moving {
                reading_pieces(
                    kept_after(
                        capped(parts_width(head)) as int,
                        readings,
                        capped(parts_width(right)) as int,
                        width as int,
                        drop_order(),
                    ),
                )
            } else {
                Seq::empty()
            }
        },
    }
}

/// The whole row: the left side, then, when something waits on the right, the gap that pushes it
/// to the row's end and the right side itself.
pub open spec fn activity_line_of(
    work: Option<WorkValue>,
    approval_visible: bool,
    moving: bool,
    phase: u16,
    readings: Seq<(usize, Seq<char>)>,
    right: Seq<(Seq<char>, Role)>,
    width: u16,
) -> Seq<(Seq<char>, Role)> {
    let left = left_side(work, approval_visible, moving, phase, readings, right, width);
    let used = parts_width(left) + parts_width(right);
    let gap = if used >= width { 0 } else { width - used };
    if right.len() == 0 {
        left
    } else {
        left + seq![(Seq::new(gap as nat, |i: int| ' '), Role::Plain)] + right
    }
}

/// The pieces of a line, as values.
pub open spec fn line_view(parts: Seq<(String, Role)>) -> Seq<(Seq<char>, Role)> {
    parts.map_values(|p: (String, Role)| (p.0@, p.1))
}

/// The columns the pieces of a line take in full, held at the largest `usize`.
fn pieces_width(parts: &Vec<(String, Role)>) -> (columns: usize)
    ensures
        columns == capped(parts_width(line_view(parts@))),
{
    let ghost all = line_view(parts@);
    let mut total: usize = 0;
    let mut i: usize = 0;
    proof {
        assert(all.take(0) =~= Seq::<(Seq<char>, Role)>::empty());
    }
    while i < parts.len()
        invariant
            i <= parts@.len(),
            all == line_view(parts@),
            total == capped(parts_width(all.take(i as int))),
            parts_width(all.take(i as int)) >= 0,
        decreases parts@.len() - i,
    {
        let w = width_of(chars_of(parts[i].0.as_str()).as_slice());
        proof {
            assert(all.take(i + 1).drop_last() =~= all.take(i as int));
        }
        total = total.saturating_add(w);
        i += 1;
    }
    proof {
        assert(all.take(parts@.len() as int) =~= all);
    }
    total
}

/// A piece made of `text`.
fn piece(text: &str, role: Role) -> (p: (String, Role))
    ensures
        p.0@ == text@,
        p.1 == role,
{
    (string_of(chars_of(text).as_slice()), role)
}

/// The conversation's activity row in `width` columns.
pub fn activity_line(
    work: Option<CurrentWork>,
    approval_visible: bool,
    moving: bool,
    phase: u16,
    readings: Vec<(usize, String)>,
    right: Vec<(String, Role)>,
    width: u16,
) -> (line: Vec<(String, Role)>)
    requires
        readings@.len() <= 3,
    ensures
        line_view(line@) == activity_line_of(
            work_view(work),
            approval_visible,
            moving,
            phase,
            readings_of(readings@),
            line_view(right@),
            width,
        ),
{
    proof {
        reveal_strlit("Thinking…");
        reveal_strlit("Responding…");
        reveal_strlit("Running ");
        reveal_strlit("…");
        reveal_strlit("Approval required");
        reveal_strlit(" ");
        reveal_strlit(" · ");
    }
    let ghost rs = readings_of(readings@);
    let ghost rv0 = line_view(right@);
    let ghost wv = work_view(work);
    let label: Option<(String, Role, Role)> = match work {
        None => None,
        Some(CurrentWork::Thinking) => Some((string_of(chars_of("Thinking…").as_slice()), Role::Ambient, Role::SurfacePrimary)),
        Some(CurrentWork::Responding) => Some((string_of(chars_of("Responding…").as_slice()), Role::Ambient, Role::SurfacePrimary)),
        Some(CurrentWork::RunningTool(tool)) => {
            let mut text = chars_of("Running ");
            let tc = chars_of(tool.as_str());
            let ghost start = text@;
            let mut i: usize = 0;
            while i < tc.len()
                invariant
                    i <= tc@.len(),
                    text@ == start + tc@.take(i as int),
                decreases tc@.len() - i,
            {
                text.push(tc[i]);
                i += 1;
                assert(text@ =~= start + tc@.take(i as int));
            }
            assert(tc@.take(tc@.len() as int) =~= tc@);
            text.push('…');
            assert(text@ =~= "Running "@ + tool@ + "…"@);
            Some((string_of(text.as_slice()), Role::Ambient, Role::SurfacePrimary))
        },
        Some(CurrentWork::ApprovalRequired) => if approval_visible {
            None
        } else {
            Some((string_of(chars_of("Approval required").as_slice()), Role::ActionRequired, Role::ActionRequired))
        },
    };
    proof {
        match &label {
            Some(x) => {
                let (t, r, m) = *x;
                assert(work_label(wv, approval_visible) == Some((t@, r, m)));
            },
            None => assert(work_label(wv, approval_visible) is None),
        }
    }
    let right_width = pieces_width(&right);
    let mut left: Vec<(String, Role)> = Vec::new();
    match label {
        Some((text, role, mark_role)) => {
            let glyph = if moving {
                mark(phase)
            } else {
                let marks = MARK;
                assert(marks@ == MARK@);
                marks[0]
            };
            let ghost tv = text@;
            left.push(piece(glyph, mark_role));
            left.push(piece(" ", Role::Plain));
            left.push((text, role));
            let ghost glyph_view = if moving { MARK[mark_frame(phase)]@ } else { MARK[0]@ };
            assert(glyph@ == glyph_view);
            assert(line_view(left@) =~= seq![(glyph_view, mark_role), (" "@, Role::Plain), (tv, role)]);
            if moving {
                let label_width = pieces_width(&left);
                let kept = fitted_readings(label_width, readings, right_width, width);
                let ghost head = line_view(left@);
                let ghost shown = readings_of(kept@);
                let mut k: usize = 0;
                while k < kept.len()
                    invariant
                        k <= kept@.len(),
                        shown == readings_of(kept@),
                        line_view(left@) == head + reading_pieces(shown.take(k as int)),
                    decreases kept@.len() - k,
                {
                    let mut text = chars_of(" · ");
                    let rc = chars_of(kept[k].1.as_str());
                    let ghost start = text@;
                    let mut i: usize = 0;
                    while i < rc.len()
                        invariant
                            i <= rc@.len(),
                            text@ == start + rc@.take(i as int),
                        decreases rc@.len() - i,
                    {
                        text.push(rc[i]);
                        i += 1;
                        assert(text@ =~= start + rc@.take(i as int));
                    }
                    assert(rc@.take(rc@.len() as int) =~= rc@);
                    let ghost before = line_view(left@);
                    left.push((string_of(text.as_slice()), Role::Muted));
                    proof {
                        assert(shown.take(k + 1) =~= shown.take(k as int).push(shown[k as int]));
                        assert(reading_pieces(shown.take(k + 1)) =~= reading_pieces(shown.take(k as int)).push(
                            (" · "@ + shown[k as int].1, Role::Muted),
                        ));
                        assert(line_view(left@) =~= before.push((" · "@ + shown[k as int].1, Role::Muted)));
                    }
                    k += 1;
                }
                assert(shown.take(kept@.len() as int) =~= shown);
                assert(line_view(left@) == left_side(wv, approval_visible, moving, phase, rs, rv0, width));
            } else {
                assert(line_view(left@) =~= line_view(left@) + Seq::<(Seq<char>, Role)>::empty());
                assert(line_view(left@) =~= left_side(wv, approval_visible, moving, phase, rs, rv0, width));
            }
        },
        None => {
            assert(line_view(left@) =~= Seq::<(Seq<char>, Role)>::empty());
        },
    }
    assert(line_view(left@) == left_side(wv, approval_visible, moving, phase, rs, rv0, width));
    if right.len() == 0 {
        return left;
    }
    let left_width = pieces_width(&left);
    let gap: usize = if left_width >= width as usize || right_width >= width as usize - left_width {
        0
    } else {
        width as usize - left_width - right_width
    };
    proof {
        let lw = parts_width(line_view(left@));
        let rw = parts_width(rv0);
        lemma_parts_width_nonneg(line_view(left@));
        lemma_parts_width_nonneg(rv0);
        assert(gap == if lw + rw >= width { 0int } else { width - (lw + rw) });
    }
    let mut spaces: Vec<char> = Vec::new();
    let mut g: usize = 0;
    while g < gap
        invariant
            g <= gap,
            spaces@ == Seq::new(g as nat, |i: int| ' '),
        decreases gap - g,
    {
        spaces.push(' ');
        g += 1;
        assert(spaces@ =~= Seq::new(g as nat, |i: int| ' '));
    }
    let ghost before = line_view(left@);
    left.push((string_of(spaces.as_slice()), Role::Plain));
    let ghost with_gap = line_view(left@);
    assert(with_gap =~= before.push((Seq::new(gap as nat, |i: int| ' '), Role::Plain)));
    let mut k: usize = 0;
    let ghost rv = line_view(right@);
    while k < right.len()
        invariant
            k <= right@.len(),
            rv == line_view(right@),
            line_view(left@) == with_gap + rv.take(k as int),
        decreases right@.len() - k,
    {
        let ghost prior = line_view(left@);
        left.push((string_of(chars_of(right[k].0.as_str()).as_slice()), right[k].1));
        proof {
            assert(rv[k as int] == (right@[k as int].0@, right@[k as int].1));
            assert(rv.take(k + 1) =~= rv.take(k as int).push(rv[k as int]));
            assert(line_view(left@) =~= prior.push(rv[k as int]));
        }
        k += 1;
        assert(line_view(left@) =~= with_gap + rv.take(k as int));
    }
    assert(rv.take(right@.len() as int) =~= rv);
    left
}

/// Pieces take no negative room.
proof fn lemma_parts_width_nonneg(parts: Seq<(Seq<char>, Role)>)
    ensures
        parts_width(parts) >= 0,
    decreases parts.len(),
{
    if parts.len() > 0 {
        lemma_parts_width_nonneg(parts.drop_last());
    }
}

} // verus!

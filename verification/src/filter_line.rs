//! One line of a filter on screen: the part of its text that fits beside the caret, where the
//! caret stands in it, and which offset a clicked column falls on.
use vstd::prelude::*;

use crate::input::{Caret, TextInput};
use crate::text::copy_range;
use crate::unicode::{display_width, grapheme_lengths, grapheme_spans, total, width_of};

verus! {

/// Where cluster `k` begins, the clusters being counted in characters by `spans`.
pub open spec fn span_start(spans: Seq<usize>, k: int) -> int {
    total(spans.take(k))
}

/// The columns each cluster of `text` occupies, `spans` being its clusters.
pub open spec fn cluster_widths(text: Seq<char>, spans: Seq<usize>) -> Seq<usize> {
    Seq::new(
        spans.len(),
        |k: int| display_width(text.subrange(span_start(spans, k), span_start(spans, k + 1))),
    )
}

/// How many clusters, taken from the end, fit in `budget` columns: the walk stops at the first
/// that does not.
pub open spec fn fit_back(widths: Seq<usize>, budget: int) -> nat
    decreases widths.len(),
{
    if widths.len() == 0 || widths.last() > budget {
        0
    } else {
        1 + fit_back(widths.drop_last(), budget - widths.last())
    }
}

/// How many clusters, taken from the start, fit in `budget` columns: the walk stops at the first
/// that does not.
pub open spec fn fit_front(widths: Seq<usize>, budget: int) -> nat
    decreases widths.len(),
{
    if widths.len() == 0 || widths[0] > budget {
        0
    } else {
        1 + fit_front(widths.drop_first(), budget - widths[0])
    }
}

/// The columns a line `width` wide gives the text: one is kept for the caret.
pub open spec fn budget_of(width: u16) -> int {
    if width == 0 {
        0
    } else {
        width - 1
    }
}

/// Where the window begins: as many whole clusters before the caret as fit.
pub open spec fn window_start(text: Seq<char>, cursor: int, budget: int) -> int {
    let before = text.take(cursor);
    let spans = grapheme_spans(before);
    let taken = fit_back(cluster_widths(before, spans), budget);
    span_start(spans, spans.len() - taken)
}

/// The columns the window shows before the caret.
pub open spec fn window_lead(text: Seq<char>, cursor: int, budget: int) -> int {
    let before = text.take(cursor);
    let spans = grapheme_spans(before);
    let widths = cluster_widths(before, spans);
    total(widths.skip(widths.len() - fit_back(widths, budget)))
}

/// What the window shows: from its start, as many whole clusters as fit.
pub open spec fn window_text(text: Seq<char>, cursor: int, budget: int) -> Seq<char> {
    let rest = text.skip(window_start(text, cursor, budget));
    let spans = grapheme_spans(rest);
    rest.take(span_start(spans, fit_front(cluster_widths(rest, spans), budget) as int))
}

/// The text offset a click at `column` of the window lands on: before the cluster the column
/// falls in.
pub open spec fn column_offset(text: Seq<char>, cursor: int, budget: int, column: int) -> int {
    let visible = window_text(text, cursor, budget);
    let spans = grapheme_spans(visible);
    window_start(text, cursor, budget) + span_start(
        spans,
        fit_front(cluster_widths(visible, spans), column) as int,
    )
}

proof fn lemma_total_first(counts: Seq<usize>)
    requires
        counts.len() > 0,
    ensures
        total(counts) == counts[0] + total(counts.drop_first()),
    decreases counts.len(),
{
    if counts.len() == 1 {
        assert(counts.drop_first() =~= Seq::<usize>::empty());
        assert(counts.drop_last() =~= Seq::<usize>::empty());
    } else {
        lemma_total_first(counts.drop_last());
        assert(counts.drop_last().drop_first() =~= counts.drop_first().drop_last());
    }
}

proof fn lemma_total_take(counts: Seq<usize>, k: int)
    requires
        0 <= k < counts.len(),
    ensures
        total(counts.take(k + 1)) == total(counts.take(k)) + counts[k],
        total(counts.take(k)) >= 0,
        total(counts.take(k + 1)) <= total(counts),
{
    assert(counts.take(k + 1).drop_last() =~= counts.take(k));
    lemma_total_nonneg_all(counts.take(k));
    lemma_total_take_le(counts, k + 1);
}

proof fn lemma_total_nonneg_all(counts: Seq<usize>)
    ensures
        total(counts) >= 0,
    decreases counts.len(),
{
    if counts.len() > 0 {
        lemma_total_nonneg_all(counts.drop_last());
    }
}

proof fn lemma_total_take_le(counts: Seq<usize>, k: int)
    requires
        0 <= k <= counts.len(),
    ensures
        total(counts.take(k)) <= total(counts),
    decreases counts.len(),
{
    if k == counts.len() {
        assert(counts.take(k) =~= counts);
    } else {
        assert(counts.take(k) =~= counts.drop_last().take(k));
        lemma_total_take_le(counts.drop_last(), k);
    }
}

/// From the end of `text`, the whole clusters that fit in `budget` columns: where they begin,
/// and the columns they take.
fn fit_from_end(text: &[char], budget: usize) -> (fit: (usize, usize))
    ensures
        ({
            let spans = grapheme_spans(text@);
            let widths = cluster_widths(text@, spans);
            let taken = fit_back(widths, budget as int);
            &&& taken <= spans.len()
            &&& fit.0 == span_start(spans, spans.len() - taken)
            &&& fit.1 == total(widths.skip(widths.len() - taken))
            &&& fit.0 <= text@.len()
            &&& fit.1 <= budget
        }),
{
    let spans = grapheme_lengths(text);
    let ghost widths = cluster_widths(text@, spans@);
    let n = spans.len();
    let mut j = n;
    let mut start = text.len();
    let mut used: usize = 0;
    let mut done = false;
    proof {
        assert(spans@.take(n as int) =~= spans@);
        assert(widths.take(n as int) =~= widths);
        assert(widths.skip(n as int) =~= Seq::<usize>::empty());
    }
    while j > 0 && !done
        invariant
            n == spans@.len(),
            spans@ == grapheme_spans(text@),
            widths == cluster_widths(text@, spans@),
            total(spans@) == text@.len(),
            forall|i: int| 0 <= i < n ==> spans@[i] > 0,
            j <= n,
            start == span_start(spans@, j as int),
            used == total(widths.skip(j as int)),
            used <= budget,
            fit_back(widths, budget as int) == (n - j) + fit_back(
                widths.take(j as int),
                budget - used,
            ),
            done ==> fit_back(widths.take(j as int), budget - used) == 0,
        decreases 2 * j + if done { 0int } else { 1int },
    {
        let len = spans[j - 1];
        proof {
            lemma_total_take(spans@, j - 1);
        }
        let cluster = copy_range(text, start - len, start);
        let cells = width_of(cluster.as_slice());
        proof {
            assert(widths[j - 1] == cells);
            assert(widths.take(j as int).last() == widths[j - 1]);
        }
        if cells > budget - used {
            done = true;
        } else {
            proof {
                assert(widths.take(j as int).drop_last() =~= widths.take(j - 1));
                assert(widths.skip(j - 1).drop_first() =~= widths.skip(j as int));
                lemma_total_first(widths.skip(j - 1));
            }
            start = start - len;
            used = used + cells;
            j = j - 1;
        }
    }
    proof {
        if !done {
            assert(widths.take(0) =~= Seq::<usize>::empty());
        }
        lemma_total_take_le(spans@, j as int);
    }
    (start, used)
}

/// From the start of `text`, the whole clusters that fit in `budget` columns: how many characters
/// they hold.
fn fit_from_start(text: &[char], budget: usize) -> (count: usize)
    ensures
        ({
            let spans = grapheme_spans(text@);
            let taken = fit_front(cluster_widths(text@, spans), budget as int);
            &&& taken <= spans.len()
            &&& count == span_start(spans, taken as int)
            &&& count <= text@.len()
        }),
{
    let spans = grapheme_lengths(text);
    let ghost widths = cluster_widths(text@, spans@);
    let n = spans.len();
    let length = text.len();
    let mut k: usize = 0;
    let mut pos: usize = 0;
    let mut used: usize = 0;
    let mut done = false;
    proof {
        assert(spans@.take(0) =~= Seq::<usize>::empty());
        assert(widths.skip(0) =~= widths);
    }
    while k < n && !done
        invariant
            n == spans@.len(),
            spans@ == grapheme_spans(text@),
            widths == cluster_widths(text@, spans@),
            total(spans@) == text@.len(),
            k <= n,
            length == text@.len(),
            pos == span_start(spans@, k as int),
            pos <= text@.len(),
            used <= budget,
            fit_front(widths, budget as int) == k + fit_front(widths.skip(k as int), budget - used),
            done ==> fit_front(widths.skip(k as int), budget - used) == 0,
        decreases 2 * (n - k) + if done { 0int } else { 1int },
    {
        let len = spans[k];
        proof {
            lemma_total_take(spans@, k as int);
        }
        let cluster = copy_range(text, pos, pos + len);
        let cells = width_of(cluster.as_slice());
        proof {
            assert(widths[k as int] == cells);
            assert(widths.skip(k as int)[0] == widths[k as int]);
        }
        if cells > budget - used {
            done = true;
        } else {
            proof {
                assert(widths.skip(k as int).drop_first() =~= widths.skip(k + 1));
            }
            pos = pos + len;
            used = used + cells;
            k = k + 1;
        }
    }
    proof {
        if !done {
            assert(widths.skip(n as int) =~= Seq::<usize>::empty());
        }
    }
    pos
}

/// The window of `input` a line `width` wide shows: where it begins in the text, what it shows,
/// and the caret's place in it.
pub fn window(input: &TextInput, width: u16) -> (shown: (usize, Vec<char>, Caret))
    ensures
        ({
            let budget = budget_of(width);
            &&& shown.0 == window_start(input.text_of(), input.caret_of(), budget)
            &&& shown.1@ == window_text(input.text_of(), input.caret_of(), budget)
            &&& shown.2.row == 0
            &&& shown.2.column == window_lead(input.text_of(), input.caret_of(), budget)
            &&& shown.0 + shown.1@.len() <= input.text_of().len()
            &&& input.text_of().len() <= usize::MAX
        }),
{
    let budget: usize = if width == 0 {
        0
    } else {
        (width - 1) as usize
    };
    let text = input.chars();
    let _length = text.len();
    let cursor = input.cursor();
    let before = copy_range(text, 0, cursor);
    assert(before@ =~= text@.take(cursor as int));
    let (start, lead) = fit_from_end(before.as_slice(), budget);
    let rest = copy_range(text, start, text.len());
    assert(rest@ =~= text@.skip(start as int));
    let count = fit_from_start(rest.as_slice(), budget);
    let visible = copy_range(rest.as_slice(), 0, count);
    assert(visible@ =~= rest@.take(count as int));
    (start, visible, Caret { row: 0, column: lead as u16 })
}

/// The text offset a click at `column` of the window lands on.
pub fn offset_at(input: &TextInput, width: u16, column: u16) -> (offset: usize)
    ensures
        offset == column_offset(input.text_of(), input.caret_of(), budget_of(width), column as int),
        offset <= input.text_of().len(),
{
    let (start, visible, _) = window(input, width);
    let count = fit_from_start(visible.as_slice(), column as usize);
    start + count
}

} // verus!

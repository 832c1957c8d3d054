//! Messages the user submitted that have not been sent to the model yet, and the band that lists
//! them: a heading for each sending time, a row per listed message, a count of the rest and the
//! way back, fitted to the rows the band was granted.
use vstd::prelude::*;

verus! {

/// How many waiting messages the band lists before it counts the rest instead of growing.
pub const LISTED: usize = 3;

/// The rule the band draws above its body: a row of its height, not of its content.
pub const QUEUE_RULE_ROWS: u16 = 1;

/// When one waiting message will be sent.
#[derive(Clone, Copy, Debug, PartialEq, Eq, Structural)]
pub enum QueuedBoundary {
    /// With the current turn's next step, once the running tool calls have returned.
    Step,
    /// As a new turn, once this one ends.
    Turn,
    /// Not given to the producer yet, because an operation it owns is still running.
    Admission,
}

/// The heading a sending time shows.
pub open spec fn boundary_label(boundary: QueuedBoundary) -> Seq<char> {
    match boundary {
        QueuedBoundary::Step => "Sends after the current tool call"@,
        QueuedBoundary::Turn => "Sends when this turn ends"@,
        QueuedBoundary::Admission => "Sends when the current operation ends"@,
    }
}

impl QueuedBoundary {
    /// The heading the sending time shows.
    pub fn label(self) -> (label: &'static str)
        ensures
            label@ == boundary_label(self),
    {
        match self {
            QueuedBoundary::Step => "Sends after the current tool call",
            QueuedBoundary::Turn => "Sends when this turn ends",
            QueuedBoundary::Admission => "Sends when the current operation ends",
        }
    }
}

/// One message the user submitted that has not been sent yet.
#[derive(Clone, Debug, PartialEq, Eq)]
pub struct QueuedInput {
    /// The text the user typed, unchanged.
    pub text: String,
    /// When it will be sent.
    pub boundary: QueuedBoundary,
}

/// The sending times of `queued`, in order.
pub open spec fn boundaries(queued: Seq<QueuedInput>) -> Seq<QueuedBoundary> {
    queued.map_values(|entry: QueuedInput| entry.boundary)
}

/// How many headings `times` needs: one above each run of equal sending times.
pub open spec fn heading_count(times: Seq<QueuedBoundary>) -> nat
    decreases times.len(),
{
    if times.len() == 0 {
        0
    } else {
        heading_count(times.drop_last()) + if times.len() == 1 || times.last() != times[times.len() - 2] {
            1nat
        } else {
            0nat
        }
    }
}

/// Rows a body listing the first `listed` of `times` needs, the way back excluded: the listed
/// messages, their headings, and the count of the rest when any is left out.
pub open spec fn body_rows_for(times: Seq<QueuedBoundary>, listed: int) -> int {
    listed + heading_count(times.take(listed)) + if listed < times.len() {
        1int
    } else {
        0int
    }
}

/// The most of the first `k` candidate counts, tried from `k` down, whose body fits `budget`.
pub open spec fn fit_listed(times: Seq<QueuedBoundary>, budget: int, k: int) -> int
    decreases k,
{
    if k <= 0 {
        0
    } else if body_rows_for(times, k) <= budget {
        k
    } else {
        fit_listed(times, budget, k - 1)
    }
}

/// The rows a band granted `rows` leaves for its body: the way back takes one.
pub open spec fn body_budget(rows: u16) -> int {
    if rows > 0 {
        rows - 1
    } else {
        0
    }
}

/// The most messages a band granted `rows` lists.
pub open spec fn listed_count(times: Seq<QueuedBoundary>, rows: u16) -> int {
    fit_listed(
        times,
        body_budget(rows),
        if times.len() < LISTED {
            times.len() as int
        } else {
            LISTED as int
        },
    )
}

proof fn lemma_heading_count_bound(times: Seq<QueuedBoundary>)
    ensures
        heading_count(times) <= times.len(),
    decreases times.len(),
{
    if times.len() > 0 {
        lemma_heading_count_bound(times.drop_last());
    }
}

/// Rows a body listing the first `listed` messages needs, the way back excluded.
pub fn body_rows(queued: &[QueuedInput], listed: usize) -> (rows: usize)
    requires
        listed <= queued@.len(),
        listed < usize::MAX / 2,
    ensures
        rows == body_rows_for(boundaries(queued@), listed as int),
{
    let ghost times = boundaries(queued@);
    let mut heading: Option<QueuedBoundary> = None;
    let mut rows: usize = 0;
    let mut i: usize = 0;
    proof {
        assert(times.take(0) =~= Seq::<QueuedBoundary>::empty());
    }
    while i < listed
        invariant
            listed <= queued@.len(),
            times == boundaries(queued@),
            i <= listed,
            listed < usize::MAX / 2,
            rows == i + heading_count(times.take(i as int)),
            rows <= 2 * i,
            i == 0 ==> heading is None,
            i > 0 ==> heading == Some(times[i - 1]),
        decreases listed - i,
    {
        let boundary = queued[i].boundary;
        proof {
            assert(times.take(i + 1).drop_last() =~= times.take(i as int));
            assert(times.take(i + 1).last() == times[i as int]);
            if i > 0 {
                assert(times.take(i + 1)[i - 1] == times[i - 1]);
            }
        }
        let fresh = match heading {
            Some(previous) => previous != boundary,
            None => true,
        };
        if fresh {
            heading = Some(boundary);
            rows = rows + 1;
        }
        rows = rows + 1;
        i = i + 1;
    }
    if listed < queued.len() {
        rows + 1
    } else {
        rows
    }
}

/// The most messages the band can list in `rows` and still say what it left out: tried longest
/// first over at most [`LISTED`] candidates.
pub fn listed_within(queued: &[QueuedInput], rows: u16) -> (listed: usize)
    ensures
        listed == listed_count(boundaries(queued@), rows),
        listed <= LISTED,
        listed <= queued@.len(),
        listed == 0 || body_rows_for(boundaries(queued@), listed as int) <= body_budget(rows),
        forall|k: int|
            listed < k <= LISTED && k <= queued@.len() ==> body_rows_for(boundaries(queued@), k)
                > body_budget(rows),
{
    let budget: usize = if rows > 0 {
        (rows - 1) as usize
    } else {
        0
    };
    let top: usize = if queued.len() < LISTED {
        queued.len()
    } else {
        LISTED
    };
    let mut k = top;
    while k > 0
        invariant
            k <= top,
            top <= LISTED,
            top <= queued@.len(),
            top == if queued@.len() < LISTED { queued@.len() as int } else { LISTED as int },
            budget == body_budget(rows),
            fit_listed(boundaries(queued@), budget as int, top as int) == fit_listed(
                boundaries(queued@),
                budget as int,
                k as int,
            ),
            forall|j: int| k < j <= top ==> body_rows_for(boundaries(queued@), j) > budget,
        decreases k,
    {
        if body_rows(queued, k) <= budget {
            return k;
        }
        k = k - 1;
    }
    0
}

/// One row of the band's body.
#[derive(Clone, Copy, Debug, PartialEq, Eq, Structural)]
pub enum QueuedRow {
    /// The heading over a run of messages sent at one time.
    Heading(QueuedBoundary),
    /// The waiting message at this position.
    Entry(usize),
    /// How many waiting messages are not listed.
    More(usize),
    /// The way back: taking back the last message, which needs an empty draft.
    WayBack { draft_empty: bool },
}

/// The rows of a body listing the first `listed` of `times`, headings first in each run.
pub open spec fn listed_rows(times: Seq<QueuedBoundary>, listed: int) -> Seq<QueuedRow>
    decreases listed,
{
    if listed <= 0 {
        Seq::empty()
    } else {
        let earlier = listed_rows(times, listed - 1);
        let i = listed - 1;
        if i == 0 || times[i] != times[i - 1] {
            earlier.push(QueuedRow::Heading(times[i])).push(QueuedRow::Entry(i as usize))
        } else {
            earlier.push(QueuedRow::Entry(i as usize))
        }
    }
}

/// The band's body fitted to `rows`: the listed messages under their headings, the count of the
/// rest when any is left out, and the way back last.
pub open spec fn band_body(times: Seq<QueuedBoundary>, rows: u16, draft_empty: bool) -> Seq<QueuedRow> {
    let listed = listed_count(times, rows);
    let held = times.len() - listed;
    listed_rows(times, listed) + (if held > 0 {
        seq![QueuedRow::More(held as usize)]
    } else {
        Seq::empty()
    }) + seq![QueuedRow::WayBack { draft_empty }]
}

/// The rows of the band's body, fitted to the `rows` it was granted.
pub fn queued_body(queued: &[QueuedInput], rows: u16, draft_empty: bool) -> (body: Vec<QueuedRow>)
    ensures
        body@ == band_body(boundaries(queued@), rows, draft_empty),
{
    let ghost times = boundaries(queued@);
    let listed = listed_within(queued, rows);
    let mut body: Vec<QueuedRow> = Vec::new();
    let mut heading: Option<QueuedBoundary> = None;
    let mut i: usize = 0;
    while i < listed
        invariant
            listed <= queued@.len(),
            times == boundaries(queued@),
            i <= listed,
            body@ == listed_rows(times, i as int),
            i == 0 ==> heading is None,
            i > 0 ==> heading == Some(times[i - 1]),
        decreases listed - i,
    {
        let boundary = queued[i].boundary;
        assert(times[i as int] == boundary);
        let fresh = match heading {
            Some(previous) => previous != boundary,
            None => true,
        };
        if fresh {
            heading = Some(boundary);
            body.push(QueuedRow::Heading(boundary));
        }
        body.push(QueuedRow::Entry(i));
        i = i + 1;
    }
    let held = queued.len() - listed;
    if held > 0 {
        body.push(QueuedRow::More(held));
    }
    body.push(QueuedRow::WayBack { draft_empty });
    proof {
        assert(body@ =~= band_body(times, rows, draft_empty));
    }
    body
}

/// Rows the band asks for, its rule included, and none when nothing is waiting: one row per listed
/// message and heading, never how much the user typed.
pub fn queued_rows(queued: &[QueuedInput]) -> (rows: u16)
    ensures
        queued@.len() == 0 ==> rows == 0,
        queued@.len() > 0 ==> rows == band_body(boundaries(queued@), u16::MAX, true).len() + QUEUE_RULE_ROWS,
{
    if queued.len() == 0 {
        return 0;
    }
    let body = queued_body(queued, u16::MAX, true);
    proof {
        lemma_band_body_short(boundaries(queued@), u16::MAX, true);
    }
    (body.len() as u16) + QUEUE_RULE_ROWS
}

proof fn lemma_listed_rows_len(times: Seq<QueuedBoundary>, listed: int)
    requires
        0 <= listed <= times.len(),
    ensures
        listed_rows(times, listed).len() == body_rows_for(times, listed) - if listed < times.len() {
            1int
        } else {
            0int
        },
    decreases listed,
{
    if listed > 0 {
        lemma_listed_rows_len(times, listed - 1);
        let i = listed - 1;
        assert(times.take(listed).drop_last() =~= times.take(i));
        if i > 0 {
            assert(times.take(listed)[i - 1] == times[i - 1]);
        }
    } else {
        assert(times.take(0) =~= Seq::<QueuedBoundary>::empty());
    }
}

proof fn lemma_band_body_short(times: Seq<QueuedBoundary>, rows: u16, draft_empty: bool)
    ensures
        band_body(times, rows, draft_empty).len() <= 2 * LISTED + 2,
{
    let top = if times.len() < LISTED { times.len() as int } else { LISTED as int };
    lemma_fit_listed_bound(times, body_budget(rows), top);
    let listed = listed_count(times, rows);
    lemma_listed_rows_len(times, listed);
    lemma_heading_count_bound(times.take(listed));
}

proof fn lemma_fit_listed_bound(times: Seq<QueuedBoundary>, budget: int, k: int)
    ensures
        k >= 0 ==> 0 <= fit_listed(times, budget, k) <= k,
    decreases k,
{
    if k > 0 {
        lemma_fit_listed_bound(times, budget, k - 1);
    }
}

/// Rows below which the band would rather not appear: its rule, one sending time, one message,
/// the count of the rest and the way back.
pub fn queued_floor(queued: &[QueuedInput]) -> (rows: u16)
    ensures
        ({
            let asked = if queued@.len() == 0 {
                0
            } else {
                band_body(boundaries(queued@), u16::MAX, true).len() + QUEUE_RULE_ROWS
            };
            rows == if asked < QUEUE_RULE_ROWS + 4 {
                asked
            } else {
                QUEUE_RULE_ROWS + 4
            }
        }),
{
    let asked = queued_rows(queued);
    if asked < QUEUE_RULE_ROWS + 4 {
        asked
    } else {
        QUEUE_RULE_ROWS + 4
    }
}

} // verus!

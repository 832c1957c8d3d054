//! The conversation tree as drawn: which journal rows are shown, in what order, under which
//! ancestor, with which connector lanes, and which branch heads each shown row carries.
//!
//! The journal's own ancestry stays canonical. Intermediate tool steps are left out of the
//! drawing; a shown row hangs from its nearest shown ancestor, and a head that points at a left
//! out row is carried by the shown row it hangs from. Siblings follow their chronology, and each
//! complete subtree stays contiguous.
use vstd::prelude::*;
use vstd::set_lib::{lemma_int_range, lemma_len_subset, set_int_range};

use crate::conversation_tree::{junction_of, prefix, prefix_text, push_children, PendingRow};
use crate::ids::Identity;

verus! {

/// What a journal row records.
#[derive(Clone, Copy, Debug, PartialEq, Eq, Structural)]
pub enum TreeRowKind {
    User,
    Assistant,
    ToolBatch,
}

/// Whether the conversation can be rewound to a row.
#[derive(Clone, Copy, Debug, PartialEq, Eq, Structural)]
pub enum TreeRewindEligibility {
    Eligible,
    Ineligible,
}

/// One journal row of a tree snapshot.
#[derive(Clone, Debug, PartialEq, Eq)]
pub struct TreeRow {
    pub entry_id: Identity,
    pub parent_id: Option<Identity>,
    pub chronological_ordinal: u64,
    pub kind: TreeRowKind,
    pub head_markers: Vec<Identity>,
    pub rewind: TreeRewindEligibility,
}

/// Why a snapshot cannot be drawn as a tree.
#[derive(Clone, Copy, Debug, PartialEq, Eq, Structural)]
pub enum TreeRefusal {
    /// Two rows share an identity.
    RepeatedIdentity,
    /// A row names a parent that is missing, or its ancestry never reaches a root.
    DisconnectedAncestry,
}

impl TreeRefusal {
    /// The refusal as the tree shows it.
    pub fn message(&self) -> (text: &'static str)
        ensures
            text@ == match self {
                TreeRefusal::RepeatedIdentity => "History contains repeated branch identities."@,
                TreeRefusal::DisconnectedAncestry => "History contains disconnected branch ancestry."@,
            },
    {
        match self {
            TreeRefusal::RepeatedIdentity => "History contains repeated branch identities.",
            TreeRefusal::DisconnectedAncestry => "History contains disconnected branch ancestry.",
        }
    }
}

/// Whether a row is drawn: every row but an intermediate tool step, which cannot be rewound to.
pub open spec fn shown(row: TreeRow) -> bool {
    row.kind != TreeRowKind::ToolBatch || row.rewind == TreeRewindEligibility::Eligible
}

/// Whether row `i` names row `j` as its parent.
pub open spec fn names_parent(rows: Seq<TreeRow>, i: int, j: int) -> bool {
    rows[i].parent_id matches Some(p) && p@ == rows[j].entry_id@
}

/// Whether no two rows share an identity.
pub open spec fn ids_unique(rows: Seq<TreeRow>) -> bool {
    forall|i: int, j: int| 0 <= i < j < rows.len() ==> rows[i].entry_id@ != rows[j].entry_id@
}

/// Whether row `i` is a root or names a parent that is among the rows.
pub open spec fn parent_known(rows: Seq<TreeRow>, i: int) -> bool {
    rows[i].parent_id is None || exists|j: int| 0 <= j < rows.len() && names_parent(rows, i, j)
}

/// The row that row `i` names as its parent, if it names one.
pub open spec fn tree_parent(rows: Seq<TreeRow>, i: int) -> Option<usize> {
    if rows[i].parent_id is None {
        None
    } else {
        Some(choose|j: usize| j < rows.len() && names_parent(rows, i, j as int))
    }
}

/// Whether following parents up from row `i` reaches a root within `fuel` steps.
pub open spec fn reaches_root(rows: Seq<TreeRow>, i: int, fuel: nat) -> bool
    decreases fuel,
{
    match tree_parent(rows, i) {
        None => true,
        Some(p) => fuel > 0 && reaches_root(rows, p as int, (fuel - 1) as nat),
    }
}

/// Whether every row names a known parent and its ancestry reaches a root.
pub open spec fn rooted(rows: Seq<TreeRow>) -> bool {
    forall|i: int|
        0 <= i < rows.len() ==> parent_known(rows, i) && exists|f: nat| #[trigger]
            reaches_root(rows, i, f)
}

/// The first row with identity `id`, if any.
fn find_entry(rows: &Vec<TreeRow>, id: &Identity) -> (found: Option<usize>)
    ensures
        match found {
            Some(j) => j < rows@.len() && rows@[j as int].entry_id@ == id@ && forall|k: int|
                0 <= k < j ==> rows@[k].entry_id@ != id@,
            None => forall|k: int| 0 <= k < rows@.len() ==> rows@[k].entry_id@ != id@,
        },
{
    let mut k: usize = 0;
    while k < rows.len()
        invariant
            k <= rows@.len(),
            forall|m: int| 0 <= m < k ==> rows@[m].entry_id@ != id@,
        decreases rows@.len() - k,
    {
        if rows[k].entry_id.same(id) {
            return Some(k);
        }
        k += 1;
    }
    None
}

/// Each row's parent row, after checking that identities are unique and that every named parent
/// is among the rows.
fn parent_rows(rows: &Vec<TreeRow>) -> (found: Result<Vec<Option<usize>>, TreeRefusal>)
    ensures
        match found {
            Ok(parents) => ids_unique(rows@) && parents@.len() == rows@.len() && (forall|i: int|
                0 <= i < rows@.len() ==> #[trigger] parent_known(rows@, i)) && forall|i: int|
                0 <= i < rows@.len() ==> #[trigger] parents@[i] == tree_parent(rows@, i),
            Err(TreeRefusal::RepeatedIdentity) => !ids_unique(rows@),
            Err(TreeRefusal::DisconnectedAncestry) => ids_unique(rows@) && exists|i: int|
                0 <= i < rows@.len() && !parent_known(rows@, i),
        },
{
    let n = rows.len();
    let mut i: usize = 0;
    while i < n
        invariant
            n == rows@.len(),
            i <= n,
            forall|a: int, b: int| 0 <= a < b < i ==> rows@[a].entry_id@ != rows@[b].entry_id@,
        decreases n - i,
    {
        match find_entry(rows, &rows[i].entry_id) {
            Some(j) => {
                if j != i {
                    assert(rows@[j as int].entry_id@ == rows@[i as int].entry_id@);
                    return Err(TreeRefusal::RepeatedIdentity);
                }
            },
            None => {},
        }
        i += 1;
    }
    let mut parents: Vec<Option<usize>> = Vec::new();
    let mut i: usize = 0;
    while i < n
        invariant
            n == rows@.len(),
            i <= n,
            ids_unique(rows@),
            parents@.len() == i,
            forall|m: int| 0 <= m < i ==> #[trigger] parent_known(rows@, m),
            forall|m: int| 0 <= m < i ==> #[trigger] parents@[m] == tree_parent(rows@, m),
        decreases n - i,
    {
        match &rows[i].parent_id {
            None => {
                parents.push(None);
            },
            Some(p) => {
                match find_entry(rows, p) {
                    Some(j) => {
                        proof {
                            assert(names_parent(rows@, i as int, j as int));
                            let c = choose|c: usize|
                                c < rows@.len() && names_parent(rows@, i as int, c as int);
                            assert(rows@[c as int].entry_id@ == rows@[j as int].entry_id@);
                            if c < j {
                                assert(rows@[c as int].entry_id@ != rows@[j as int].entry_id@);
                            } else if j < c {
                                assert(rows@[j as int].entry_id@ != rows@[c as int].entry_id@);
                            }
                            assert(c == j);
                        }
                        parents.push(Some(j));
                    },
                    None => {
                        assert(!parent_known(rows@, i as int));
                        return Err(TreeRefusal::DisconnectedAncestry);
                    },
                }
            },
        }
        assert(parent_known(rows@, i as int));
        i += 1;
    }
    Ok(parents)
}

/// The shown row a row hangs from: the anchor of its parent, as the anchors of `anchors` say.
pub open spec fn hung_from(rows: Seq<TreeRow>, anchors: Seq<Option<usize>>, i: int) -> Option<
    usize,
> {
    match tree_parent(rows, i) {
        None => None,
        Some(p) => anchors[p as int],
    }
}

/// Whether `anchors` gives each row its anchor: itself where it is shown, else the anchor of its
/// parent, or none for a left out root. On a rooted forest these equations have one solution.
pub open spec fn anchors_follow(rows: Seq<TreeRow>, anchors: Seq<Option<usize>>) -> bool {
    &&& anchors.len() == rows.len()
    &&& forall|i: int|
        0 <= i < rows.len() ==> #[trigger] anchors[i] == if shown(rows[i]) {
            Some(i as usize)
        } else {
            hung_from(rows, anchors, i)
        }
}

/// What the first pass knows of a row it has visited.
pub open spec fn visited_row(
    rows: Seq<TreeRow>,
    tp: Seq<Option<usize>>,
    seen: Seq<bool>,
    anchors: Seq<Option<usize>>,
    hung: Seq<Option<usize>>,
    i: int,
) -> bool {
    &&& (match tp[i] {
        None => true,
        Some(p) => p < rows.len() && seen[p as int],
    })
    &&& anchors[i] == if shown(rows[i]) {
        Some(i as usize)
    } else {
        hung_from(rows, anchors, i)
    }
    &&& hung[i] == if shown(rows[i]) {
        hung_from(rows, anchors, i)
    } else {
        None
    }
    &&& exists|f: nat| #[trigger] reaches_root(rows, i, f)
}

/// What the first pass knows of a row waiting on its stack, with the anchor it will inherit.
pub open spec fn waiting_row(
    rows: Seq<TreeRow>,
    tp: Seq<Option<usize>>,
    seen: Seq<bool>,
    anchors: Seq<Option<usize>>,
    entry: (usize, Option<usize>),
) -> bool {
    &&& entry.0 < rows.len()
    &&& !seen[entry.0 as int]
    &&& entry.1 == hung_from(rows, anchors, entry.0 as int)
    &&& match tp[entry.0 as int] {
        None => true,
        Some(p) => p < rows.len() && seen[p as int],
    }
}

proof fn lemma_visited_bound(done: Set<int>, n: int, x: int)
    requires
        done.finite(),
        done.subset_of(set_int_range(0, n)),
        !done.contains(x),
        0 <= x < n,
    ensures
        done.insert(x).len() == done.len() + 1,
        done.insert(x).len() <= n,
{
    lemma_int_range(0, n);
    lemma_len_subset(done.insert(x), set_int_range(0, n));
}

/// Rows that reach a root are all visited, once nothing waits.
proof fn lemma_reached_rows_are_seen(
    rows: Seq<TreeRow>,
    tp: Seq<Option<usize>>,
    seen: Seq<bool>,
    i: int,
    f: nat,
)
    requires
        tp.len() == rows.len(),
        seen.len() == rows.len(),
        0 <= i < rows.len(),
        forall|m: int| 0 <= m < rows.len() ==> #[trigger] tp[m] == tree_parent(rows, m),
        forall|m: int| 0 <= m < rows.len() ==> parent_known(rows, m),
        forall|m: int|
            0 <= m < rows.len() ==> #[trigger] seen[m] || (tp[m] matches Some(p) && p
                < rows.len() && !seen[p as int]),
        reaches_root(rows, i, f),
    ensures
        seen[i],
    decreases f,
{
    match tp[i] {
        None => {},
        Some(p) => {
            assert(tp[i] == tree_parent(rows, i));
            assert(rows[i].parent_id is Some);
            let j = choose|j: int| 0 <= j < rows.len() && names_parent(rows, i, j);
            assert(parent_known(rows, i));
            assert(0 <= p < rows.len());
            lemma_reached_rows_are_seen(rows, tp, seen, p as int, (f - 1) as nat);
        },
    }
}

/// Whether a row is drawn.
fn shown_row(row: &TreeRow) -> (drawn: bool)
    ensures
        drawn == shown(*row),
{
    row.kind != TreeRowKind::ToolBatch || row.rewind == TreeRewindEligibility::Eligible
}

/// The first pass, from the roots down the journal's ancestry: each row's anchor, the shown row
/// each shown row hangs from, and the order rows were visited in. The last part of the answer
/// says whether every row was reached from a root.
fn anchor_rows(rows: &Vec<TreeRow>, tp: &Vec<Option<usize>>) -> (pass: (
    Vec<Option<usize>>,
    Vec<Option<usize>>,
    Vec<usize>,
    bool,
))
    requires
        tp@.len() == rows@.len(),
        forall|m: int| 0 <= m < rows@.len() ==> #[trigger] tp@[m] == tree_parent(rows@, m),
        forall|m: int| 0 <= m < rows@.len() ==> parent_known(rows@, m),
    ensures
        pass.3 == rooted(rows@),
        pass.2@.len() == rows@.len(),
        pass.3 ==> anchors_follow(rows@, pass.0@),
        pass.3 ==> pass.1@.len() == rows@.len() && forall|i: int|
            0 <= i < rows@.len() ==> #[trigger] pass.1@[i] == if shown(rows@[i]) {
                hung_from(rows@, pass.0@, i)
            } else {
                None
            },
{
    let n = rows.len();
    let mut seen: Vec<bool> = Vec::new();
    let mut anchors: Vec<Option<usize>> = Vec::new();
    let mut hung: Vec<Option<usize>> = Vec::new();
    let mut rank: Vec<usize> = Vec::new();
    let mut stack: Vec<(usize, Option<usize>)> = Vec::new();
    let mut k: usize = 0;
    while k < n
        invariant
            n == rows@.len(),
            n == tp@.len(),
            forall|m: int| 0 <= m < n ==> #[trigger] tp@[m] == tree_parent(rows@, m),
            k <= n,
            seen@.len() == k,
            anchors@.len() == k,
            hung@.len() == k,
            rank@.len() == k,
            forall|m: int| 0 <= m < k ==> !#[trigger] seen@[m],
            forall|m: int| 0 <= m < k ==> #[trigger] hung@[m] is None,
            forall|a: int|
                0 <= a < stack@.len() ==> #[trigger] stack@[a].0 < k && stack@[a].1 is None
                    && tp@[stack@[a].0 as int] is None,
            forall|a: int, b: int| 0 <= a < b < stack@.len() ==> stack@[a].0 < stack@[b].0,
            forall|m: int|
                0 <= m < k && #[trigger] tp@[m] is None ==> exists|a: int|
                    0 <= a < stack@.len() && stack@[a].0 == m,
        decreases n - k,
    {
        seen.push(false);
        anchors.push(None);
        hung.push(None);
        rank.push(0);
        let ghost before = stack@;
        if tp[k].is_none() {
            stack.push((k, None));
            assert(stack@[stack@.len() - 1].0 == k);
        }
        proof {
            assert forall|m: int| 0 <= m < k && #[trigger] tp@[m] is None implies exists|a: int|
                0 <= a < stack@.len() && stack@[a].0 == m by {
                let a = choose|a: int| 0 <= a < before.len() && before[a].0 == m;
                assert(stack@[a] == before[a]);
            }
        }
        k += 1;
    }
    let ghost mut done: Set<int> = Set::empty();
    let mut visited: usize = 0;
    proof {
        assert forall|a: int| 0 <= a < stack@.len() implies waiting_row(
            rows@,
            tp@,
            seen@,
            anchors@,
            #[trigger] stack@[a],
        ) by {
            assert(tp@[stack@[a].0 as int] == tree_parent(rows@, stack@[a].0 as int));
        }
        assert forall|m: int|
            0 <= m < n && #[trigger] seen@[m] implies visited_row(
            rows@,
            tp@,
            seen@,
            anchors@,
            hung@,
            m,
        ) by {}
        assert forall|m: int| 0 <= m < n implies #[trigger] seen@[m] || (exists|a: int|
            0 <= a < stack@.len() && stack@[a].0 == m) || (tp@[m] matches Some(p) && p < n
            && !seen@[p as int]) by {
            if tp@[m] is None {
            } else {
                let p = tp@[m]->0;
                assert(tp@[m] == tree_parent(rows@, m));
                assert(parent_known(rows@, m));
            }
        }
    }
    while stack.len() > 0
        invariant
            n == rows@.len(),
            n == tp@.len(),
            forall|m: int| 0 <= m < n ==> #[trigger] tp@[m] == tree_parent(rows@, m),
            forall|m: int| 0 <= m < n ==> parent_known(rows@, m),
            seen@.len() == n,
            anchors@.len() == n,
            hung@.len() == n,
            rank@.len() == n,
            done.finite(),
            done.subset_of(set_int_range(0, n as int)),
            done.len() == visited,
            forall|m: int| 0 <= m < n ==> (#[trigger] seen@[m] <==> done.contains(m)),
            forall|m: int| 0 <= m < n && !#[trigger] seen@[m] ==> hung@[m] is None,
            forall|m: int|
                0 <= m < n && #[trigger] seen@[m] ==> visited_row(
                    rows@,
                    tp@,
                    seen@,
                    anchors@,
                    hung@,
                    m,
                ),
            forall|a: int|
                0 <= a < stack@.len() ==> waiting_row(
                    rows@,
                    tp@,
                    seen@,
                    anchors@,
                    #[trigger] stack@[a],
                ),
            forall|a: int, b: int| 0 <= a < b < stack@.len() ==> stack@[a].0 != stack@[b].0,
            forall|m: int|
                0 <= m < n ==> #[trigger] seen@[m] || (exists|a: int|
                    0 <= a < stack@.len() && stack@[a].0 == m) || (tp@[m] matches Some(p) && p
                    < n && !seen@[p as int]),
        decreases n - visited,
    {
        let ghost full = stack@;
        let (x, inherited) = stack.pop().unwrap();
        proof {
            assert(waiting_row(rows@, tp@, seen@, anchors@, full[full.len() - 1]));
            lemma_visited_bound(done, n as int, x as int);
        }
        let ghost s0 = seen@;
        let ghost a0 = anchors@;
        let ghost h0 = hung@;
        let ghost base = stack@;
        seen.set(x, true);
        rank.set(x, visited);
        let anchor = if shown_row(&rows[x]) {
            hung.set(x, inherited);
            Some(x)
        } else {
            inherited
        };
        anchors.set(x, anchor);
        proof {
            done = done.insert(x as int);
        }
        let mut y: usize = 0;
        while y < n
            invariant
                n == rows@.len(),
                n == tp@.len(),
                x < n,
                y <= n,
                base.len() <= stack@.len(),
                forall|a: int| 0 <= a < base.len() ==> #[trigger] stack@[a] == base[a],
                forall|a: int|
                    base.len() <= a < stack@.len() ==> #[trigger] stack@[a].0 < y && stack@[a].1
                        == anchor && tp@[stack@[a].0 as int] == Some(x),
                forall|a: int, b: int|
                    base.len() <= a < b < stack@.len() ==> stack@[a].0 < stack@[b].0,
                forall|m: int|
                    0 <= m < y && #[trigger] tp@[m] == Some(x) ==> exists|a: int|
                        base.len() <= a < stack@.len() && stack@[a].0 == m,
            decreases n - y,
        {
            let ghost before = stack@;
            if tp[y] == Some(x) {
                stack.push((y, anchor));
                assert(stack@[stack@.len() - 1].0 == y);
            }
            proof {
                assert forall|m: int| 0 <= m < y && #[trigger] tp@[m] == Some(x) implies exists|a: int|
                    base.len() <= a < stack@.len() && stack@[a].0 == m by {
                    let a = choose|a: int| base.len() <= a < before.len() && before[a].0 == m;
                    assert(stack@[a] == before[a]);
                }
            }
            y += 1;
        }
        proof {
            assert forall|m: int|
                0 <= m < n && #[trigger] seen@[m] implies visited_row(
                rows@,
                tp@,
                seen@,
                anchors@,
                hung@,
                m,
            ) by {
                if m == x {
                    match tp@[m] {
                        None => {
                            assert(reaches_root(rows@, m, 0));
                        },
                        Some(p) => {
                            assert(visited_row(rows@, tp@, s0, a0, h0, p as int));
                            assert(p != x);
                            assert(anchors@[p as int] == a0[p as int]);
                            let f = choose|f: nat| reaches_root(rows@, p as int, f);
                            assert(reaches_root(rows@, m, f + 1));
                        },
                    }
                } else {
                    assert(s0[m]);
                    assert(visited_row(rows@, tp@, s0, a0, h0, m));
                    let f = choose|f: nat| reaches_root(rows@, m, f);
                    assert(reaches_root(rows@, m, f));
                }
            }
            assert forall|a: int| 0 <= a < stack@.len() implies waiting_row(
                rows@,
                tp@,
                seen@,
                anchors@,
                #[trigger] stack@[a],
            ) by {
                if a < base.len() {
                    assert(stack@[a] == full[a]);
                    assert(waiting_row(rows@, tp@, s0, a0, full[a]));
                    assert(full[a].0 != x);
                } else {
                    let yy = stack@[a].0;
                    if s0[yy as int] {
                        assert(visited_row(rows@, tp@, s0, a0, h0, yy as int));
                    }
                }
            }
            assert forall|a: int, b: int| 0 <= a < b < stack@.len() implies stack@[a].0
                != stack@[b].0 by {
                if b < base.len() {
                    assert(full[a].0 != full[b].0);
                } else if a < base.len() {
                    assert(waiting_row(rows@, tp@, s0, a0, full[a]));
                    assert(tp@[stack@[b].0 as int] == Some(x));
                }
            }
            assert forall|m: int| 0 <= m < n implies #[trigger] seen@[m] || (exists|a: int|
                0 <= a < stack@.len() && stack@[a].0 == m) || (tp@[m] matches Some(p) && p < n
                && !seen@[p as int]) by {
                if m != x && !s0[m] {
                    if exists|a: int| 0 <= a < full.len() && full[a].0 == m {
                        let a = choose|a: int| 0 <= a < full.len() && full[a].0 == m;
                        assert(a < base.len());
                        assert(stack@[a] == full[a]);
                    } else {
                        assert(tp@[m] matches Some(p) && p < n && !s0[p as int]);
                    }
                }
            }
        }
        visited += 1;
    }
    proof {
        assert forall|q: int| 0 <= q < n implies #[trigger] seen@[q] || (tp@[q] matches Some(p)
            && p < n && !seen@[p as int]) by {}
    }
    let mut m: usize = 0;
    while m < n
        invariant
            n == rows@.len(),
            n == tp@.len(),
            forall|q: int| 0 <= q < n ==> #[trigger] tp@[q] == tree_parent(rows@, q),
            forall|q: int| 0 <= q < n ==> parent_known(rows@, q),
            forall|q: int| 0 <= q < n ==> #[trigger] seen@[q] || (tp@[q] matches Some(p)
                && p < n && !seen@[p as int]),
            seen@.len() == n,
            rank@.len() == n,
            m <= n,
            forall|q: int| 0 <= q < m ==> #[trigger] seen@[q],
        decreases n - m,
    {
        if !seen[m] {
            proof {
                if rooted(rows@) {
                    assert(parent_known(rows@, m as int));
                    let f = choose|f: nat| reaches_root(rows@, m as int, f);
                    assert(reaches_root(rows@, m as int, f));
                    lemma_reached_rows_are_seen(rows@, tp@, seen@, m as int, f);
                }
            }
            return (anchors, hung, rank, false);
        }
        m += 1;
    }
    proof {
        assert forall|i: int| 0 <= i < n implies parent_known(rows@, i) && exists|f: nat|
            #[trigger] reaches_root(rows@, i, f) by {
            assert(seen@[i]);
            assert(visited_row(rows@, tp@, seen@, anchors@, hung@, i));
        }
        assert forall|i: int| 0 <= i < n implies #[trigger] anchors@[i] == if shown(rows@[i]) {
            Some(i as usize)
        } else {
            hung_from(rows@, anchors@, i)
        } by {
            assert(seen@[i]);
            assert(visited_row(rows@, tp@, seen@, anchors@, hung@, i));
        }
        assert forall|i: int| 0 <= i < n implies #[trigger] hung@[i] == if shown(rows@[i]) {
            hung_from(rows@, anchors@, i)
        } else {
            None
        } by {
            assert(seen@[i]);
            assert(visited_row(rows@, tp@, seen@, anchors@, hung@, i));
        }
    }
    (anchors, hung, rank, true)
}

/// Whether row `a` comes before row `b` among siblings: by chronology, then by the first pass's
/// visiting order.
pub open spec fn sibling_before(rows: Seq<TreeRow>, rank: Seq<usize>, a: int, b: int) -> bool {
    rows[a].chronological_ordinal < rows[b].chronological_ordinal || (
    rows[a].chronological_ordinal == rows[b].chronological_ordinal && rank[a] <= rank[b])
}

/// The shown rows that hang from `parent`, ordered as siblings are drawn.
fn shown_children(
    rows: &Vec<TreeRow>,
    hung: &Vec<Option<usize>>,
    rank: &Vec<usize>,
    parent: Option<usize>,
) -> (kids: Vec<usize>)
    requires
        hung@.len() == rows@.len(),
        rank@.len() == rows@.len(),
    ensures
        forall|a: int|
            0 <= a < kids@.len() ==> #[trigger] kids@[a] < rows@.len() && shown(
                rows@[kids@[a] as int],
            ) && hung@[kids@[a] as int] == parent,
        forall|x: int|
            0 <= x < rows@.len() && shown(rows@[x]) && #[trigger] hung@[x] == parent ==> exists|
                a: int,
            | 0 <= a < kids@.len() && kids@[a] == x,
        forall|a: int, b: int| 0 <= a < b < kids@.len() ==> kids@[a] != kids@[b],
        forall|a: int, b: int|
            0 <= a < b < kids@.len() ==> sibling_before(
                rows@,
                rank@,
                kids@[a] as int,
                kids@[b] as int,
            ),
{
    let n = rows.len();
    let mut kids: Vec<usize> = Vec::new();
    let mut x: usize = 0;
    while x < n
        invariant
            n == rows@.len(),
            hung@.len() == n,
            rank@.len() == n,
            x <= n,
            forall|a: int|
                0 <= a < kids@.len() ==> #[trigger] kids@[a] < x && shown(rows@[kids@[a] as int])
                    && hung@[kids@[a] as int] == parent,
            forall|y: int|
                0 <= y < x && shown(rows@[y]) && #[trigger] hung@[y] == parent ==> exists|a: int|
                    0 <= a < kids@.len() && kids@[a] == y,
            forall|a: int, b: int| 0 <= a < b < kids@.len() ==> kids@[a] != kids@[b],
            forall|a: int, b: int|
                0 <= a < b < kids@.len() ==> sibling_before(
                    rows@,
                    rank@,
                    kids@[a] as int,
                    kids@[b] as int,
                ),
        decreases n - x,
    {
        if shown_row(&rows[x]) && hung[x] == parent {
            let ordinal = rows[x].chronological_ordinal;
            let mut at: usize = 0;
            while at < kids.len() && (rows[kids[at]].chronological_ordinal < ordinal || (
            rows[kids[at]].chronological_ordinal == ordinal && rank[kids[at]] <= rank[x]))
                invariant
                    n == rows@.len(),
                    rank@.len() == n,
                    x < n,
                    ordinal == rows@[x as int].chronological_ordinal,
                    at <= kids@.len(),
                    forall|a: int| 0 <= a < kids@.len() ==> #[trigger] kids@[a] < x,
                    forall|a: int| 0 <= a < at ==> sibling_before(rows@, rank@, #[trigger] kids@[a] as int, x as int),
                decreases kids@.len() - at,
            {
                at += 1;
            }
            let ghost before = kids@;
            proof {
                if at < before.len() {
                    assert(!sibling_before(rows@, rank@, before[at as int] as int, x as int));
                    assert forall|b: int| at <= b < before.len() implies !sibling_before(
                        rows@,
                        rank@,
                        #[trigger] before[b] as int,
                        x as int,
                    ) by {
                        if b > at {
                            assert(sibling_before(rows@, rank@, before[at as int] as int, before[b] as int));
                        }
                    }
                }
            }
            kids.insert(at, x);
            proof {
                assert(kids@ == before.insert(at as int, x));
                assert forall|y: int|
                    0 <= y < x + 1 && shown(rows@[y]) && #[trigger] hung@[y] == parent implies exists|a: int|
                    0 <= a < kids@.len() && kids@[a] == y by {
                    if y == x {
                        assert(kids@[at as int] == x);
                    } else {
                        let a = choose|a: int| 0 <= a < before.len() && before[a] == y;
                        if a < at {
                            assert(kids@[a] == y);
                        } else {
                            assert(kids@[a + 1] == y);
                        }
                    }
                }
                assert forall|a: int, b: int| 0 <= a < b < kids@.len() implies sibling_before(
                    rows@,
                    rank@,
                    kids@[a] as int,
                    kids@[b] as int,
                ) by {
                    if b < at {
                    } else if b == at {
                    } else if a < at {
                        assert(kids@[b] == before[b - 1]);
                    } else if a == at {
                        assert(kids@[b] == before[b - 1]);
                        assert(!sibling_before(rows@, rank@, before[b - 1] as int, x as int));
                    } else {
                        assert(kids@[a] == before[a - 1]);
                        assert(kids@[b] == before[b - 1]);
                    }
                }
            }
        }
        x += 1;
    }
    kids
}

/// The lanes a row's children inherit: its own, and, where it has siblings, one more that runs
/// on unless it is the last of them.
pub open spec fn next_lanes(lanes: Seq<bool>, junction: Option<bool>) -> Seq<bool> {
    match junction {
        Some(last) => lanes.push(!last),
        None => lanes,
    }
}

/// The drawing position of the row that row `x` hangs from, or -1 for a top-level row.
pub open spec fn row_parent_position(
    parents: Seq<Option<usize>>,
    positions: Seq<usize>,
    x: int,
) -> int {
    match parents[x] {
        None => -1,
        Some(p) => positions[p as int] as int,
    }
}

/// The drawing position of the parent of the row drawn at `k`, or -1.
pub open spec fn parent_position(
    parents: Seq<Option<usize>>,
    positions: Seq<usize>,
    order: Seq<usize>,
    k: int,
) -> int {
    row_parent_position(parents, positions, order[k] as int)
}

/// Whether `y` is another shown row hanging from the same row as `x`.
pub open spec fn sibling_rows(
    rows: Seq<TreeRow>,
    parents: Seq<Option<usize>>,
    x: int,
    y: int,
) -> bool {
    0 <= y < rows.len() && y != x && shown(rows[y]) && parents[y] == parents[x]
}

/// Whether shown row `x` has a sibling.
pub open spec fn has_sibling(rows: Seq<TreeRow>, parents: Seq<Option<usize>>, x: int) -> bool {
    exists|y: int| #[trigger] sibling_rows(rows, parents, x, y)
}

/// The rows drawn so far: each once, each shown, each after the row it hangs from.
pub open spec fn drawn_rows(
    rows: Seq<TreeRow>,
    parents: Seq<Option<usize>>,
    order: Seq<usize>,
    positions: Seq<usize>,
    emitted: Seq<bool>,
) -> bool {
    &&& parents.len() == rows.len()
    &&& positions.len() == rows.len()
    &&& emitted.len() == rows.len()
    &&& forall|k: int|
        0 <= k < order.len() ==> {
            let x = #[trigger] order[k];
            &&& x < rows.len()
            &&& emitted[x as int]
            &&& positions[x as int] == k
            &&& shown(rows[x as int])
        }
    &&& forall|x: int|
        0 <= x < rows.len() && #[trigger] emitted[x] ==> shown(rows[x]) && positions[x]
            < order.len() && order[positions[x] as int] == x
    &&& forall|k: int|
        0 <= k < order.len() ==> match parents[#[trigger] order[k] as int] {
            None => true,
            Some(p) => p < rows.len() && emitted[p as int] && positions[p as int] < k,
        }
}

/// The drawn order is the forest's pre-order: everything between a row and its parent lies in
/// the parent's subtree, and siblings follow their chronology.
pub open spec fn drawn_shape(
    rows: Seq<TreeRow>,
    parents: Seq<Option<usize>>,
    order: Seq<usize>,
    positions: Seq<usize>,
) -> bool {
    &&& forall|j: int, k: int|
        #![trigger parent_position(parents, positions, order, j), parent_position(parents, positions, order, k)]
        0 <= j < k < order.len() && parent_position(parents, positions, order, k) < j
            ==> parent_position(parents, positions, order, k) <= parent_position(
            parents,
            positions,
            order,
            j,
        )
    &&& forall|j: int, k: int|
        #![trigger parent_position(parents, positions, order, j), parent_position(parents, positions, order, k)]
        0 <= j < k < order.len() && parent_position(parents, positions, order, j)
            == parent_position(parents, positions, order, k)
            ==> rows[order[j] as int].chronological_ordinal
            <= rows[order[k] as int].chronological_ordinal
}

/// Each drawn row's junction: none where it has no sibling, otherwise whether every sibling was
/// drawn before it.
pub open spec fn drawn_junctions(
    rows: Seq<TreeRow>,
    parents: Seq<Option<usize>>,
    order: Seq<usize>,
    positions: Seq<usize>,
    emitted: Seq<bool>,
    junctions: Seq<Option<bool>>,
) -> bool {
    &&& junctions.len() == order.len()
    &&& forall|k: int|
        0 <= k < order.len() ==> (#[trigger] junctions[k] is None <==> !has_sibling(
            rows,
            parents,
            order[k] as int,
        ))
    &&& forall|k: int|
        0 <= k < order.len() && #[trigger] junctions[k] is Some ==> (junctions[k]->0 <==> forall|
            y: int,
        |
            #[trigger] sibling_rows(rows, parents, order[k] as int, y) ==> emitted[y] && positions[y] < k)
}

/// Each drawn row's lanes: none at the top level, else those its parent's children inherit.
pub open spec fn drawn_lanes(
    parents: Seq<Option<usize>>,
    order: Seq<usize>,
    positions: Seq<usize>,
    lanes: Seq<Seq<bool>>,
    junctions: Seq<Option<bool>>,
) -> bool {
    &&& lanes.len() == order.len()
    &&& forall|k: int|
        0 <= k < order.len() ==> #[trigger] lanes[k] == match parents[order[k] as int] {
            None => Seq::empty(),
            Some(p) => next_lanes(lanes[positions[p as int] as int], junctions[positions[p as int] as int]),
        }
}

/// What is drawn before each drawn row and under it; nothing for a row not drawn.
pub open spec fn drawn_text(
    rows: Seq<TreeRow>,
    order: Seq<usize>,
    positions: Seq<usize>,
    emitted: Seq<bool>,
    lanes: Seq<Seq<bool>>,
    junctions: Seq<Option<bool>>,
    prefixes: Seq<Seq<char>>,
    rails: Seq<Seq<char>>,
) -> bool {
    &&& prefixes.len() == rows.len()
    &&& rails.len() == rows.len()
    &&& forall|k: int|
        0 <= k < order.len() ==> #[trigger] prefixes[order[k] as int] == prefix_text(
            lanes[k],
            junctions[k],
        ) && rails[order[k] as int] == prefix_text(next_lanes(lanes[k], junctions[k]), None)
    &&& forall|x: int|
        0 <= x < rows.len() && !#[trigger] emitted[x] ==> prefixes[x] == Seq::<char>::empty()
            && rails[x] == Seq::<char>::empty()
}

/// What the second pass knows of a row waiting on its stack at `a`.
pub open spec fn waiting_entry(
    rows: Seq<TreeRow>,
    parents: Seq<Option<usize>>,
    order: Seq<usize>,
    positions: Seq<usize>,
    emitted: Seq<bool>,
    lanes: Seq<Seq<bool>>,
    junctions: Seq<Option<bool>>,
    stack: Seq<PendingRow>,
    a: int,
) -> bool {
    let x = stack[a].0 as int;
    let q = row_parent_position(parents, positions, x);
    &&& 0 <= x < rows.len()
    &&& shown(rows[x])
    &&& !emitted[x]
    &&& match parents[x] {
        None => stack[a].1@ == Seq::<bool>::empty(),
        Some(p) => p < rows.len() && emitted[p as int] && stack[a].1@ == next_lanes(
            lanes[positions[p as int] as int],
            junctions[positions[p as int] as int],
        ),
    }
    &&& (stack[a].2 is None <==> !has_sibling(rows, parents, x))
    &&& (stack[a].2 is Some ==> (stack[a].2->0 <==> forall|b: int|
        0 <= b < a ==> !sibling_rows(rows, parents, x, #[trigger] stack[b].0 as int)))
    &&& forall|y: int|
        #[trigger] sibling_rows(rows, parents, x, y) ==> emitted[y] || exists|b: int|
            0 <= b < stack.len() && stack[b].0 == y
    &&& forall|k: int|
        0 <= k < order.len() && q < k ==> q <= #[trigger] parent_position(
            parents,
            positions,
            order,
            k,
        )
    &&& forall|k: int|
        0 <= k < order.len() && #[trigger] parent_position(parents, positions, order, k) == q
            ==> rows[order[k] as int].chronological_ordinal <= rows[x].chronological_ordinal
}

/// How the second pass's stack is ordered: no row twice, parents deeper towards the top, and
/// siblings in reverse chronology from the bottom.
pub open spec fn stack_shape(
    rows: Seq<TreeRow>,
    parents: Seq<Option<usize>>,
    positions: Seq<usize>,
    stack: Seq<PendingRow>,
) -> bool {
    &&& forall|a: int, b: int|
        0 <= a < b < stack.len() ==> #[trigger] stack[a].0 != #[trigger] stack[b].0
    &&& forall|a: int, b: int|
        0 <= a < b < stack.len() ==> row_parent_position(parents, positions, #[trigger] stack[a].0 as int)
            <= row_parent_position(parents, positions, #[trigger] stack[b].0 as int)
    &&& forall|a: int, b: int|
        0 <= a < b < stack.len() && parents[#[trigger] stack[a].0 as int] == parents[#[trigger] stack[b].0 as int]
            ==> rows[stack[b].0 as int].chronological_ordinal
            <= rows[stack[a].0 as int].chronological_ordinal
}

/// Every shown row is drawn, waits, or hangs from a row not drawn yet.
pub open spec fn covered(
    rows: Seq<TreeRow>,
    parents: Seq<Option<usize>>,
    emitted: Seq<bool>,
    stack: Seq<PendingRow>,
) -> bool {
    forall|x: int|
        0 <= x < rows.len() && shown(rows[x]) ==> #[trigger] emitted[x] || (exists|b: int|
            0 <= b < stack.len() && stack[b].0 == x) || (parents[x] matches Some(p) && p
            < rows.len() && !emitted[p as int])
}

/// The state of the drawn rows before and after drawing row `x` next.
pub open spec fn draws_next(
    rows: Seq<TreeRow>,
    parents: Seq<Option<usize>>,
    order0: Seq<usize>,
    positions0: Seq<usize>,
    emitted0: Seq<bool>,
    x: int,
    order: Seq<usize>,
    positions: Seq<usize>,
    emitted: Seq<bool>,
) -> bool {
    &&& drawn_rows(rows, parents, order0, positions0, emitted0)
    &&& rows.len() <= usize::MAX
    &&& order0.len() < rows.len()
    &&& 0 <= x < rows.len()
    &&& !emitted0[x]
    &&& shown(rows[x])
    &&& match parents[x] {
        None => true,
        Some(p) => p < rows.len() && emitted0[p as int],
    }
    &&& order == order0.push(x as usize)
    &&& positions == positions0.update(x, order0.len() as usize)
    &&& emitted == emitted0.update(x, true)
}

/// Drawing `x` next keeps the drawn rows drawn where they were, and places `x` after its parent.
proof fn lemma_draw_rows(
    rows: Seq<TreeRow>,
    parents: Seq<Option<usize>>,
    order0: Seq<usize>,
    positions0: Seq<usize>,
    emitted0: Seq<bool>,
    x: int,
    order: Seq<usize>,
    positions: Seq<usize>,
    emitted: Seq<bool>,
)
    requires
        draws_next(rows, parents, order0, positions0, emitted0, x, order, positions, emitted),
    ensures
        drawn_rows(rows, parents, order, positions, emitted),
        forall|j: int|
            0 <= j < order0.len() ==> #[trigger] parent_position(parents, positions, order, j)
                == parent_position(parents, positions0, order0, j),
        parent_position(parents, positions, order, order0.len() as int) == row_parent_position(
            parents,
            positions0,
            x,
        ),
        forall|y: int| 0 <= y < rows.len() && #[trigger] emitted0[y] ==> positions[y] == positions0[y],
{
    let k = order0.len() as int;
    assert forall|j: int| 0 <= j < k implies #[trigger] parent_position(parents, positions, order, j)
        == parent_position(parents, positions0, order0, j) by {
        assert(order[j] == order0[j]);
        assert(emitted0[order0[j] as int]);
        match parents[order0[j] as int] {
            None => {},
            Some(p) => {
                assert(emitted0[p as int]);
            },
        }
    }
    match parents[x] {
        None => {},
        Some(p) => {
            assert(emitted0[p as int]);
        },
    }
    assert forall|y: int| 0 <= y < rows.len() && #[trigger] emitted[y] implies shown(rows[y])
        && positions[y] < order.len() && order[positions[y] as int] == y by {
        if y != x {
            assert(emitted0[y]);
            assert(order[positions0[y] as int] == order0[positions0[y] as int]);
        } else {
            assert(order[k] == x);
        }
    }
    assert forall|j: int| 0 <= j < order.len() implies {
        let y = #[trigger] order[j];
        &&& y < rows.len()
        &&& emitted[y as int]
        &&& positions[y as int] == j
        &&& shown(rows[y as int])
    } by {
        if j < k {
            assert(order[j] == order0[j]);
            assert(emitted0[order0[j] as int]);
        }
    }
    assert forall|j: int| 0 <= j < order.len() implies match parents[#[trigger] order[j] as int] {
        None => true,
        Some(p) => p < rows.len() && emitted[p as int] && positions[p as int] < j,
    } by {
        if j < k {
            assert(order[j] == order0[j]);
            match parents[order0[j] as int] {
                None => {},
                Some(p) => {
                    assert(emitted0[p as int]);
                },
            }
        }
    }
}

/// Drawing `x` next keeps the pre-order, given that every row drawn since its parent lies under
/// that parent and that its drawn siblings are no later than it.
proof fn lemma_draw_shape(
    rows: Seq<TreeRow>,
    parents: Seq<Option<usize>>,
    order0: Seq<usize>,
    positions0: Seq<usize>,
    emitted0: Seq<bool>,
    x: int,
    order: Seq<usize>,
    positions: Seq<usize>,
    emitted: Seq<bool>,
)
    requires
        draws_next(rows, parents, order0, positions0, emitted0, x, order, positions, emitted),
        drawn_shape(rows, parents, order0, positions0),
        forall|k: int|
            0 <= k < order0.len() && row_parent_position(parents, positions0, x) < k
                ==> row_parent_position(parents, positions0, x) <= #[trigger] parent_position(
                parents,
                positions0,
                order0,
                k,
            ),
        forall|k: int|
            0 <= k < order0.len() && #[trigger] parent_position(parents, positions0, order0, k)
                == row_parent_position(parents, positions0, x)
                ==> rows[order0[k] as int].chronological_ordinal
                <= rows[x].chronological_ordinal,
    ensures
        drawn_shape(rows, parents, order, positions),
{
    lemma_draw_rows(rows, parents, order0, positions0, emitted0, x, order, positions, emitted);
    let k0 = order0.len() as int;
    assert forall|j: int, i: int|
        #![trigger parent_position(parents, positions, order, j), parent_position(parents, positions, order, i)]
        0 <= j < i < order.len() && parent_position(parents, positions, order, i) < j
        implies parent_position(parents, positions, order, i) <= parent_position(
        parents,
        positions,
        order,
        j,
    ) by {
        assert(parent_position(parents, positions, order, j) == parent_position(parents, positions0, order0, j));
        if i < k0 {
            assert(parent_position(parents, positions, order, i) == parent_position(parents, positions0, order0, i));
        }
    }
    assert forall|j: int, i: int|
        #![trigger parent_position(parents, positions, order, j), parent_position(parents, positions, order, i)]
        0 <= j < i < order.len() && parent_position(parents, positions, order, j)
        == parent_position(parents, positions, order, i) implies rows[order[j] as int].chronological_ordinal
        <= rows[order[i] as int].chronological_ordinal by {
        assert(parent_position(parents, positions, order, j) == parent_position(parents, positions0, order0, j));
        assert(order[j] == order0[j]);
        if i < k0 {
            assert(parent_position(parents, positions, order, i) == parent_position(parents, positions0, order0, i));
            assert(order[i] == order0[i]);
        }
    }
}

/// Drawing `x` next, with the junction `junction`, keeps each drawn row's junction right.
proof fn lemma_draw_junctions(
    rows: Seq<TreeRow>,
    parents: Seq<Option<usize>>,
    order0: Seq<usize>,
    positions0: Seq<usize>,
    emitted0: Seq<bool>,
    junctions0: Seq<Option<bool>>,
    x: int,
    junction: Option<bool>,
    order: Seq<usize>,
    positions: Seq<usize>,
    emitted: Seq<bool>,
)
    requires
        draws_next(rows, parents, order0, positions0, emitted0, x, order, positions, emitted),
        drawn_junctions(rows, parents, order0, positions0, emitted0, junctions0),
        junction is None <==> !has_sibling(rows, parents, x),
        junction is Some ==> (junction->0 <==> forall|y: int|
            sibling_rows(rows, parents, x, y) ==> #[trigger] emitted0[y]),
    ensures
        drawn_junctions(rows, parents, order, positions, emitted, junctions0.push(junction)),
{
    lemma_draw_rows(rows, parents, order0, positions0, emitted0, x, order, positions, emitted);
    let k0 = order0.len() as int;
    let junctions = junctions0.push(junction);
    assert forall|i: int|
        0 <= i < order.len() && #[trigger] junctions[i] is Some implies (junctions[i]->0
        <==> forall|y: int|
        #[trigger] sibling_rows(rows, parents, order[i] as int, y) ==> emitted[y] && positions[y] < i) by {
        if i < k0 {
            assert(junctions[i] == junctions0[i]);
            assert(order[i] == order0[i]);
            if sibling_rows(rows, parents, order[i] as int, x) {
                assert(!(forall|y: int|
                    sibling_rows(rows, parents, order0[i] as int, y) ==> emitted0[y]
                        && positions0[y] < i)) by {
                    assert(sibling_rows(rows, parents, order0[i] as int, x));
                }
                assert(!junctions0[i]->0);
                assert(!(forall|y: int|
                    sibling_rows(rows, parents, order[i] as int, y) ==> emitted[y]
                        && positions[y] < i)) by {
                    assert(sibling_rows(rows, parents, order[i] as int, x));
                }
            } else {
                let z = order0[i] as int;
                assert(junctions0[i] is Some);
                assert(junctions0[i]->0 == (forall|y: int|
                    #[trigger] sibling_rows(rows, parents, z, y) ==> emitted0[y] && positions0[y] < i));
                if junctions0[i]->0 {
                    assert forall|y: int| sibling_rows(rows, parents, z, y) implies emitted[y]
                        && positions[y] < i by {
                        assert(emitted0[y] && positions0[y] < i);
                    }
                } else {
                    assert(exists|y: int|
                        #[trigger] sibling_rows(rows, parents, z, y) && !(emitted0[y] && positions0[y] < i));
                    let y = choose|y: int|
                        #[trigger] sibling_rows(rows, parents, z, y) && !(emitted0[y] && positions0[y] < i);
                    assert(0 <= y < rows.len() && y != x);
                    if emitted0[y] {
                        assert(positions[y] == positions0[y]);
                    }
                    assert(!(emitted[y] && positions[y] < i));
                }
            }
        } else {
            assert(order[i] == x);
            if junction->0 {
                assert forall|y: int| sibling_rows(rows, parents, x, y) implies emitted[y]
                    && positions[y] < i by {
                    assert(emitted0[y]);
                    assert(positions[y] == positions0[y]);
                }
            } else {
                let y = choose|y: int| sibling_rows(rows, parents, x, y) && !emitted0[y];
                assert(!emitted[y]);
            }
        }
    }
    assert forall|i: int|
        0 <= i < order.len() implies (#[trigger] junctions[i] is None <==> !has_sibling(
        rows,
        parents,
        order[i] as int,
    )) by {
        if i < k0 {
            assert(junctions[i] == junctions0[i]);
            assert(order[i] == order0[i]);
        }
    }
}

/// Drawing `x` next with the lanes its parent's children inherit keeps each drawn row's lanes.
proof fn lemma_draw_lanes(
    rows: Seq<TreeRow>,
    parents: Seq<Option<usize>>,
    order0: Seq<usize>,
    positions0: Seq<usize>,
    emitted0: Seq<bool>,
    lanes0: Seq<Seq<bool>>,
    junctions0: Seq<Option<bool>>,
    x: int,
    lane: Seq<bool>,
    junction: Option<bool>,
    order: Seq<usize>,
    positions: Seq<usize>,
    emitted: Seq<bool>,
)
    requires
        draws_next(rows, parents, order0, positions0, emitted0, x, order, positions, emitted),
        junctions0.len() == order0.len(),
        drawn_lanes(parents, order0, positions0, lanes0, junctions0),
        lane == match parents[x] {
            None => Seq::empty(),
            Some(p) => next_lanes(
                lanes0[positions0[p as int] as int],
                junctions0[positions0[p as int] as int],
            ),
        },
    ensures
        drawn_lanes(parents, order, positions, lanes0.push(lane), junctions0.push(junction)),
{
    lemma_draw_rows(rows, parents, order0, positions0, emitted0, x, order, positions, emitted);
    let k0 = order0.len() as int;
    let lanes = lanes0.push(lane);
    let junctions = junctions0.push(junction);
    assert forall|i: int| 0 <= i < order.len() implies #[trigger] lanes[i] == match parents[order[i] as int] {
        None => Seq::empty(),
        Some(p) => next_lanes(lanes[positions[p as int] as int], junctions[positions[p as int] as int]),
    } by {
        if i < k0 {
            assert(order[i] == order0[i]);
            assert(lanes[i] == lanes0[i]);
            match parents[order0[i] as int] {
                None => {},
                Some(p) => {
                    assert(emitted0[p as int]);
                    assert(positions[p as int] == positions0[p as int]);
                },
            }
        } else {
            assert(order[i] == x);
            match parents[x] {
                None => {},
                Some(p) => {
                    assert(emitted0[p as int]);
                    assert(positions[p as int] == positions0[p as int]);
                },
            }
        }
    }
}

/// Drawing `x` next with these lanes and junction keeps each row's prefix and rails right.
proof fn lemma_draw_text(
    rows: Seq<TreeRow>,
    parents: Seq<Option<usize>>,
    order0: Seq<usize>,
    positions0: Seq<usize>,
    emitted0: Seq<bool>,
    lanes0: Seq<Seq<bool>>,
    junctions0: Seq<Option<bool>>,
    prefixes0: Seq<Seq<char>>,
    rails0: Seq<Seq<char>>,
    x: int,
    lane: Seq<bool>,
    junction: Option<bool>,
    order: Seq<usize>,
    positions: Seq<usize>,
    emitted: Seq<bool>,
)
    requires
        draws_next(rows, parents, order0, positions0, emitted0, x, order, positions, emitted),
        junctions0.len() == order0.len(),
        lanes0.len() == order0.len(),
        drawn_text(rows, order0, positions0, emitted0, lanes0, junctions0, prefixes0, rails0),
    ensures
        drawn_text(
            rows,
            order,
            positions,
            emitted,
            lanes0.push(lane),
            junctions0.push(junction),
            prefixes0.update(x, prefix_text(lane, junction)),
            rails0.update(x, prefix_text(next_lanes(lane, junction), None)),
        ),
{
    let k0 = order0.len() as int;
    let lanes = lanes0.push(lane);
    let junctions = junctions0.push(junction);
    let prefixes = prefixes0.update(x, prefix_text(lane, junction));
    let rails = rails0.update(x, prefix_text(next_lanes(lane, junction), None));
    assert forall|i: int| 0 <= i < order.len() implies #[trigger] prefixes[order[i] as int]
        == prefix_text(lanes[i], junctions[i]) && rails[order[i] as int] == prefix_text(
        next_lanes(lanes[i], junctions[i]),
        None,
    ) by {
        if i < k0 {
            assert(order[i] == order0[i]);
            assert(emitted0[order0[i] as int]);
            assert(order0[i] != x);
            assert(lanes[i] == lanes0[i]);
            assert(junctions[i] == junctions0[i]);
            assert(prefixes0[order0[i] as int] == prefix_text(lanes0[i], junctions0[i]));
        } else {
            assert(order[i] == x);
        }
    }
    assert forall|y: int| 0 <= y < rows.len() && !#[trigger] emitted[y] implies prefixes[y]
        == Seq::<char>::empty() && rails[y] == Seq::<char>::empty() by {
        assert(!emitted0[y]);
    }
}

/// The second pass's stack after drawing its top row `full.last()`: the rows below it, then the
/// children `kids` of the drawn row pushed last first.
pub open spec fn stack_after_draw(
    full: Seq<PendingRow>,
    kids: Seq<usize>,
    stack: Seq<PendingRow>,
) -> bool {
    let t = full.len() - 1;
    let m = kids.len();
    &&& full.len() > 0
    &&& stack.len() == t + m
    &&& forall|a: int| 0 <= a < t ==> #[trigger] stack[a] == full[a]
    &&& forall|i: int|
        0 <= i < m ==> {
            let row = #[trigger] stack[t + i];
            &&& row.0 == kids[m - 1 - i]
            &&& row.1@ == next_lanes(full[t].1@, full[t].2)
            &&& row.2 == junction_of(m - 1 - i, m as int)
        }
}

/// `kids` are exactly the shown rows hanging from `x`, each once, in chronological order.
pub open spec fn children_listed(
    rows: Seq<TreeRow>,
    parents: Seq<Option<usize>>,
    x: int,
    kids: Seq<usize>,
) -> bool {
    &&& forall|a: int|
        0 <= a < kids.len() ==> #[trigger] kids[a] < rows.len() && shown(rows[kids[a] as int])
            && parents[kids[a] as int] == Some(x as usize)
    &&& forall|y: int|
        0 <= y < rows.len() && shown(rows[y]) && #[trigger] parents[y] == Some(x as usize) ==> exists|
            a: int,
        | 0 <= a < kids.len() && kids[a] == y
    &&& forall|a: int, b: int| 0 <= a < b < kids.len() ==> kids[a] != kids[b]
    &&& forall|a: int, b: int|
        0 <= a < b < kids.len() ==> rows[kids[a] as int].chronological_ordinal
            <= rows[kids[b] as int].chronological_ordinal
}

/// Rows at equal parent positions hang from the same row.
proof fn lemma_same_parent_position(
    rows: Seq<TreeRow>,
    parents: Seq<Option<usize>>,
    order: Seq<usize>,
    positions: Seq<usize>,
    emitted: Seq<bool>,
    x: int,
    y: int,
)
    requires
        drawn_rows(rows, parents, order, positions, emitted),
        match parents[x] {
            None => true,
            Some(p) => p < rows.len() && emitted[p as int],
        },
        match parents[y] {
            None => true,
            Some(p) => p < rows.len() && emitted[p as int],
        },
        row_parent_position(parents, positions, x) == row_parent_position(parents, positions, y),
    ensures
        parents[x] == parents[y],
{
    match (parents[x], parents[y]) {
        (Some(p), Some(r)) => {
            assert(order[positions[p as int] as int] == p);
            assert(order[positions[r as int] as int] == r);
        },
        _ => {},
    }
}

/// An entry that waited below the top still waits after the top is drawn.
proof fn lemma_draw_keeps_waiting(
    rows: Seq<TreeRow>,
    parents: Seq<Option<usize>>,
    order0: Seq<usize>,
    positions0: Seq<usize>,
    emitted0: Seq<bool>,
    lanes0: Seq<Seq<bool>>,
    junctions0: Seq<Option<bool>>,
    full: Seq<PendingRow>,
    kids: Seq<usize>,
    stack: Seq<PendingRow>,
    order: Seq<usize>,
    positions: Seq<usize>,
    emitted: Seq<bool>,
    a: int,
)
    requires
        full.len() > 0,
        draws_next(
            rows,
            parents,
            order0,
            positions0,
            emitted0,
            full[full.len() - 1].0 as int,
            order,
            positions,
            emitted,
        ),
        lanes0.len() == order0.len(),
        junctions0.len() == order0.len(),
        forall|b: int|
            0 <= b < full.len() ==> waiting_entry(
                rows,
                parents,
                order0,
                positions0,
                emitted0,
                lanes0,
                junctions0,
                full,
                b,
            ),
        stack_shape(rows, parents, positions0, full),
        stack_after_draw(full, kids, stack),
        0 <= a < full.len() - 1,
    ensures
        waiting_entry(
            rows,
            parents,
            order,
            positions,
            emitted,
            lanes0.push(full[full.len() - 1].1@),
            junctions0.push(full[full.len() - 1].2),
            stack,
            a,
        ),
{
    let t = full.len() - 1;
    let x = full[t].0 as int;
    let k0 = order0.len() as int;
    let lanes = lanes0.push(full[t].1@);
    let junctions = junctions0.push(full[t].2);
    lemma_draw_rows(rows, parents, order0, positions0, emitted0, x, order, positions, emitted);
    assert(waiting_entry(rows, parents, order0, positions0, emitted0, lanes0, junctions0, full, a));
    assert(waiting_entry(rows, parents, order0, positions0, emitted0, lanes0, junctions0, full, t));
    let xa = full[a].0 as int;
    assert(stack[a] == full[a]);
    assert(full[a].0 != full[t].0);
    let q = row_parent_position(parents, positions0, xa);
    assert(row_parent_position(parents, positions, xa) == q) by {
        match parents[xa] {
            None => {},
            Some(p) => {
                assert(emitted0[p as int]);
            },
        }
    }
    match parents[xa] {
        None => {},
        Some(p) => {
            assert(emitted0[p as int]);
            assert(positions[p as int] == positions0[p as int]);
            assert(lanes[positions0[p as int] as int] == lanes0[positions0[p as int] as int]);
            assert(junctions[positions0[p as int] as int] == junctions0[positions0[p as int] as int]);
        },
    }
    if full[a].2 is Some {
        if full[a].2->0 {
            assert forall|b: int| 0 <= b < a implies !sibling_rows(rows, parents, xa, #[trigger] stack[b].0 as int) by {
                assert(stack[b] == full[b]);
                assert(!sibling_rows(rows, parents, xa, full[b].0 as int));
            }
        } else {
            let b = choose|b: int| 0 <= b < a && sibling_rows(rows, parents, xa, #[trigger] full[b].0 as int);
            assert(stack[b] == full[b]);
            assert(sibling_rows(rows, parents, xa, stack[b].0 as int));
        }
    }
    assert forall|y: int| #[trigger] sibling_rows(rows, parents, xa, y) implies emitted[y] || exists|b: int|
        0 <= b < stack.len() && stack[b].0 == y by {
        if !emitted0[y] {
            let b = choose|b: int| 0 <= b < full.len() && full[b].0 == y;
            if b < t {
                assert(stack[b] == full[b]);
            }
        }
    }
    let qt = row_parent_position(parents, positions0, x);
    assert(qt >= q) by {
        assert(row_parent_position(parents, positions0, full[a].0 as int) <= row_parent_position(
            parents,
            positions0,
            full[t].0 as int,
        ));
    }
    assert forall|k: int|
        0 <= k < order.len() && q < k implies q <= #[trigger] parent_position(
        parents,
        positions,
        order,
        k,
    ) by {
        if k < k0 {
            assert(parent_position(parents, positions, order, k) == parent_position(
                parents,
                positions0,
                order0,
                k,
            ));
        }
    }
    assert forall|k: int|
        0 <= k < order.len() && #[trigger] parent_position(parents, positions, order, k) == q
        implies rows[order[k] as int].chronological_ordinal <= rows[xa].chronological_ordinal by {
        if k < k0 {
            assert(parent_position(parents, positions, order, k) == parent_position(
                parents,
                positions0,
                order0,
                k,
            ));
            assert(order[k] == order0[k]);
        } else {
            assert(order[k] == x);
            lemma_same_parent_position(rows, parents, order0, positions0, emitted0, xa, x);
            assert(parents[full[a].0 as int] == parents[full[t].0 as int]);
        }
    }
}

/// A child pushed after drawing the top waits with the lanes and junction it is owed.
proof fn lemma_draw_pushes_waiting(
    rows: Seq<TreeRow>,
    parents: Seq<Option<usize>>,
    order0: Seq<usize>,
    positions0: Seq<usize>,
    emitted0: Seq<bool>,
    lanes0: Seq<Seq<bool>>,
    junctions0: Seq<Option<bool>>,
    full: Seq<PendingRow>,
    kids: Seq<usize>,
    stack: Seq<PendingRow>,
    order: Seq<usize>,
    positions: Seq<usize>,
    emitted: Seq<bool>,
    i: int,
)
    requires
        full.len() > 0,
        draws_next(
            rows,
            parents,
            order0,
            positions0,
            emitted0,
            full[full.len() - 1].0 as int,
            order,
            positions,
            emitted,
        ),
        lanes0.len() == order0.len(),
        junctions0.len() == order0.len(),
        forall|b: int|
            0 <= b < full.len() ==> waiting_entry(
                rows,
                parents,
                order0,
                positions0,
                emitted0,
                lanes0,
                junctions0,
                full,
                b,
            ),
        children_listed(rows, parents, full[full.len() - 1].0 as int, kids),
        stack_after_draw(full, kids, stack),
        0 <= i < kids.len(),
    ensures
        waiting_entry(
            rows,
            parents,
            order,
            positions,
            emitted,
            lanes0.push(full[full.len() - 1].1@),
            junctions0.push(full[full.len() - 1].2),
            stack,
            full.len() - 1 + i,
        ),
{
    let t = full.len() - 1;
    let x = full[t].0 as int;
    let k0 = order0.len() as int;
    let m = kids.len() as int;
    let lanes = lanes0.push(full[t].1@);
    let junctions = junctions0.push(full[t].2);
    lemma_draw_rows(rows, parents, order0, positions0, emitted0, x, order, positions, emitted);
    let a = t + i;
    let c = kids[m - 1 - i] as int;
    assert(stack[a].0 == kids[m - 1 - i]);
    assert(parents[c] == Some(x as usize));
    // The child is new.
    assert(c != x) by {
        if c == x {
            assert(waiting_entry(rows, parents, order0, positions0, emitted0, lanes0, junctions0, full, t));
        }
    }
    assert(!emitted0[c]) by {
        if emitted0[c] {
            assert(order0[positions0[c] as int] == c);
        }
    }
    // Its lanes.
    assert(positions[x] == k0);
    assert(lanes[k0] == full[t].1@);
    assert(junctions[k0] == full[t].2);
    // Its junction.
    assert((stack[a].2 is None) <==> !has_sibling(rows, parents, c)) by {
        if m > 1 {
            let other = if i == 0 { m - 2 } else { m - 1 };
            assert(kids[other] != kids[m - 1 - i]);
            assert(sibling_rows(rows, parents, c, kids[other] as int));
        }
        if has_sibling(rows, parents, c) {
            let y = choose|y: int| #[trigger] sibling_rows(rows, parents, c, y);
            let b = choose|b: int| 0 <= b < kids.len() && kids[b] == y;
            assert(b != m - 1 - i);
        }
    }
    if stack[a].2 is Some {
        if i == 0 {
            assert forall|b: int| 0 <= b < a implies !sibling_rows(rows, parents, c, #[trigger] stack[b].0 as int) by {
                assert(stack[b] == full[b]);
                assert(waiting_entry(rows, parents, order0, positions0, emitted0, lanes0, junctions0, full, b));
            }
        } else {
            assert(stack[t + 0].0 == kids[m - 1 - 0]);
            assert(kids[m - 1] != kids[m - 1 - i]);
            assert(sibling_rows(rows, parents, c, stack[t].0 as int));
        }
    }
    // Its siblings all wait.
    assert forall|y: int| #[trigger] sibling_rows(rows, parents, c, y) implies emitted[y] || exists|b: int|
        0 <= b < stack.len() && stack[b].0 == y by {
        let j = choose|j: int| 0 <= j < kids.len() && kids[j] == y;
        assert(stack[t + (m - 1 - j)].0 == kids[j]);
    }
    // Nothing is drawn under it yet.
    assert forall|k: int|
        0 <= k < order.len() && k0 < k implies k0 <= #[trigger] parent_position(
        parents,
        positions,
        order,
        k,
    ) by {}
    assert forall|k: int|
        0 <= k < order.len() && #[trigger] parent_position(parents, positions, order, k) == k0
        implies rows[order[k] as int].chronological_ordinal <= rows[c].chronological_ordinal by {
        match parents[order[k] as int] {
            None => {},
            Some(p) => {
                assert(positions[p as int] < k);
            },
        }
    }
}

/// Drawing the top and pushing its children keeps the stack's order, and keeps every shown row
/// drawn, waiting, or under a row not drawn.
proof fn lemma_draw_stack_shape(
    rows: Seq<TreeRow>,
    parents: Seq<Option<usize>>,
    order0: Seq<usize>,
    positions0: Seq<usize>,
    emitted0: Seq<bool>,
    lanes0: Seq<Seq<bool>>,
    junctions0: Seq<Option<bool>>,
    full: Seq<PendingRow>,
    kids: Seq<usize>,
    stack: Seq<PendingRow>,
    order: Seq<usize>,
    positions: Seq<usize>,
    emitted: Seq<bool>,
)
    requires
        full.len() > 0,
        draws_next(
            rows,
            parents,
            order0,
            positions0,
            emitted0,
            full[full.len() - 1].0 as int,
            order,
            positions,
            emitted,
        ),
        lanes0.len() == order0.len(),
        junctions0.len() == order0.len(),
        forall|b: int|
            0 <= b < full.len() ==> waiting_entry(
                rows,
                parents,
                order0,
                positions0,
                emitted0,
                lanes0,
                junctions0,
                full,
                b,
            ),
        stack_shape(rows, parents, positions0, full),
        covered(rows, parents, emitted0, full),
        children_listed(rows, parents, full[full.len() - 1].0 as int, kids),
        stack_after_draw(full, kids, stack),
    ensures
        stack_shape(rows, parents, positions, stack),
        covered(rows, parents, emitted, stack),
{
    let t = full.len() - 1;
    let x = full[t].0 as int;
    let k0 = order0.len() as int;
    let m = kids.len() as int;
    lemma_draw_rows(rows, parents, order0, positions0, emitted0, x, order, positions, emitted);
    // Below the top, nothing hangs from the drawn row, and parent positions are unchanged.
    assert forall|b: int| 0 <= b < t implies parents[#[trigger] stack[b].0 as int] != Some(x as usize)
        && row_parent_position(parents, positions, stack[b].0 as int) == row_parent_position(
        parents,
        positions0,
        stack[b].0 as int,
    ) && row_parent_position(parents, positions0, stack[b].0 as int) < k0 by {
        assert(stack[b] == full[b]);
        assert(waiting_entry(rows, parents, order0, positions0, emitted0, lanes0, junctions0, full, b));
        match parents[full[b].0 as int] {
            None => {},
            Some(p) => {
                assert(emitted0[p as int]);
            },
        }
    }
    assert forall|i: int| 0 <= i < m implies parents[#[trigger] stack[t + i].0 as int] == Some(x as usize)
        && row_parent_position(parents, positions, stack[t + i].0 as int) == k0 by {
        assert(stack[t + i].0 == kids[m - 1 - i]);
    }
    assert forall|a: int, b: int| 0 <= a < b < stack.len() implies #[trigger] stack[a].0
        != #[trigger] stack[b].0 by {
        if b < t {
            assert(stack[a] == full[a]);
            assert(stack[b] == full[b]);
        } else if a < t {
            assert(parents[stack[t + (b - t)].0 as int] == Some(x as usize));
        } else {
            assert(stack[t + (a - t)].0 == kids[m - 1 - (a - t)]);
            assert(stack[t + (b - t)].0 == kids[m - 1 - (b - t)]);
        }
    }
    assert forall|a: int, b: int| 0 <= a < b < stack.len() implies row_parent_position(
        parents,
        positions,
        #[trigger] stack[a].0 as int,
    ) <= row_parent_position(parents, positions, #[trigger] stack[b].0 as int) by {
        if b < t {
            assert(stack[a] == full[a]);
            assert(stack[b] == full[b]);
        } else if a < t {
            assert(parents[stack[t + (b - t)].0 as int] == Some(x as usize));
        } else {
            assert(parents[stack[t + (a - t)].0 as int] == Some(x as usize));
            assert(parents[stack[t + (b - t)].0 as int] == Some(x as usize));
        }
    }
    assert forall|a: int, b: int|
        0 <= a < b < stack.len() && parents[#[trigger] stack[a].0 as int]
            == parents[#[trigger] stack[b].0 as int] implies rows[stack[b].0 as int].chronological_ordinal
        <= rows[stack[a].0 as int].chronological_ordinal by {
        if b < t {
            assert(stack[a] == full[a]);
            assert(stack[b] == full[b]);
        } else if a < t {
            assert(parents[stack[t + (b - t)].0 as int] == Some(x as usize));
        } else {
            assert(stack[t + (a - t)].0 == kids[m - 1 - (a - t)]);
            assert(stack[t + (b - t)].0 == kids[m - 1 - (b - t)]);
        }
    }
    assert forall|y: int|
        0 <= y < rows.len() && shown(rows[y]) implies #[trigger] emitted[y] || (exists|b: int|
        0 <= b < stack.len() && stack[b].0 == y) || (parents[y] matches Some(p) && p < rows.len()
        && !emitted[p as int]) by {
        if y != x && !emitted0[y] {
            if exists|b: int| 0 <= b < full.len() && full[b].0 == y {
                let b = choose|b: int| 0 <= b < full.len() && full[b].0 == y;
                assert(stack[b] == full[b]);
            } else if parents[y] == Some(x as usize) {
                let j = choose|j: int| 0 <= j < kids.len() && kids[j] == y;
                assert(stack[t + (m - 1 - j)].0 == kids[j]);
            }
        }
    }
}

proof fn lemma_reaches_more(rows: Seq<TreeRow>, i: int, f: nat)
    requires
        reaches_root(rows, i, f),
    ensures
        reaches_root(rows, i, f + 1),
    decreases f,
{
    match tree_parent(rows, i) {
        None => {},
        Some(p) => {
            lemma_reaches_more(rows, p as int, (f - 1) as nat);
        },
    }
}

/// A row's anchor is a shown row that reaches a root no later than the row does.
proof fn lemma_anchor_reaches(
    rows: Seq<TreeRow>,
    anchors: Seq<Option<usize>>,
    j: int,
    f: nat,
)
    requires
        anchors_follow(rows, anchors),
        forall|m: int| 0 <= m < rows.len() ==> parent_known(rows, m),
        rows.len() <= usize::MAX,
        0 <= j < rows.len(),
        reaches_root(rows, j, f),
    ensures
        anchors[j] matches Some(a) ==> a < rows.len() && shown(rows[a as int]) && reaches_root(
            rows,
            a as int,
            f,
        ),
    decreases f,
{
    if !shown(rows[j]) {
        match tree_parent(rows, j) {
            None => {},
            Some(p) => {
                assert(parent_known(rows, j));
                lemma_anchor_reaches(rows, anchors, p as int, (f - 1) as nat);
                match anchors[p as int] {
                    None => {},
                    Some(a) => {
                        lemma_reaches_more(rows, a as int, (f - 1) as nat);
                    },
                }
            },
        }
    }
}

/// Once nothing waits, every shown row that reaches a root is drawn.
proof fn lemma_all_drawn(
    rows: Seq<TreeRow>,
    anchors: Seq<Option<usize>>,
    parents: Seq<Option<usize>>,
    emitted: Seq<bool>,
    y: int,
    f: nat,
)
    requires
        anchors_follow(rows, anchors),
        forall|m: int| 0 <= m < rows.len() ==> parent_known(rows, m),
        rows.len() <= usize::MAX,
        parents.len() == rows.len(),
        forall|m: int|
            0 <= m < rows.len() && shown(rows[m]) ==> #[trigger] parents[m] == hung_from(
                rows,
                anchors,
                m,
            ),
        covered(rows, parents, emitted, Seq::empty()),
        0 <= y < rows.len(),
        shown(rows[y]),
        reaches_root(rows, y, f),
    ensures
        emitted[y],
    decreases f,
{
    if !emitted[y] {
        assert(parents[y] == hung_from(rows, anchors, y));
        match tree_parent(rows, y) {
            None => {},
            Some(t) => {
                assert(parent_known(rows, y));
                lemma_anchor_reaches(rows, anchors, t as int, (f - 1) as nat);
                match anchors[t as int] {
                    None => {},
                    Some(p) => {
                        lemma_all_drawn(rows, anchors, parents, emitted, p as int, (f - 1) as nat);
                    },
                }
            },
        }
    }
}

/// `roots` are exactly the shown rows that hang from no row, each once, in chronological order.
pub open spec fn roots_listed(
    rows: Seq<TreeRow>,
    parents: Seq<Option<usize>>,
    roots: Seq<usize>,
) -> bool {
    &&& forall|a: int|
        0 <= a < roots.len() ==> #[trigger] roots[a] < rows.len() && shown(rows[roots[a] as int])
            && parents[roots[a] as int] is None
    &&& forall|y: int|
        0 <= y < rows.len() && shown(rows[y]) && #[trigger] parents[y] is None ==> exists|a: int|
            0 <= a < roots.len() && roots[a] == y
    &&& forall|a: int, b: int| 0 <= a < b < roots.len() ==> roots[a] != roots[b]
    &&& forall|a: int, b: int|
        0 <= a < b < roots.len() ==> rows[roots[a] as int].chronological_ordinal
            <= rows[roots[b] as int].chronological_ordinal
}

/// Before anything is drawn, with the top-level rows pushed last first, the second pass's
/// invariants hold.
#[verifier::spinoff_prover]
proof fn lemma_draw_start(
    rows: Seq<TreeRow>,
    parents: Seq<Option<usize>>,
    positions: Seq<usize>,
    emitted: Seq<bool>,
    prefixes: Seq<Seq<char>>,
    rails: Seq<Seq<char>>,
    roots: Seq<usize>,
    stack: Seq<PendingRow>,
)
    requires
        parents.len() == rows.len(),
        positions.len() == rows.len(),
        emitted.len() == rows.len(),
        prefixes.len() == rows.len(),
        rails.len() == rows.len(),
        forall|y: int| 0 <= y < rows.len() ==> !#[trigger] emitted[y],
        forall|y: int|
            0 <= y < rows.len() ==> #[trigger] prefixes[y] == Seq::<char>::empty() && rails[y]
                == Seq::<char>::empty(),
        forall|y: int|
            0 <= y < rows.len() && shown(rows[y]) ==> match #[trigger] parents[y] {
                None => true,
                Some(p) => p < rows.len(),
            },
        roots_listed(rows, parents, roots),
        stack.len() == roots.len(),
        forall|i: int|
            0 <= i < roots.len() ==> {
                let row = #[trigger] stack[i];
                &&& row.0 == roots[roots.len() - 1 - i]
                &&& row.1@ == Seq::<bool>::empty()
                &&& row.2 == junction_of(roots.len() - 1 - i, roots.len() as int)
            },
    ensures
        drawn_rows(rows, parents, Seq::empty(), positions, emitted),
        drawn_shape(rows, parents, Seq::empty(), positions),
        drawn_junctions(rows, parents, Seq::empty(), positions, emitted, Seq::empty()),
        drawn_lanes(parents, Seq::empty(), positions, Seq::empty(), Seq::empty()),
        drawn_text(rows, Seq::empty(), positions, emitted, Seq::empty(), Seq::empty(), prefixes, rails),
        forall|a: int|
            0 <= a < stack.len() ==> waiting_entry(
                rows,
                parents,
                Seq::empty(),
                positions,
                emitted,
                Seq::empty(),
                Seq::empty(),
                stack,
                a,
            ),
        stack_shape(rows, parents, positions, stack),
        covered(rows, parents, emitted, stack),
{
    let m = roots.len() as int;
    let order = Seq::<usize>::empty();
    assert(drawn_text(rows, order, positions, emitted, Seq::empty(), Seq::empty(), prefixes, rails))
        by {
        assert forall|x: int| 0 <= x < rows.len() && !#[trigger] emitted[x] implies prefixes[x]
            == Seq::<char>::empty() && rails[x] == Seq::<char>::empty() by {
            assert(prefixes[x] == Seq::<char>::empty());
        }
    }
    assert forall|a: int| 0 <= a < stack.len() implies waiting_entry(
        rows,
        parents,
        order,
        positions,
        emitted,
        Seq::empty(),
        Seq::empty(),
        stack,
        a,
    ) by {
        let c = roots[m - 1 - a] as int;
        assert(stack[a].0 == roots[m - 1 - a]);
        assert((stack[a].2 is None) <==> !has_sibling(rows, parents, c)) by {
            if m > 1 {
                let other = if a == 0 { m - 2 } else { m - 1 };
                assert(roots[other] != roots[m - 1 - a]);
                assert(sibling_rows(rows, parents, c, roots[other] as int));
            }
            if has_sibling(rows, parents, c) {
                let y = choose|y: int| #[trigger] sibling_rows(rows, parents, c, y);
                let b = choose|b: int| 0 <= b < roots.len() && roots[b] == y;
                assert(b != m - 1 - a);
            }
        }
        if stack[a].2 is Some {
            if a > 0 {
                assert(stack[0].0 == roots[m - 1 - 0]);
                assert(roots[m - 1] != roots[m - 1 - a]);
                assert(sibling_rows(rows, parents, c, stack[0].0 as int));
            }
        }
        assert forall|y: int| #[trigger] sibling_rows(rows, parents, c, y) implies emitted[y] || exists|b: int|
            0 <= b < stack.len() && stack[b].0 == y by {
            let j = choose|j: int| 0 <= j < roots.len() && roots[j] == y;
            assert(stack[m - 1 - j].0 == roots[j]);
        }
    }
    assert forall|a: int| 0 <= a < stack.len() implies parents[#[trigger] stack[a].0 as int] is None by {
        assert(stack[a].0 == roots[m - 1 - a]);
    }
    assert forall|a: int, b: int| 0 <= a < b < stack.len() implies #[trigger] stack[a].0
        != #[trigger] stack[b].0 by {
        assert(stack[a].0 == roots[m - 1 - a]);
        assert(stack[b].0 == roots[m - 1 - b]);
    }
    assert forall|a: int, b: int|
        0 <= a < b < stack.len() && parents[#[trigger] stack[a].0 as int]
            == parents[#[trigger] stack[b].0 as int] implies rows[stack[b].0 as int].chronological_ordinal
        <= rows[stack[a].0 as int].chronological_ordinal by {
        assert(stack[a].0 == roots[m - 1 - a]);
        assert(stack[b].0 == roots[m - 1 - b]);
    }
    assert forall|y: int|
        0 <= y < rows.len() && shown(rows[y]) implies #[trigger] emitted[y] || (exists|b: int|
        0 <= b < stack.len() && stack[b].0 == y) || (parents[y] matches Some(p) && p < rows.len()
        && !emitted[p as int]) by {
        if parents[y] is None {
            let j = choose|j: int| 0 <= j < roots.len() && roots[j] == y;
            assert(stack[m - 1 - j].0 == roots[j]);
        }
    }
}

/// The junction waiting on top of the stack says whether all the row's siblings are drawn.
proof fn lemma_top_junction(
    rows: Seq<TreeRow>,
    parents: Seq<Option<usize>>,
    order0: Seq<usize>,
    positions0: Seq<usize>,
    emitted0: Seq<bool>,
    lanes0: Seq<Seq<bool>>,
    junctions0: Seq<Option<bool>>,
    full: Seq<PendingRow>,
)
    requires
        full.len() > 0,
        forall|b: int|
            0 <= b < full.len() ==> waiting_entry(
                rows,
                parents,
                order0,
                positions0,
                emitted0,
                lanes0,
                junctions0,
                full,
                b,
            ),
    ensures
        ({
            let x = full[full.len() - 1].0 as int;
            let junction = full[full.len() - 1].2;
            &&& junction is None <==> !has_sibling(rows, parents, x)
            &&& junction is Some ==> (junction->0 <==> forall|y: int|
                sibling_rows(rows, parents, x, y) ==> #[trigger] emitted0[y])
        }),
{
    let t = full.len() - 1;
    let x = full[t].0 as int;
    let junction = full[t].2;
    assert(waiting_entry(rows, parents, order0, positions0, emitted0, lanes0, junctions0, full, t));
    if junction is Some {
        if junction->0 {
            assert forall|y: int| sibling_rows(rows, parents, x, y) implies #[trigger] emitted0[y] by {
                if !emitted0[y] {
                    let b = choose|b: int| 0 <= b < full.len() && full[b].0 == y;
                    if b == t {
                        assert(y == x);
                    }
                    assert(!sibling_rows(rows, parents, x, full[b].0 as int));
                }
            }
        } else {
            let b = choose|b: int| 0 <= b < t && sibling_rows(rows, parents, x, #[trigger] full[b].0 as int);
            assert(!emitted0[full[b].0 as int]) by {
                assert(waiting_entry(rows, parents, order0, positions0, emitted0, lanes0, junctions0, full, b));
            }
        }
    }
}

/// One step of the second pass: drawing the top of the stack and pushing its children keeps
/// every invariant.
proof fn lemma_draw_step(
    rows: Seq<TreeRow>,
    parents: Seq<Option<usize>>,
    order0: Seq<usize>,
    positions0: Seq<usize>,
    emitted0: Seq<bool>,
    lanes0: Seq<Seq<bool>>,
    junctions0: Seq<Option<bool>>,
    prefixes0: Seq<Seq<char>>,
    rails0: Seq<Seq<char>>,
    full: Seq<PendingRow>,
    kids: Seq<usize>,
    stack: Seq<PendingRow>,
    order: Seq<usize>,
    positions: Seq<usize>,
    emitted: Seq<bool>,
    prefixes: Seq<Seq<char>>,
    rails: Seq<Seq<char>>,
)
    requires
        full.len() > 0,
        draws_next(
            rows,
            parents,
            order0,
            positions0,
            emitted0,
            full[full.len() - 1].0 as int,
            order,
            positions,
            emitted,
        ),
        drawn_shape(rows, parents, order0, positions0),
        drawn_junctions(rows, parents, order0, positions0, emitted0, junctions0),
        drawn_lanes(parents, order0, positions0, lanes0, junctions0),
        drawn_text(rows, order0, positions0, emitted0, lanes0, junctions0, prefixes0, rails0),
        forall|b: int|
            0 <= b < full.len() ==> waiting_entry(
                rows,
                parents,
                order0,
                positions0,
                emitted0,
                lanes0,
                junctions0,
                full,
                b,
            ),
        stack_shape(rows, parents, positions0, full),
        covered(rows, parents, emitted0, full),
        children_listed(rows, parents, full[full.len() - 1].0 as int, kids),
        stack_after_draw(full, kids, stack),
        prefixes == prefixes0.update(
            full[full.len() - 1].0 as int,
            prefix_text(full[full.len() - 1].1@, full[full.len() - 1].2),
        ),
        rails == rails0.update(
            full[full.len() - 1].0 as int,
            prefix_text(next_lanes(full[full.len() - 1].1@, full[full.len() - 1].2), None),
        ),
    ensures
        ({
            let lanes = lanes0.push(full[full.len() - 1].1@);
            let junctions = junctions0.push(full[full.len() - 1].2);
            &&& drawn_rows(rows, parents, order, positions, emitted)
            &&& drawn_shape(rows, parents, order, positions)
            &&& drawn_junctions(rows, parents, order, positions, emitted, junctions)
            &&& drawn_lanes(parents, order, positions, lanes, junctions)
            &&& drawn_text(rows, order, positions, emitted, lanes, junctions, prefixes, rails)
            &&& forall|a: int|
                0 <= a < stack.len() ==> waiting_entry(
                    rows,
                    parents,
                    order,
                    positions,
                    emitted,
                    lanes,
                    junctions,
                    stack,
                    a,
                )
            &&& stack_shape(rows, parents, positions, stack)
            &&& covered(rows, parents, emitted, stack)
        }),
{
    let t = full.len() - 1;
    let x = full[t].0 as int;
    let lane = full[t].1@;
    let junction = full[t].2;
    assert(waiting_entry(rows, parents, order0, positions0, emitted0, lanes0, junctions0, full, t));
    lemma_draw_rows(rows, parents, order0, positions0, emitted0, x, order, positions, emitted);
    lemma_draw_shape(rows, parents, order0, positions0, emitted0, x, order, positions, emitted);
    lemma_top_junction(rows, parents, order0, positions0, emitted0, lanes0, junctions0, full);
    lemma_draw_junctions(rows, parents, order0, positions0, emitted0, junctions0, x, junction, order, positions, emitted);
    lemma_draw_lanes(rows, parents, order0, positions0, emitted0, lanes0, junctions0, x, lane, junction, order, positions, emitted);
    lemma_draw_text(rows, parents, order0, positions0, emitted0, lanes0, junctions0, prefixes0, rails0, x, lane, junction, order, positions, emitted);
    assert forall|a: int| 0 <= a < stack.len() implies waiting_entry(
        rows,
        parents,
        order,
        positions,
        emitted,
        lanes0.push(lane),
        junctions0.push(junction),
        stack,
        a,
    ) by {
        if a < t {
            lemma_draw_keeps_waiting(rows, parents, order0, positions0, emitted0, lanes0, junctions0, full, kids, stack, order, positions, emitted, a);
        } else {
            lemma_draw_pushes_waiting(rows, parents, order0, positions0, emitted0, lanes0, junctions0, full, kids, stack, order, positions, emitted, a - t);
        }
    }
    lemma_draw_stack_shape(rows, parents, order0, positions0, emitted0, lanes0, junctions0, full, kids, stack, order, positions, emitted);
}

/// The views of a row of strings.
pub open spec fn texts(strings: Seq<String>) -> Seq<Seq<char>> {
    strings.map_values(|text: String| text@)
}

/// The second pass, over the shown rows from the top level down, children in chronological
/// order: the drawing order, each row's position in it, and what is drawn before and under each
/// row, with the lanes and junction of each drawn position.
fn draw_rows(
    rows: &Vec<TreeRow>,
    Ghost(anchors): Ghost<Seq<Option<usize>>>,
    hung: &Vec<Option<usize>>,
    rank: &Vec<usize>,
) -> (drawn: (Vec<usize>, Vec<usize>, Vec<String>, Vec<String>, Ghost<Seq<Seq<bool>>>, Ghost<Seq<Option<bool>>>))
    requires
        hung@.len() == rows@.len(),
        rank@.len() == rows@.len(),
        anchors_follow(rows@, anchors),
        rooted(rows@),
        forall|m: int|
            0 <= m < rows@.len() ==> #[trigger] hung@[m] == if shown(rows@[m]) {
                hung_from(rows@, anchors, m)
            } else {
                None
            },
    ensures
        ({
            let (order, positions, prefixes, rails, lanes, junctions) = drawn;
            let emitted = Seq::new(rows@.len(), |x: int| shown(rows@[x]));
            &&& drawn_rows(rows@, hung@, order@, positions@, emitted)
            &&& drawn_shape(rows@, hung@, order@, positions@)
            &&& drawn_junctions(rows@, hung@, order@, positions@, emitted, junctions@)
            &&& drawn_lanes(hung@, order@, positions@, lanes@, junctions@)
            &&& drawn_text(rows@, order@, positions@, emitted, lanes@, junctions@, texts(prefixes@), texts(rails@))
        }),
{
    let n = rows.len();
    proof {
        assert forall|m: int| 0 <= m < n implies parent_known(rows@, m) by {}
        assert forall|y: int|
            0 <= y < n && shown(rows@[y]) implies match #[trigger] hung@[y] {
            None => true,
            Some(p) => p < n,
        } by {
            match tree_parent(rows@, y) {
                None => {},
                Some(t) => {
                    let f = choose|f: nat| reaches_root(rows@, t as int, f);
                    assert(parent_known(rows@, y));
                    assert(exists|f: nat| #[trigger] reaches_root(rows@, t as int, f)) by {
                        assert(parent_known(rows@, t as int));
                    }
                    let f = choose|f: nat| reaches_root(rows@, t as int, f);
                    lemma_anchor_reaches(rows@, anchors, t as int, f);
                },
            }
        }
    }
    let mut positions: Vec<usize> = Vec::new();
    let mut emitted: Vec<bool> = Vec::new();
    let mut prefixes: Vec<String> = Vec::new();
    let mut rails: Vec<String> = Vec::new();
    let mut k: usize = 0;
    while k < n
        invariant
            k <= n,
            positions@.len() == k,
            emitted@.len() == k,
            prefixes@.len() == k,
            rails@.len() == k,
            forall|y: int| 0 <= y < k ==> !#[trigger] emitted@[y],
            forall|y: int|
                0 <= y < k ==> #[trigger] prefixes@[y]@ == Seq::<char>::empty() && rails@[y]@
                    == Seq::<char>::empty(),
        decreases n - k,
    {
        positions.push(0);
        emitted.push(false);
        prefixes.push(String::new());
        rails.push(String::new());
        k += 1;
    }
    let mut order: Vec<usize> = Vec::new();
    let ghost mut lanes: Seq<Seq<bool>> = Seq::empty();
    let ghost mut junctions: Seq<Option<bool>> = Seq::empty();
    let roots = shown_children(rows, hung, rank, None);
    let top_lanes: Vec<bool> = Vec::new();
    let mut stack: Vec<PendingRow> = Vec::new();
    push_children(&mut stack, roots.as_slice(), top_lanes.as_slice());
    proof {
        assert forall|a: int, b: int| 0 <= a < b < roots@.len() implies rows@[roots@[a] as int].chronological_ordinal
            <= rows@[roots@[b] as int].chronological_ordinal by {
            assert(sibling_before(rows@, rank@, roots@[a] as int, roots@[b] as int));
        }
        assert forall|i: int| 0 <= i < stack@.len() implies {
            let row = #[trigger] stack@[i];
            &&& row.0 == roots@[roots@.len() - 1 - i]
            &&& row.1@ == Seq::<bool>::empty()
            &&& row.2 == junction_of(roots@.len() - 1 - i, roots@.len() as int)
        } by {
            assert(stack@[0 + i] == stack@[i]);
        }
        assert(texts(prefixes@).len() == n);
        lemma_draw_start(rows@, hung@, positions@, emitted@, texts(prefixes@), texts(rails@), roots@, stack@);
    }
    let ghost mut done: Set<int> = Set::empty();
    while stack.len() > 0
        invariant
            n == rows@.len(),
            hung@.len() == n,
            rank@.len() == n,
            anchors_follow(rows@, anchors),
            rooted(rows@),
            forall|m: int|
                0 <= m < n ==> #[trigger] hung@[m] == if shown(rows@[m]) {
                    hung_from(rows@, anchors, m)
                } else {
                    None
                },
            drawn_rows(rows@, hung@, order@, positions@, emitted@),
            drawn_shape(rows@, hung@, order@, positions@),
            drawn_junctions(rows@, hung@, order@, positions@, emitted@, junctions),
            drawn_lanes(hung@, order@, positions@, lanes, junctions),
            drawn_text(rows@, order@, positions@, emitted@, lanes, junctions, texts(prefixes@), texts(rails@)),
            forall|a: int|
                0 <= a < stack@.len() ==> waiting_entry(
                    rows@,
                    hung@,
                    order@,
                    positions@,
                    emitted@,
                    lanes,
                    junctions,
                    stack@,
                    a,
                ),
            stack_shape(rows@, hung@, positions@, stack@),
            covered(rows@, hung@, emitted@, stack@),
            done.finite(),
            done.subset_of(set_int_range(0, n as int)),
            done.len() == order@.len(),
            forall|m: int| 0 <= m < n ==> (#[trigger] emitted@[m] <==> done.contains(m)),
        decreases n - order@.len(),
    {
        let ghost full = stack@;
        let ghost order0 = order@;
        let ghost positions0 = positions@;
        let ghost emitted0 = emitted@;
        let ghost prefixes0 = texts(prefixes@);
        let ghost rails0 = texts(rails@);
        let (x, lane, junction) = stack.pop().unwrap();
        proof {
            assert(full[full.len() - 1] == (x, lane, junction));
            assert(waiting_entry(rows@, hung@, order@, positions@, emitted@, lanes, junctions, full, full.len() - 1));
            lemma_visited_bound(done, n as int, x as int);
            done = done.insert(x as int);
        }
        let at = order.len();
        order.push(x);
        positions.set(x, at);
        emitted.set(x, true);
        prefixes.set(x, prefix(lane.as_slice(), junction));
        let ghost lane_view = lane@;
        let mut next = lane;
        match junction {
            Some(last) => {
                next.push(!last);
            },
            None => {},
        }
        rails.set(x, prefix(next.as_slice(), None));
        let kids = shown_children(rows, hung, rank, Some(x));
        push_children(&mut stack, kids.as_slice(), next.as_slice());
        proof {
            assert(next@ == next_lanes(lane_view, junction));
            assert(texts(prefixes@) =~= prefixes0.update(x as int, prefix_text(lane_view, junction)));
            assert(texts(rails@) =~= rails0.update(x as int, prefix_text(next_lanes(lane_view, junction), None)));
            assert(draws_next(rows@, hung@, order0, positions0, emitted0, x as int, order@, positions@, emitted@));
            assert(children_listed(rows@, hung@, x as int, kids@)) by {
                assert forall|a: int, b: int| 0 <= a < b < kids@.len() implies rows@[kids@[a] as int].chronological_ordinal
                    <= rows@[kids@[b] as int].chronological_ordinal by {
                    assert(sibling_before(rows@, rank@, kids@[a] as int, kids@[b] as int));
                }
            }
            assert(stack_after_draw(full, kids@, stack@)) by {
                assert forall|i: int| 0 <= i < kids@.len() implies {
                    let row = #[trigger] stack@[full.len() - 1 + i];
                    &&& row.0 == kids@[kids@.len() - 1 - i]
                    &&& row.1@ == next_lanes(full[full.len() - 1].1@, full[full.len() - 1].2)
                    &&& row.2 == junction_of(kids@.len() - 1 - i, kids@.len() as int)
                } by {}
            }
            lemma_draw_step(rows@, hung@, order0, positions0, emitted0, lanes, junctions, prefixes0, rails0, full, kids@, stack@, order@, positions@, emitted@, texts(prefixes@), texts(rails@));
            lanes = lanes.push(lane_view);
            junctions = junctions.push(junction);
        }
    }
    proof {
        assert forall|y: int| 0 <= y < n implies #[trigger] emitted@[y] == shown(rows@[y]) by {
            if shown(rows@[y]) {
                assert(parent_known(rows@, y));
                let f = choose|f: nat| reaches_root(rows@, y, f);
                assert(stack@ =~= Seq::<PendingRow>::empty());
                lemma_all_drawn(rows@, anchors, hung@, emitted@, y, f);
            } else if emitted@[y] {
                assert(shown(rows@[y]));
            }
        }
        assert(emitted@ =~= Seq::new(rows@.len(), |x: int| shown(rows@[x])));
    }
    (order, positions, prefixes, rails, Ghost(lanes), Ghost(junctions))
}

/// Whether `end` closes the subtree of the row drawn at `k`: every position between them hangs
/// within it, and `end` is the last position or hangs from before `k`.
pub open spec fn closes_subtree(
    parents: Seq<Option<usize>>,
    positions: Seq<usize>,
    order: Seq<usize>,
    k: int,
    end: int,
) -> bool {
    &&& k < end <= order.len()
    &&& forall|j: int| k < j < end ==> k <= #[trigger] parent_position(parents, positions, order, j)
    &&& (end == order.len() || parent_position(parents, positions, order, end) < k)
}

/// Whether a row with this parent hangs from a row drawn at `k` or later.
fn hangs_within(parent: Option<usize>, positions: &Vec<usize>, k: usize) -> (within: bool)
    requires
        parent matches Some(p) ==> p < positions@.len(),
    ensures
        within == match parent {
            None => false,
            Some(p) => positions@[p as int] >= k,
        },
{
    match parent {
        None => false,
        Some(p) => positions[p] >= k,
    }
}

/// The end of each drawn row's subtree in the drawing order, by row.
fn subtree_ends(
    Ghost(rows): Ghost<Seq<TreeRow>>,
    order: &Vec<usize>,
    positions: &Vec<usize>,
    hung: &Vec<Option<usize>>,
) -> (ends: Vec<usize>)
    requires
        drawn_rows(rows, hung@, order@, positions@, Seq::new(rows.len(), |x: int| shown(rows[x]))),
        rows.len() <= usize::MAX,
    ensures
        ends@.len() == rows.len(),
        forall|x: int|
            0 <= x < rows.len() && shown(rows[x]) ==> closes_subtree(
                hung@,
                positions@,
                order@,
                positions@[x] as int,
                #[trigger] ends@[x] as int,
            ),
{
    let ghost emitted = Seq::new(rows.len(), |x: int| shown(rows[x]));
    let n = positions.len();
    let len = order.len();
    let mut ends: Vec<usize> = Vec::new();
    let mut x: usize = 0;
    while x < n
        invariant
            n == rows.len(),
            len == order@.len(),
            drawn_rows(rows, hung@, order@, positions@, emitted),
            emitted == Seq::new(rows.len(), |x: int| shown(rows[x])),
            x <= n,
            ends@.len() == x,
            forall|y: int|
                0 <= y < x && shown(rows[y]) ==> closes_subtree(
                    hung@,
                    positions@,
                    order@,
                    positions@[y] as int,
                    #[trigger] ends@[y] as int,
                ),
        decreases n - x,
    {
        let mut end: usize = 0;
        if positions[x] < len && order[positions[x]] == x {
            let k = positions[x];
            end = k + 1;
            while end < len && hangs_within(hung[order[end]], positions, k)
                invariant
                    n == rows.len(),
                    len == order@.len(),
                    drawn_rows(rows, hung@, order@, positions@, emitted),
                    k < end <= len,
                    forall|j: int|
                        k < j < end ==> k <= #[trigger] parent_position(hung@, positions@, order@, j),
                decreases len - end,
            {
                proof {
                    match hung@[order@[end as int] as int] {
                        None => {},
                        Some(p) => {
                            assert(p < n);
                        },
                    }
                }
                end += 1;
            }
            proof {
                if end < len {
                    match hung@[order@[end as int] as int] {
                        None => {},
                        Some(p) => {
                            assert(p < n);
                        },
                    }
                }
            }
        } else {
            proof {
                if shown(rows[x as int]) {
                    assert(emitted[x as int]);
                }
            }
        }
        ends.push(end);
        x += 1;
    }
    ends
}

/// The views of a list of identities.
pub open spec fn identity_views(ids: Seq<Identity>) -> Seq<Seq<char>> {
    ids.map_values(|id: Identity| id@)
}

/// The heads carried by row `a`: those of the first `m` rows anchored at `a`, in row order.
pub open spec fn carried_heads(
    rows: Seq<TreeRow>,
    anchors: Seq<Option<usize>>,
    a: int,
    m: int,
) -> Seq<Seq<char>>
    decreases m,
{
    if m <= 0 {
        Seq::empty()
    } else {
        carried_heads(rows, anchors, a, m - 1) + if anchors[m - 1] == Some(a as usize) {
            identity_views(rows[m - 1].head_markers@)
        } else {
            Seq::empty()
        }
    }
}

/// The heads each row carries.
fn carried_markers(rows: &Vec<TreeRow>, anchors: &Vec<Option<usize>>) -> (markers: Vec<Vec<Identity>>)
    requires
        anchors@.len() == rows@.len(),
    ensures
        markers@.len() == rows@.len(),
        forall|a: int|
            0 <= a < rows@.len() ==> identity_views(#[trigger] markers@[a]@) == carried_heads(
                rows@,
                anchors@,
                a,
                rows@.len() as int,
            ),
{
    let n = rows.len();
    let mut markers: Vec<Vec<Identity>> = Vec::new();
    let mut a: usize = 0;
    while a < n
        invariant
            n == rows@.len(),
            anchors@.len() == n,
            a <= n,
            markers@.len() == a,
            forall|b: int|
                0 <= b < a ==> identity_views(#[trigger] markers@[b]@) == carried_heads(
                    rows@,
                    anchors@,
                    b,
                    n as int,
                ),
        decreases n - a,
    {
        let mut list: Vec<Identity> = Vec::new();
        let mut i: usize = 0;
        while i < n
            invariant
                n == rows@.len(),
                anchors@.len() == n,
                a < n,
                i <= n,
                identity_views(list@) == carried_heads(rows@, anchors@, a as int, i as int),
            decreases n - i,
        {
            if anchors[i] == Some(a) {
                let heads = &rows[i].head_markers;
                let ghost start = list@;
                let mut h: usize = 0;
                while h < heads.len()
                    invariant
                        h <= heads@.len(),
                        identity_views(list@) == identity_views(start) + identity_views(
                            heads@.take(h as int),
                        ),
                    decreases heads@.len() - h,
                {
                    let ghost before = list@;
                    let copy = heads[h].duplicate();
                    list.push(copy);
                    proof {
                        assert(heads@.take(h + 1) =~= heads@.take(h as int).push(heads@[h as int]));
                        assert(identity_views(heads@.take(h + 1)) =~= identity_views(heads@.take(h as int)).push(heads@[h as int]@));
                        assert(identity_views(list@) =~= identity_views(before).push(copy@));
                        assert(identity_views(list@) =~= identity_views(start) + identity_views(
                            heads@.take(h + 1),
                        ));
                    }
                    h += 1;
                }
                assert(heads@.take(heads@.len() as int) =~= heads@);
            }
            i += 1;
            assert(identity_views(list@) =~= carried_heads(rows@, anchors@, a as int, i as int));
        }
        markers.push(list);
        a += 1;
    }
    markers
}

/// The tree as drawn from one snapshot's rows, built once and shared by drawing, folding and
/// row lookup. Rows are named by their index in the snapshot.
pub struct Presentation {
    ids: Vec<Identity>,
    drawn: Vec<bool>,
    order: Vec<usize>,
    positions: Vec<usize>,
    parents: Vec<Option<usize>>,
    anchors: Vec<Option<usize>>,
    prefixes: Vec<String>,
    rails: Vec<String>,
    ends: Vec<usize>,
    markers: Vec<Vec<Identity>>,
    lanes: Ghost<Seq<Seq<bool>>>,
    junctions: Ghost<Seq<Option<bool>>>,
    presented: Ghost<Seq<TreeRow>>,
}

impl Presentation {
    /// The rows this is the drawing of.
    pub closed spec fn rows_view(&self) -> Seq<TreeRow> {
        self.presented@
    }

    /// The snapshot rows' identities.
    pub closed spec fn ids_view(&self) -> Seq<Seq<char>> {
        identity_views(self.ids@)
    }

    /// Whether each row is drawn.
    pub closed spec fn drawn_view(&self) -> Seq<bool> {
        self.drawn@
    }

    /// The drawn rows, in drawing order.
    pub closed spec fn order_view(&self) -> Seq<usize> {
        self.order@
    }

    /// Each drawn row's position in the drawing order.
    pub closed spec fn positions_view(&self) -> Seq<usize> {
        self.positions@
    }

    /// The shown row each drawn row hangs from.
    pub closed spec fn parents_view(&self) -> Seq<Option<usize>> {
        self.parents@
    }

    /// Each row's anchor: the nearest drawn row at or above it.
    pub closed spec fn anchors_view(&self) -> Seq<Option<usize>> {
        self.anchors@
    }

    /// What is drawn before each row.
    pub closed spec fn prefixes_view(&self) -> Seq<Seq<char>> {
        texts(self.prefixes@)
    }

    /// What is drawn under each row, for its children's connectors.
    pub closed spec fn rails_view(&self) -> Seq<Seq<char>> {
        texts(self.rails@)
    }

    /// Where each drawn row's subtree ends in the drawing order.
    pub closed spec fn ends_view(&self) -> Seq<usize> {
        self.ends@
    }

    /// The branch heads each row carries.
    pub closed spec fn markers_view(&self) -> Seq<Seq<Seq<char>>> {
        self.markers@.map_values(|list: Vec<Identity>| identity_views(list@))
    }

    /// The lanes of each drawing position.
    pub closed spec fn lanes_view(&self) -> Seq<Seq<bool>> {
        self.lanes@
    }

    /// The junction of each drawing position.
    pub closed spec fn junctions_view(&self) -> Seq<Option<bool>> {
        self.junctions@
    }

    /// Whether this is the drawing of `rows`: anchors and parents follow the journal's ancestry;
    /// exactly the shown rows are drawn, once each, in pre-order with siblings in chronological
    /// order; each row's junction, lanes, prefix and rails are those its place in the drawing
    /// calls for; each drawn row's subtree is closed where the pre-order leaves it; and each row
    /// carries the heads of the rows anchored at it, in row order.
    pub open spec fn presents(&self, rows: Seq<TreeRow>) -> bool {
        let n = rows.len();
        let drawn = Seq::new(n, |x: int| shown(rows[x]));
        let parents = self.parents_view();
        let order = self.order_view();
        let positions = self.positions_view();
        &&& n <= usize::MAX
        &&& self.ids_view() == rows.map_values(|row: TreeRow| row.entry_id@)
        &&& self.drawn_view() == drawn
        &&& anchors_follow(rows, self.anchors_view())
        &&& parents.len() == n
        &&& forall|i: int|
            0 <= i < n ==> #[trigger] parents[i] == if shown(rows[i]) {
                hung_from(rows, self.anchors_view(), i)
            } else {
                None
            }
        &&& drawn_rows(rows, parents, order, positions, drawn)
        &&& drawn_shape(rows, parents, order, positions)
        &&& drawn_junctions(rows, parents, order, positions, drawn, self.junctions_view())
        &&& drawn_lanes(parents, order, positions, self.lanes_view(), self.junctions_view())
        &&& drawn_text(
            rows,
            order,
            positions,
            drawn,
            self.lanes_view(),
            self.junctions_view(),
            self.prefixes_view(),
            self.rails_view(),
        )
        &&& self.ends_view().len() == n
        &&& forall|x: int|
            0 <= x < n && shown(rows[x]) ==> closes_subtree(
                parents,
                positions,
                order,
                positions[x] as int,
                #[trigger] self.ends_view()[x] as int,
            )
        &&& self.markers_view().len() == n
        &&& forall|a: int|
            0 <= a < n ==> #[trigger] self.markers_view()[a] == carried_heads(
                rows,
                self.anchors_view(),
                a,
                n as int,
            )
    }
}

impl Presentation {
    /// The drawing of a snapshot's rows; refused where two rows share an identity, or where a
    /// row names a missing parent or its ancestry never reaches a root.
    pub fn new(rows: &Vec<TreeRow>) -> (made: Result<Presentation, TreeRefusal>)
        ensures
            match made {
                Ok(p) => ids_unique(rows@) && rooted(rows@) && p.presents(rows@) && p.rows_view() == rows@,
                Err(TreeRefusal::RepeatedIdentity) => !ids_unique(rows@),
                Err(TreeRefusal::DisconnectedAncestry) => ids_unique(rows@) && !rooted(rows@),
            },
    {
        let tp = match parent_rows(rows) {
            Ok(tp) => tp,
            Err(refusal) => {
                return Err(refusal);
            },
        };
        let (anchors, hung, rank, reached) = anchor_rows(rows, &tp);
        if !reached {
            return Err(TreeRefusal::DisconnectedAncestry);
        }
        let (order, positions, prefixes, rails, lanes, junctions) = draw_rows(
            rows,
            Ghost(anchors@),
            &hung,
            &rank,
        );
        let n = rows.len();
        let ends = subtree_ends(Ghost(rows@), &order, &positions, &hung);
        let markers = carried_markers(rows, &anchors);
        let mut ids: Vec<Identity> = Vec::new();
        let mut drawn: Vec<bool> = Vec::new();
        let mut i: usize = 0;
        while i < n
            invariant
                n == rows@.len(),
                i <= n,
                ids@.len() == i,
                drawn@.len() == i,
                forall|j: int| 0 <= j < i ==> #[trigger] ids@[j]@ == rows@[j].entry_id@,
                forall|j: int| 0 <= j < i ==> #[trigger] drawn@[j] == shown(rows@[j]),
            decreases n - i,
        {
            ids.push(rows[i].entry_id.duplicate());
            drawn.push(shown_row(&rows[i]));
            i += 1;
        }
        proof {
            assert(identity_views(ids@) =~= rows@.map_values(|row: TreeRow| row.entry_id@));
            assert(drawn@ =~= Seq::new(n as nat, |x: int| shown(rows@[x])));
            let mv = markers@.map_values(|list: Vec<Identity>| identity_views(list@));
            assert forall|a: int| 0 <= a < n implies #[trigger] mv[a]
                == carried_heads(rows@, anchors@, a, n as int) by {}
        }
        let made = Presentation {
            ids,
            drawn,
            order,
            positions,
            parents: hung,
            anchors,
            prefixes,
            rails,
            ends,
            markers,
            lanes,
            junctions,
            presented: Ghost(rows@),
        };
        proof {
            assert(made.ids_view() =~= rows@.map_values(|row: TreeRow| row.entry_id@));
            assert(made.drawn_view() =~= Seq::new(n as nat, |x: int| shown(rows@[x])));
            assert forall|a: int| 0 <= a < n implies #[trigger] made.markers_view()[a]
                == carried_heads(rows@, made.anchors_view(), a, n as int) by {}
        }
        Ok(made)
    }

    /// How many rows the snapshot has.
    pub fn len(&self) -> (n: usize)
        ensures
            n == self.drawn_view().len(),
            n == self.ids_view().len(),
            self.presents(self.rows_view()),
    {
        proof {
            use_type_invariant(self);
        }
        self.drawn.len()
    }

    /// Whether `row`'s identity is among `list`.
    pub fn is_row_among(&self, row: usize, list: &Vec<Identity>) -> (among: bool)
        ensures
            among == (row < self.ids_view().len() && identity_views(list@).contains(
                self.ids_view()[row as int],
            )),
    {
        if row >= self.ids.len() {
            return false;
        }
        let mut i: usize = 0;
        while i < list.len()
            invariant
                row < self.ids@.len(),
                i <= list@.len(),
                forall|q: int| 0 <= q < i ==> #[trigger] list@[q]@ != self.ids@[row as int]@,
            decreases list@.len() - i,
        {
            if list[i].same(&self.ids[row]) {
                proof {
                    assert(identity_views(list@)[i as int] == self.ids_view()[row as int]);
                }
                return true;
            }
            i += 1;
        }
        proof {
            if identity_views(list@).contains(self.ids_view()[row as int]) {
                let q = choose|q: int| 0 <= q < identity_views(list@).len() && identity_views(list@)[q] == self.ids_view()[row as int];
                assert(list@[q]@ == self.ids@[row as int]@);
            }
        }
        false
    }

    /// The drawn rows, in drawing order.
    pub fn order(&self) -> (order: &[usize])
        ensures
            order@ == self.order_view(),
            self.presents(self.rows_view()),
    {
        proof {
            use_type_invariant(self);
        }
        self.order.as_slice()
    }

    /// Whether `row` is drawn.
    pub fn is_drawn(&self, row: usize) -> (drawn: bool)
        ensures
            drawn == (row < self.drawn_view().len() && self.drawn_view()[row as int]),
    {
        row < self.drawn.len() && self.drawn[row]
    }
}

impl Presentation {
    /// The shape every drawing keeps: one entry per row in each per-row list, drawn rows placed
    /// within the order with their subtrees inside it.
    #[verifier::type_invariant]
    closed spec fn consistent(&self) -> bool {
        let n = self.drawn@.len();
        &&& self.ids@.len() == n
        &&& self.positions@.len() == n
        &&& self.parents@.len() == n
        &&& self.anchors@.len() == n
        &&& self.prefixes@.len() == n
        &&& self.rails@.len() == n
        &&& self.ends@.len() == n
        &&& self.markers@.len() == n
        &&& forall|x: int|
            0 <= x < n && #[trigger] self.drawn@[x] ==> self.positions@[x] < self.ends@[x]
                <= self.order@.len()
        &&& forall|k: int| 0 <= k < self.order@.len() ==> #[trigger] self.order@[k] < n
        &&& self.presents(self.presented@)
    }


    /// The drawing of no rows.
    pub fn empty() -> (made: Presentation)
        ensures
            made.presents(Seq::empty()),
            made.rows_view() == Seq::<TreeRow>::empty(),
    {
        let ids: Vec<Identity> = Vec::new();
        let drawn: Vec<bool> = Vec::new();
        let prefixes: Vec<String> = Vec::new();
        let rails: Vec<String> = Vec::new();
        let markers: Vec<Vec<Identity>> = Vec::new();
        proof {
            assert(identity_views(ids@) =~= Seq::<TreeRow>::empty().map_values(|row: TreeRow| row.entry_id@));
            assert(drawn@ =~= Seq::new(0, |x: int| shown(Seq::<TreeRow>::empty()[x])));
            assert(texts(prefixes@) =~= Seq::empty());
            assert(texts(rails@) =~= Seq::empty());
            assert(markers@.map_values(|list: Vec<Identity>| identity_views(list@)) =~= Seq::empty());
        }
        let made = Presentation {
            ids,
            drawn,
            prefixes,
            rails,
            markers,
            order: Vec::new(),
            positions: Vec::new(),
            parents: Vec::new(),
            anchors: Vec::new(),
            ends: Vec::new(),
            lanes: Ghost(Seq::empty()),
            junctions: Ghost(Seq::empty()),
            presented: Ghost(Seq::empty()),
        };
        made
    }

    /// The row with identity `id`, if the snapshot has one.
    pub fn row_of(&self, id: &Identity) -> (row: Option<usize>)
        ensures
            match row {
                Some(r) => r < self.ids_view().len() && r < self.drawn_view().len() && self.ids_view()[r as int] == id@ && forall|
                    q: int,
                | 0 <= q < r ==> self.ids_view()[q] != id@,
                None => forall|r: int| 0 <= r < self.ids_view().len() ==> self.ids_view()[r] != id@,
            },
    {
        proof {
            use_type_invariant(self);
        }
        let mut r: usize = 0;
        while r < self.ids.len()
            invariant
                r <= self.ids@.len(),
                self.ids@.len() == self.drawn@.len(),
                forall|q: int| 0 <= q < r ==> self.ids_view()[q] != id@,
            decreases self.ids@.len() - r,
        {
            if self.ids[r].same(id) {
                return Some(r);
            }
            r += 1;
        }
        None
    }

    /// Whether `row` has identity `id`.
    pub fn is_row_named(&self, row: usize, id: &Identity) -> (named: bool)
        requires
            row < self.ids_view().len(),
        ensures
            named == (self.ids_view()[row as int] == id@),
    {
        self.ids[row].same(id)
    }

    /// The identity of `row`.
    pub fn identity(&self, row: usize) -> (id: Identity)
        requires
            row < self.ids_view().len(),
        ensures
            id@ == self.ids_view()[row as int],
    {
        self.ids[row].duplicate()
    }

    /// Where `row` is drawn, if it is.
    pub fn position(&self, row: usize) -> (at: Option<usize>)
        ensures
            at == if row < self.drawn_view().len() && self.drawn_view()[row as int] {
                Some(self.positions_view()[row as int])
            } else {
                None
            },
    {
        proof {
            use_type_invariant(self);
        }
        if row < self.drawn.len() && self.drawn[row] {
            Some(self.positions[row])
        } else {
            None
        }
    }

    /// What is drawn before `row`: nothing for a row not drawn or not in the snapshot.
    pub fn prefix(&self, row: usize) -> (text: &str)
        ensures
            text@ == if row < self.drawn_view().len() {
                self.prefixes_view()[row as int]
            } else {
                Seq::empty()
            },
    {
        proof {
            use_type_invariant(self);
        }
        if row < self.prefixes.len() {
            self.prefixes[row].as_str()
        } else {
            proof {
                reveal_strlit("");
            }
            ""
        }
    }

    /// What is drawn under `row` for its children's connectors: nothing for a row not drawn or
    /// not in the snapshot.
    pub fn rails(&self, row: usize) -> (text: &str)
        ensures
            text@ == if row < self.drawn_view().len() {
                self.rails_view()[row as int]
            } else {
                Seq::empty()
            },
    {
        proof {
            use_type_invariant(self);
        }
        if row < self.rails.len() {
            self.rails[row].as_str()
        } else {
            proof {
                reveal_strlit("");
            }
            ""
        }
    }

    /// The rows drawn under `row`, in drawing order: none for a row not drawn.
    pub fn descendants(&self, row: usize) -> (under: Vec<usize>)
        ensures
            under@ == if row < self.drawn_view().len() && self.drawn_view()[row as int] {
                self.order_view().subrange(
                    self.positions_view()[row as int] + 1,
                    self.ends_view()[row as int] as int,
                )
            } else {
                Seq::empty()
            },
    {
        proof {
            use_type_invariant(self);
        }
        let mut under: Vec<usize> = Vec::new();
        if row < self.drawn.len() && self.drawn[row] {
            let start = self.positions[row] + 1;
            let end = self.ends[row];
            let mut k = start;
            while k < end
                invariant
                    start <= k <= end,
                    end <= self.order@.len(),
                    under@ == self.order@.subrange(start as int, k as int),
                decreases end - k,
            {
                under.push(self.order[k]);
                k += 1;
                assert(under@ =~= self.order@.subrange(start as int, k as int));
            }
        }
        under
    }

    /// The drawn row `row` hangs from: none for a top-level row, a row not drawn, or a row not
    /// in the snapshot.
    pub fn parent(&self, row: usize) -> (parent: Option<usize>)
        ensures
            parent == if row < self.drawn_view().len() {
                self.parents_view()[row as int]
            } else {
                None
            },
    {
        proof {
            use_type_invariant(self);
        }
        if row < self.parents.len() {
            self.parents[row]
        } else {
            None
        }
    }

    /// The drawn row at or above `row` that stands for it.
    pub fn anchor(&self, row: usize) -> (anchor: Option<usize>)
        ensures
            anchor == if row < self.drawn_view().len() {
                self.anchors_view()[row as int]
            } else {
                None
            },
    {
        proof {
            use_type_invariant(self);
        }
        if row < self.anchors.len() {
            self.anchors[row]
        } else {
            None
        }
    }

    /// Whether some drawn row hangs from `row`, so that it can be folded.
    pub fn has_children(&self, row: usize) -> (has: bool)
        ensures
            has == exists|y: int|
                0 <= y < self.parents_view().len() && #[trigger] self.parents_view()[y] == Some(row),
    {
        let mut y: usize = 0;
        while y < self.parents.len()
            invariant
                y <= self.parents@.len(),
                forall|q: int| 0 <= q < y ==> #[trigger] self.parents@[q] != Some(row),
            decreases self.parents@.len() - y,
        {
            if self.parents[y] == Some(row) {
                return true;
            }
            y += 1;
        }
        false
    }

    /// The branch heads `row` carries: none for a row not in the snapshot.
    pub fn markers(&self, row: usize) -> (heads: Vec<Identity>)
        ensures
            identity_views(heads@) == if row < self.drawn_view().len() {
                self.markers_view()[row as int]
            } else {
                Seq::empty()
            },
    {
        proof {
            use_type_invariant(self);
        }
        let mut heads: Vec<Identity> = Vec::new();
        if row < self.markers.len() {
            let list = &self.markers[row];
            let mut h: usize = 0;
            while h < list.len()
                invariant
                    h <= list@.len(),
                    identity_views(heads@) == identity_views(list@.take(h as int)),
                decreases list@.len() - h,
            {
                let ghost before = heads@;
                let copy = list[h].duplicate();
                heads.push(copy);
                proof {
                    assert(list@.take(h + 1) =~= list@.take(h as int).push(list@[h as int]));
                    assert(identity_views(heads@) =~= identity_views(before).push(copy@));
                    assert(identity_views(list@.take(h + 1)) =~= identity_views(list@.take(h as int)).push(list@[h as int]@));
                }
                h += 1;
            }
            assert(list@.take(list@.len() as int) =~= list@);
        } else {
            assert(identity_views(heads@) =~= Seq::empty());
        }
        heads
    }
}

} // verus!


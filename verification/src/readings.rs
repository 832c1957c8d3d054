//! Which of the activity line's readings fit beside its label: elapsed time, effort and quiet
//! time, dropped in the order effort, quiet, elapsed while the row is too short for them.
use vstd::prelude::*;

use crate::text::chars_of;
use crate::unicode::{display_width, width_of};

verus! {

/// The slot of the elapsed-time reading.
pub const ELAPSED_SLOT: usize = 0;

/// The slot of the effort reading.
pub const EFFORT_SLOT: usize = 1;

/// The slot of the quiet-time reading.
pub const QUIET_SLOT: usize = 2;

/// The columns readings take after the label: a separator of three cells and the text, each.
pub open spec fn readings_width(readings: Seq<(usize, Seq<char>)>) -> int
    decreases readings.len(),
{
    if readings.len() == 0 {
        0
    } else {
        readings_width(readings.drop_last()) + 3 + display_width(readings.last().1)
    }
}

/// Whether a row `width` wide holds the label, `readings`, a cell of gap and the right side.
pub open spec fn row_fits(label: int, readings: Seq<(usize, Seq<char>)>, right: int, width: int) -> bool {
    label + readings_width(readings) + 1 + right <= width
}

/// `readings` without the one in `slot`.
pub open spec fn without_slot(readings: Seq<(usize, Seq<char>)>, slot: usize) -> Seq<(usize, Seq<char>)>
    decreases readings.len(),
{
    if readings.len() == 0 {
        readings
    } else if readings.last().0 == slot {
        without_slot(readings.drop_last(), slot)
    } else {
        without_slot(readings.drop_last(), slot).push(readings.last())
    }
}

/// What is kept once `drops` are tried in order, stopping as soon as the rest fits.
pub open spec fn kept_after(
    label: int,
    readings: Seq<(usize, Seq<char>)>,
    right: int,
    width: int,
    drops: Seq<usize>,
) -> Seq<(usize, Seq<char>)>
    decreases drops.len(),
{
    if drops.len() == 0 || row_fits(label, readings, right, width) {
        readings
    } else {
        kept_after(label, without_slot(readings, drops[0]), right, width, drops.drop_first())
    }
}

/// The order readings are dropped in: effort, then quiet, then elapsed.
pub open spec fn drop_order() -> Seq<usize> {
    seq![EFFORT_SLOT, QUIET_SLOT, ELAPSED_SLOT]
}

/// The readings as values: slot and text.
pub open spec fn readings_of(readings: Seq<(usize, String)>) -> Seq<(usize, Seq<char>)> {
    readings.map_values(|r: (usize, String)| (r.0, r.1@))
}

/// The columns `readings` take after the label, each its separator and its text.
fn measure(readings: &Vec<(usize, String)>) -> (columns: u128)
    requires
        readings@.len() <= 3,
    ensures
        columns == readings_width(readings_of(readings@)),
        columns <= 3 * 0x1_0000_0000_0000_0003,
{
    let mut total: u128 = 0;
    let mut i: usize = 0;
    proof {
        assert(readings_of(readings@).take(0) =~= Seq::<(usize, Seq<char>)>::empty());
    }
    while i < readings.len()
        invariant
            readings@.len() <= 3,
            i <= readings@.len(),
            total == readings_width(readings_of(readings@).take(i as int)),
            total <= i * 0x1_0000_0000_0000_0003,
        decreases readings@.len() - i,
    {
        let text = chars_of(readings[i].1.as_str());
        let columns = width_of(text.as_slice());
        proof {
            assert(columns <= 0xFFFF_FFFF_FFFF_FFFF);
            let rs = readings_of(readings@);
            assert(rs.take(i + 1).drop_last() =~= rs.take(i as int));
            assert(rs.take(i + 1).last() == (readings@[i as int].0, readings@[i as int].1@));
        }
        total = total + 3 + columns as u128;
        i = i + 1;
    }
    proof {
        assert(readings_of(readings@).take(readings@.len() as int) =~= readings_of(readings@));
    }
    total
}

/// `readings` without the one in `slot`.
fn drop_slot(readings: Vec<(usize, String)>, slot: usize) -> (kept: Vec<(usize, String)>)
    ensures
        readings_of(kept@) == without_slot(readings_of(readings@), slot),
        kept@.len() <= readings@.len(),
{
    let mut kept: Vec<(usize, String)> = Vec::new();
    let mut i: usize = 0;
    let n = readings.len();
    let ghost all = readings@;
    proof {
        assert(readings_of(all).take(0) =~= Seq::<(usize, Seq<char>)>::empty());
    }
    let mut rest = readings;
    assert(rest@ =~= all.skip(0));
    while i < n
        invariant
            n == all.len(),
            i <= n,
            rest@ == all.skip(i as int),
            readings_of(kept@) == without_slot(readings_of(all).take(i as int), slot),
            kept@.len() <= i,
        decreases n - i,
    {
        let reading = rest.remove(0);
        proof {
            let rs = readings_of(all);
            assert(reading == all[i as int]);
            assert(rest@ =~= all.skip(i + 1));
            assert(rs.take(i + 1).drop_last() =~= rs.take(i as int));
            assert(rs.take(i + 1).last() == (all[i as int].0, all[i as int].1@));
        }
        if reading.0 != slot {
            let ghost before = kept@;
            kept.push(reading);
            proof {
                assert(readings_of(kept@) =~= readings_of(before).push((all[i as int].0, all[i as int].1@)));
            }
        }
        i = i + 1;
    }
    proof {
        assert(readings_of(all).take(n as int) =~= readings_of(all));
    }
    kept
}

/// The readings that fit a row `width` wide beside a label `label` columns wide and a right side
/// `right` columns wide: effort dropped first, then quiet, then elapsed, until the rest fits.
pub fn fitted_readings(label: usize, readings: Vec<(usize, String)>, right: usize, width: u16) -> (kept: Vec<(usize, String)>)
    requires
        readings@.len() <= 3,
    ensures
        readings_of(kept@) == kept_after(label as int, readings_of(readings@), right as int, width as int, drop_order()),
{
    let mut kept = readings;
    let order = [EFFORT_SLOT, QUIET_SLOT, ELAPSED_SLOT];
    let mut k: usize = 0;
    proof {
        assert(order@ =~= drop_order());
        assert(drop_order().skip(0) =~= drop_order());
    }
    while k < 3
        invariant
            order@ == drop_order(),
            k <= 3,
            kept@.len() <= 3,
            kept_after(label as int, readings_of(readings@), right as int, width as int, drop_order())
                == kept_after(label as int, readings_of(kept@), right as int, width as int, drop_order().skip(k as int)),
        decreases 3 - k,
    {
        let used = measure(&kept);
        proof {
            assert(drop_order().skip(k as int)[0] == order@[k as int]);
            assert(drop_order().skip(k as int).drop_first() =~= drop_order().skip(k + 1));
        }
        if (label as u128) + used + 1 + (right as u128) <= width as u128 {
            return kept;
        }
        kept = drop_slot(kept, order[k]);
        k = k + 1;
    }
    proof {
        assert(drop_order().skip(3) =~= Seq::<usize>::empty());
    }
    kept
}

} // verus!

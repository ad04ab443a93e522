//! Post-processing of the machine status timeline: runs of equal status are
//! compressed to their first sample, and the last sample always stays.
use vstd::prelude::*;

verus! {

/// A status sample: from `time` (seconds since the epoch) the machine shows
/// status `color`, if any.
#[derive(Clone, Copy, Debug, PartialEq, Eq, Structural)]
pub struct TimelineRow {
    pub time: i64,
    pub color: Option<u8>,
}

/// A run of status `color` that starts at `start` (seconds since the epoch)
/// and lasts until the next slot.
#[derive(Clone, Copy, Debug, PartialEq, Eq, Structural)]
pub struct TimelineSlot {
    pub start: i64,
    pub color: Option<u8>,
}

/// `rows` with every row dropped whose color equals that of the row kept
/// before it: the first row of each run of equal colors stays.
pub open spec fn dedup_colors(rows: Seq<TimelineRow>) -> Seq<TimelineRow>
    decreases rows.len(),
{
    if rows.len() == 0 {
        rows
    } else {
        let d = dedup_colors(rows.drop_last());
        if d.len() > 0 && d.last().color == rows.last().color {
            d
        } else {
            d.push(rows.last())
        }
    }
}

pub open spec fn slot_of(row: TimelineRow) -> TimelineSlot {
    TimelineSlot { start: row.time, color: row.color }
}

/// The slots of a timeline: all rows but the last, compressed, then the last.
pub open spec fn timeline_slots(rows: Seq<TimelineRow>) -> Seq<TimelineSlot> {
    if rows.len() == 0 {
        seq![]
    } else {
        dedup_colors(rows.drop_last()).push(rows.last()).map_values(|r: TimelineRow| slot_of(r))
    }
}

fn same_color(a: Option<u8>, b: Option<u8>) -> (r: bool)
    ensures
        r == (a == b),
{
    match (a, b) {
        (Some(x), Some(y)) => x == y,
        (None, None) => true,
        _ => false,
    }
}

/// The slots of a timeline: each run of samples with equal status gives one
/// slot at its first sample, but for the last sample, which always gives a
/// slot of its own as the end of the timeline.
pub fn timeline_slots_of(rows: &Vec<TimelineRow>) -> (r: Vec<TimelineSlot>)
    ensures
        r@ == timeline_slots(rows@),
        rows@.len() == 0 ==> r@.len() == 0,
        rows@.len() > 0 ==> r@.len() > 0 && r@.last() == slot_of(rows@.last()),
{
    let n = rows.len();
    if n == 0 {
        return Vec::new();
    }
    let mut kept: Vec<TimelineRow> = Vec::new();
    let mut i: usize = 0;
    while i < n - 1
        invariant
            n == rows.len(),
            0 <= i <= n - 1,
            kept@ == dedup_colors(rows@.take(i as int)),
        decreases n - 1 - i,
    {
        let row = rows[i];
        proof {
            let t = rows@.take(i + 1);
            assert(t.drop_last() =~= rows@.take(i as int));
            assert(t.last() == rows@[i as int]);
        }
        let k = kept.len();
        if k == 0 || !same_color(kept[k - 1].color, row.color) {
            kept.push(row);
        }
        i += 1;
    }
    kept.push(rows[n - 1]);
    proof {
        assert(rows@.take(n - 1) =~= rows@.drop_last());
    }
    let ghost all = kept@;
    let mut slots: Vec<TimelineSlot> = Vec::new();
    let mut j: usize = 0;
    while j < kept.len()
        invariant
            0 <= j <= kept.len(),
            kept@ == all,
            slots@ == all.take(j as int).map_values(|r: TimelineRow| slot_of(r)),
        decreases kept.len() - j,
    {
        let row = kept[j];
        slots.push(TimelineSlot { start: row.time, color: row.color });
        proof {
            assert(slots@ =~= all.take(j + 1).map_values(|r: TimelineRow| slot_of(r)));
        }
        j += 1;
    }
    proof {
        assert(all.take(all.len() as int) =~= all);
        assert(all.last() == rows@.last());
        assert(slots@[slots@.len() - 1] == slot_of(all[all.len() - 1]));
    }
    slots
}

} // verus!

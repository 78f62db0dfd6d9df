//! Linear gauge layout: label gutter, track, value readout.

use vstd::prelude::*;

verus! {

/// Where the gauge track starts and how wide it is, on a canvas `w`
/// columns wide: the label (when there is one) takes its character count
/// plus a space but at most a third of the width; the value readout
/// (when shown) takes its character count plus a space on the right; the
/// track takes what is left. Character counts are taken as `u16`, as the
/// renderer does.
pub open spec fn gauge_layout_spec(w: u16, label_chars: Option<usize>, value_chars: Option<usize>) -> (
    u16,
    u16,
) {
    let x = match label_chars {
        Some(n) => {
            let lw = (n as u16) as int + 1;
            if lw < w / 3 {
                lw
            } else {
                (w / 3) as int
            }
        },
        None => 0,
    };
    let value_w = match value_chars {
        Some(n) => (n as u16) as int + 1,
        None => 0,
    };
    let track_w = if x + value_w <= w {
        w - (x + value_w)
    } else {
        0
    };
    (x as u16, track_w as u16)
}

/// Track origin and width `(x, track_w)` for a gauge `w` columns wide,
/// from the character counts of its label and value readout (`None` when
/// absent). A non-empty track ends exactly where the readout column
/// begins, so label, track and readout fill the width.
pub fn gauge_layout(w: u16, label_chars: Option<usize>, value_chars: Option<usize>) -> (r: (u16, u16))
    ensures
        r == gauge_layout_spec(w, label_chars, value_chars),
        r.0 <= w / 3,
        r.1 > 0 ==> r.0 + r.1 + (match value_chars {
            Some(n) => (n as u16) as int + 1,
            None => 0int,
        }) == w,
{
    let x: u16 = match label_chars {
        Some(n) => {
            let lw = n as u16 as u32 + 1;
            if lw < (w / 3) as u32 {
                lw as u16
            } else {
                w / 3
            }
        },
        None => 0,
    };
    let value_w: u32 = match value_chars {
        Some(n) => n as u16 as u32 + 1,
        None => 0,
    };
    let track_w: u16 = if x as u32 + value_w <= w as u32 {
        (w as u32 - (x as u32 + value_w)) as u16
    } else {
        0
    };
    (x, track_w)
}

/// Pick the zone whose color fills a gauge, given for each zone (in
/// ascending threshold order) whether the value is at most its threshold:
/// the first such zone; past every threshold, the last zone; `None` when
/// there are no zones.
pub fn zone_index(matches: &Vec<bool>) -> (r: Option<usize>)
    ensures
        r matches Some(i) ==> i < matches.len(),
        r is None <==> matches.len() == 0,
        r matches Some(i) ==> (matches@[i as int] && forall|j: int| 0 <= j < i ==> !matches@[j]) || (i
            == matches.len() - 1 && forall|j: int| 0 <= j < matches.len() ==> !matches@[j]),
{
    let mut i: usize = 0;
    while i < matches.len()
        invariant
            i <= matches.len(),
            forall|j: int| 0 <= j < i ==> !matches@[j],
        decreases matches.len() - i,
    {
        if matches[i] {
            return Some(i);
        }
        i = i + 1;
    }
    if matches.len() > 0 {
        Some(matches.len() - 1)
    } else {
        None
    }
}

} // verus!

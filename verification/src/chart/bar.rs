//! Horizontal bar chart layout: label gutter, bar track, value column.

use vstd::prelude::*;

verus! {

/// Largest element of `s`, or 0 when it is empty.
pub open spec fn seq_max(s: Seq<usize>) -> nat
    decreases s.len(),
{
    if s.len() == 0 {
        0
    } else {
        let m = seq_max(s.drop_last());
        if s.last() > m {
            s.last() as nat
        } else {
            m
        }
    }
}

/// Column layout `(label_w, bar_w, value_w)` of a bar chart `w` columns
/// wide: the label gutter fits the longest label but takes at most a
/// third of the width; the value column (when shown) fits the widest
/// readout plus a space but takes at most a quarter; one column
/// separates label and bar, and the bar takes what is left. Widths are
/// counted in `u16`, as the renderer does (a count past `u16::MAX`
/// wraps).
pub open spec fn bar_layout_spec(
    label_widths: Seq<usize>,
    show_values: bool,
    value_widths: Seq<usize>,
    w: u16,
) -> (u16, u16, u16) {
    let longest = (seq_max(label_widths) as u16) as int;
    let label_w = if longest < w / 3 {
        longest
    } else {
        (w / 3) as int
    };
    let value_w = if show_values {
        let widest = (seq_max(value_widths) as u16) as int + 1;
        if widest < w / 4 {
            widest
        } else {
            (w / 4) as int
        }
    } else {
        0
    };
    let used = label_w + 1 + value_w;
    let bar_w = if used <= w {
        w - used
    } else {
        0
    };
    (label_w as u16, bar_w as u16, value_w as u16)
}

/// `seq_max` is the largest element: no element exceeds it, and it is
/// one of the elements (0 for an empty sequence).
proof fn lemma_seq_max(s: Seq<usize>)
    ensures
        forall|k: int| 0 <= k < s.len() ==> s[k] <= seq_max(s),
        s.len() == 0 ==> seq_max(s) == 0,
        s.len() > 0 ==> exists|k: int| 0 <= k < s.len() && seq_max(s) == s[k],
    decreases s.len(),
{
    if s.len() > 0 {
        let t = s.drop_last();
        lemma_seq_max(t);
        assert forall|k: int| 0 <= k < s.len() implies s[k] <= seq_max(s) by {
            if k < s.len() - 1 {
                assert(s[k] == t[k]);
            }
        }
        if s.last() <= seq_max(t) && t.len() > 0 {
            let j = choose|j: int| 0 <= j < t.len() && seq_max(t) == t[j];
            assert(s[j] == t[j]);
        }
        if s.last() > seq_max(t) || t.len() == 0 {
            assert(seq_max(s) == s[s.len() - 1]);
        }
    }
}

/// The label gutter is exactly as wide as the widest label, capped at a
/// third of the canvas: it is at least every label's width (or the cap),
/// never over the cap, and is either the cap or the width of some label
/// (0 with no labels). Likewise the value column, when shown, is the
/// widest readout plus one space, capped at a quarter of the canvas; it
/// is 0 when values are hidden. Widths are taken to fit the renderer's
/// `u16` counters.
pub proof fn lemma_bar_layout_columns(
    label_widths: Seq<usize>,
    show_values: bool,
    value_widths: Seq<usize>,
    w: u16,
)
    requires
        forall|k: int| 0 <= k < label_widths.len() ==> label_widths[k] <= u16::MAX,
        forall|k: int| 0 <= k < value_widths.len() ==> value_widths[k] < u16::MAX,
    ensures
        ({
            let r = bar_layout_spec(label_widths, show_values, value_widths, w);
            &&& r.0 <= w / 3
            &&& forall|k: int|
                0 <= k < label_widths.len() ==> r.0 >= (if label_widths[k] < w / 3 {
                    label_widths[k] as int
                } else {
                    (w / 3) as int
                })
            &&& (label_widths.len() > 0 ==> (r.0 == w / 3 || exists|k: int|
                0 <= k < label_widths.len() && r.0 == label_widths[k]))
            &&& (label_widths.len() == 0 ==> r.0 == 0)
            &&& (!show_values ==> r.2 == 0)
            &&& (show_values ==> {
                &&& r.2 <= w / 4
                &&& forall|k: int|
                    0 <= k < value_widths.len() ==> r.2 >= (if value_widths[k] + 1 < w / 4 {
                        value_widths[k] + 1
                    } else {
                        (w / 4) as int
                    })
                &&& (value_widths.len() > 0 ==> (r.2 == w / 4 || exists|k: int|
                    0 <= k < value_widths.len() && r.2 == value_widths[k] + 1))
                &&& (value_widths.len() == 0 ==> r.2 == (if 1 < w / 4 {
                    1
                } else {
                    (w / 4) as int
                }))
            })
        }),
{
    lemma_seq_max(label_widths);
    lemma_seq_max(value_widths);
    if label_widths.len() > 0 {
        let j = choose|j: int| 0 <= j < label_widths.len() && seq_max(label_widths) == label_widths[j];
        assert(seq_max(label_widths) <= u16::MAX);
    }
    if value_widths.len() > 0 {
        let j = choose|j: int| 0 <= j < value_widths.len() && seq_max(value_widths) == value_widths[j];
        assert(seq_max(value_widths) < u16::MAX);
    }
    let lm = seq_max(label_widths);
    let vm = seq_max(value_widths);
    assert((lm as u16) as int == lm);
    assert((vm as u16) as int == vm);
    let r = bar_layout_spec(label_widths, show_values, value_widths, w);
    assert(r.0 == (if lm < w / 3 { lm as int } else { (w / 3) as int }));
    if show_values {
        assert(r.2 == (if vm + 1 < w / 4 { (vm + 1) as int } else { (w / 4) as int }));
    }
}

fn max_width(v: &Vec<usize>) -> (m: usize)
    ensures
        m == seq_max(v@),
{
    let mut m: usize = 0;
    let mut i: usize = 0;
    while i < v.len()
        invariant
            i <= v.len(),
            m == seq_max(v@.take(i as int)),
        decreases v.len() - i,
    {
        proof {
            assert(v@.take(i as int + 1).drop_last() =~= v@.take(i as int));
        }
        if v[i] > m {
            m = v[i];
        }
        i = i + 1;
    }
    proof {
        assert(v@.take(i as int) =~= v@);
    }
    m
}

/// Column layout for a canvas `w` columns wide, from the character
/// counts of the bar labels and (when `show_values`) of the formatted
/// value readouts. The three columns plus the one-column separator fill
/// the width exactly whenever it is at least one column.
pub fn bar_layout(label_widths: &Vec<usize>, show_values: bool, value_widths: &Vec<usize>, w: u16) -> (r: (
    u16,
    u16,
    u16,
))
    ensures
        r == bar_layout_spec(label_widths@, show_values, value_widths@, w),
        r.0 <= w / 3,
        r.2 <= w / 4,
        !show_values ==> r.2 == 0,
        w >= 1 ==> r.0 + 1 + r.1 + r.2 == w,
{
    let longest = max_width(label_widths) as u16;
    let label_w = if longest < w / 3 {
        longest
    } else {
        w / 3
    };
    let value_w: u16 = if show_values {
        let widest = max_width(value_widths) as u16 as u32 + 1;
        if widest < (w / 4) as u32 {
            widest as u16
        } else {
            w / 4
        }
    } else {
        0
    };
    let used = label_w as u32 + 1 + value_w as u32;
    let bar_w: u16 = if used <= w as u32 {
        (w as u32 - used) as u16
    } else {
        0
    };
    (label_w, bar_w, value_w)
}

/// Number of bars that fit in `height` rows (the rest are clipped).
pub fn visible_rows(n_bars: usize, height: u16) -> (r: usize)
    ensures
        r == (if n_bars < height {
            n_bars
        } else {
            height as usize
        }),
{
    if n_bars < height as usize {
        n_bars
    } else {
        height as usize
    }
}

} // verus!

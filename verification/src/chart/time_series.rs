//! Time-series chart chrome: legend placement, x-axis label clipping,
//! gutter label positions.

use vstd::prelude::*;

verus! {

/// One character the legend places on its row.
#[derive(Clone, Copy, Debug, PartialEq, Eq, Structural)]
pub struct LegendCell {
    /// Column (canvas-local).
    pub x: u16,
    /// The character: a bullet or a character of the series name.
    pub ch: char,
    /// Index of the series the character belongs to.
    pub series: usize,
    /// Whether this is the series' colored bullet.
    pub bullet: bool,
}

/// The legend bullet.
pub open spec fn bullet() -> char {
    '\u{2022}'
}

/// The colored bullet of series `i` at column `x`.
pub open spec fn bullet_cell(x: int, i: int) -> LegendCell {
    LegendCell { x: x as u16, ch: bullet(), series: i as usize, bullet: true }
}

/// Character `j` of series `i`'s name, placed at column `x + j`.
pub open spec fn name_cell(name: Seq<char>, x: int, i: int, j: int) -> LegendCell {
    LegendCell { x: (x + j) as u16, ch: name[j], series: i as usize, bullet: false }
}

/// The first `k` characters of series `i`'s name, from column `x` on.
pub open spec fn name_cells(name: Seq<char>, x: int, i: int, k: int) -> Seq<LegendCell> {
    Seq::new(k as nat, |j: int| name_cell(name, x, i, j))
}

/// Legend entries from series `i` on, starting at column `x`, with
/// `right` the first column past the plot: each entry is a bullet, a
/// space, as much of the name as fits before `right`, and a two-column
/// gap; entries stop once fewer than five columns remain.
pub open spec fn legend_from(names: Seq<Seq<char>>, i: int, x: int, right: int) -> Seq<LegendCell>
    decreases names.len() - i,
{
    if i < 0 || i >= names.len() || x + 4 >= right {
        Seq::empty()
    } else {
        let name = names[i];
        let room = right - (x + 2);
        let k = if name.len() < room {
            name.len() as int
        } else {
            room
        };
        seq![bullet_cell(x, i)] + name_cells(name, x + 2, i, k) + legend_from(
            names,
            i + 1,
            x + 2 + k + 2,
            right,
        )
    }
}

/// The legend row of a plot that starts at column `chart_x` and is
/// `chart_w` columns wide.
pub open spec fn legend_spec(chart_x: u16, chart_w: u16, names: Seq<Seq<char>>) -> Seq<LegendCell> {
    if chart_w == 0 || names.len() == 0 {
        Seq::empty()
    } else {
        legend_from(names, 0, chart_x + 1, chart_x + chart_w)
    }
}

/// Every legend character lies on the plot's columns, one past its left
/// edge or further.
pub proof fn lemma_legend_in_plot(names: Seq<Seq<char>>, i: int, x: int, right: int)
    requires
        x >= 0,
        right <= u16::MAX,
    ensures
        forall|k: int|
            0 <= k < legend_from(names, i, x, right).len() ==> x <= (#[trigger] legend_from(
                names,
                i,
                x,
                right,
            )[k]).x < right,
    decreases names.len() - i,
{
    let l = legend_from(names, i, x, right);
    if !(i < 0 || i >= names.len() || x + 4 >= right) {
        let name = names[i];
        let room = right - (x + 2);
        let k = if name.len() < room {
            name.len() as int
        } else {
            room
        };
        lemma_legend_in_plot(names, i + 1, x + 2 + k + 2, right);
        let head = seq![bullet_cell(x, i)] + name_cells(name, x + 2, i, k);
        let tail = legend_from(names, i + 1, x + 2 + k + 2, right);
        assert(l == head + tail);
        assert forall|m: int| 0 <= m < l.len() implies x <= (#[trigger] l[m]).x < right by {
            if m < head.len() {
                assert(l[m] == head[m]);
                if m > 0 {
                    assert(head[m] == name_cells(name, x + 2, i, k)[m - 1]);
                }
            } else {
                assert(l[m] == tail[m - head.len()]);
            }
        }
    }
}

/// Place the legend for series named `names` on the top row of a plot
/// starting at column `chart_x`, `chart_w` columns wide.
pub fn legend_layout(chart_x: u16, chart_w: u16, names: &Vec<Vec<char>>) -> (cells: Vec<LegendCell>)
    requires
        chart_x + chart_w <= u16::MAX,
    ensures
        cells@ == legend_spec(chart_x, chart_w, names@.map_values(|v: Vec<char>| v@)),
        forall|k: int| 0 <= k < cells.len() ==> chart_x < (#[trigger] cells@[k]).x < chart_x + chart_w,
{
    let ghost nv = names@.map_values(|v: Vec<char>| v@);
    let ghost full = legend_spec(chart_x, chart_w, nv);
    let mut cells: Vec<LegendCell> = Vec::new();
    if chart_w == 0 || names.len() == 0 {
        return cells;
    }
    proof {
        lemma_legend_in_plot(nv, 0, chart_x + 1, chart_x + chart_w);
    }
    let right: u32 = chart_x as u32 + chart_w as u32;
    let mut x: u32 = chart_x as u32 + 1;
    let mut i: usize = 0;
    while i < names.len()
        invariant_except_break
            i <= names.len(),
            nv == names@.map_values(|v: Vec<char>| v@),
            right == chart_x + chart_w,
            right <= u16::MAX,
            x <= right + 2,
            cells@ + legend_from(nv, i as int, x as int, right as int) == full,
            full == legend_from(nv, 0, chart_x + 1, chart_x + chart_w),
        ensures
            cells@ == full,
        decreases names.len() - i,
    {
        if x + 4 >= right {
            proof {
                assert(cells@ + Seq::<LegendCell>::empty() =~= cells@);
            }
            break;
        }
        let ghost before = cells@;
        let ghost x0 = x as int;
        let ghost name_v = nv[i as int];
        cells.push(LegendCell { x: x as u16, ch: '\u{2022}', series: i, bullet: true });
        proof {
            assert(cells@.last() == bullet_cell(x0, i as int));
            assert(cells@ =~= before.push(bullet_cell(x0, i as int)));
            assert(name_cells(name_v, x0 + 2, i as int, 0).len() == 0);
            assert(cells@ =~= before.push(bullet_cell(x0, i as int)) + name_cells(name_v, x0 + 2, i as int, 0));
        }
        x = x + 2;
        let name = &names[i];
        proof {
            assert(name@ == name_v);
        }
        let mut j: usize = 0;
        while j < name.len() && x < right
            invariant
                j <= name.len(),
                name@ == name_v,
                x == x0 + 2 + j,
                x <= right,
                right <= u16::MAX,
                cells@ == before.push(bullet_cell(x0, i as int)) + name_cells(name_v, x0 + 2, i as int, j as int),
            decreases name.len() - j,
        {
            let c = LegendCell { x: x as u16, ch: name[j], series: i, bullet: false };
            cells.push(c);
            proof {
                assert(name_cells(name_v, x0 + 2, i as int, j + 1) =~= name_cells(name_v, x0 + 2, i as int, j as int).push(name_cell(name_v, x0 + 2, i as int, j as int)));
                assert(c == name_cell(name_v, x0 + 2, i as int, j as int));
                assert(cells@ =~= before.push(bullet_cell(x0, i as int)) + name_cells(name_v, x0 + 2, i as int, j + 1));
            }
            x = x + 1;
            j = j + 1;
        }
        proof {
            let room = right - (x0 + 2);
            let k = if name_v.len() < room {
                name_v.len() as int
            } else {
                room
            };
            assert(j == k);
            let head = seq![bullet_cell(x0, i as int)] + name_cells(name_v, x0 + 2, i as int, k);
            assert(legend_from(nv, i as int, x0, right as int) == head + legend_from(
                nv,
                i + 1,
                x0 + 2 + k + 2,
                right as int,
            ));
            assert(cells@ =~= before + head);
            assert(before + (head + legend_from(nv, i + 1, x0 + 2 + k + 2, right as int)) =~= cells@
                + legend_from(nv, i + 1, x0 + 2 + k + 2, right as int));
        }
        x = x + 2;
        i = i + 1;
    }
    cells
}

/// Where the characters of an x-axis tick label go: the label is
/// centered on column `col` of a plot `chart_w` columns wide; characters
/// falling outside the plot are dropped and a clipped edge shows an
/// ellipsis instead of its character. Yields `(column, character)`
/// pairs, left to right; nothing when the label is clipped away.
pub open spec fn x_label_spec(col: int, label: Seq<char>, chart_w: int) -> Seq<(u16, char)> {
    let len = label.len() as int;
    let start = col - len / 2;
    let clip_left = if -start > 0 {
        -start
    } else {
        0
    };
    let clip_right = if start + len - chart_w > 0 {
        start + len - chart_w
    } else {
        0
    };
    let vs = clip_left;
    let ve = len - clip_right;
    if clip_left >= len || clip_right >= len || vs >= ve {
        Seq::empty()
    } else {
        Seq::new(
            (ve - vs) as nat,
            |o: int|
                {
                    let i = vs + o;
                    (
                        (start + i) as u16,
                        if (clip_left > 0 && i == vs) || (clip_right > 0 && i == ve - 1) {
                            '\u{2026}'
                        } else {
                            label[i]
                        },
                    )
                },
        )
    }
}

/// Place an x-axis tick label centered on plot column `col`, clipping it
/// to the plot's `chart_w` columns (an ellipsis marks a clipped edge).
pub fn x_label_cells(col: i32, label: &Vec<char>, chart_w: u16) -> (cells: Vec<(u16, char)>)
    requires
        label.len() <= i32::MAX,
    ensures
        cells@ == x_label_spec(col as int, label@, chart_w as int),
        forall|k: int| 0 <= k < cells.len() ==> (#[trigger] cells@[k]).0 < chart_w,
        forall|k: int| 0 <= k < cells.len() - 1 ==> (#[trigger] cells@[k]).0 + 1 == cells@[k + 1].0,
{
    let ghost full = x_label_spec(col as int, label@, chart_w as int);
    let len = label.len() as i64;
    let start: i64 = col as i64 - len / 2;
    let clip_left: i64 = if -start > 0 {
        -start
    } else {
        0
    };
    let clip_right: i64 = if start + len - chart_w as i64 > 0 {
        start + len - chart_w as i64
    } else {
        0
    };
    let mut cells: Vec<(u16, char)> = Vec::new();
    if clip_left >= len || clip_right >= len {
        return cells;
    }
    let vs = clip_left;
    let ve = len - clip_right;
    if vs >= ve {
        return cells;
    }
    let mut i: i64 = vs;
    while i < ve
        invariant
            vs <= i <= ve,
            0 <= vs,
            ve <= len,
            len == label.len(),
            start == col - len / 2,
            vs == clip_left,
            ve == len - clip_right,
            clip_left == (if -start > 0 {
                -start
            } else {
                0
            }),
            clip_right == (if start + len - chart_w > 0 {
                start + len - chart_w
            } else {
                0
            }),
            clip_left < len,
            clip_right < len,
            vs < ve,
            full == x_label_spec(col as int, label@, chart_w as int),
            cells@ == full.take(i - vs),
        decreases ve - i,
    {
        let ch = if (clip_left > 0 && i == vs) || (clip_right > 0 && i == ve - 1) {
            '\u{2026}'
        } else {
            label[i as usize]
        };
        cells.push(((start + i) as u16, ch));
        proof {
            assert(cells@ =~= full.take(i + 1 - vs));
        }
        i = i + 1;
    }
    proof {
        assert(cells@ =~= full);
    }
    cells
}

/// Column where a y-axis tick label of `label_len` characters starts in
/// a gutter `gutter_w` wide: right-aligned two columns left of the
/// gutter's edge when it fits, else at column 0.
pub fn y_label_x(label_len: usize, gutter_w: u16) -> (x: u16)
    ensures
        x == (if (label_len as u16) + 1 < gutter_w {
            gutter_w - 2 - (label_len as u16)
        } else {
            0
        }),
        x > 0 ==> x + (label_len as u16) + 2 == gutter_w,
{
    let l = label_len as u16;
    if (l as u32) + 1 < gutter_w as u32 {
        gutter_w - 2 - l
    } else {
        0
    }
}

/// Column where a guideline label of `label_len` characters starts: it
/// ends one column left of the gutter separator (at `gutter_w - 1`),
/// pushed to column 0 when too long.
pub fn guideline_label_x(label_len: usize, gutter_w: u16) -> (x: u16)
    ensures
        ({
            let sep = if gutter_w >= 1 {
                gutter_w - 1
            } else {
                0
            };
            let need = (label_len as u16) + 1;
            x == (if sep >= need {
                sep - need
            } else {
                0
            })
        }),
{
    let sep: u16 = if gutter_w >= 1 {
        gutter_w - 1
    } else {
        0
    };
    let need: u32 = label_len as u16 as u32 + 1;
    if sep as u32 >= need {
        (sep as u32 - need) as u16
    } else {
        0
    }
}

/// Where a message of `msg_len` characters starts so that it sits
/// centered on a `w` x `h` canvas: `(x, y)`.
pub fn centered_text_origin(w: u16, h: u16, msg_len: usize) -> (o: (u16, u16))
    ensures
        o.0 == (if w / 2 >= (msg_len as u16) / 2 {
            w / 2 - (msg_len as u16) / 2
        } else {
            0
        }),
        o.1 == h / 2,
{
    let half = (msg_len as u16) / 2;
    let x = if w / 2 >= half {
        w / 2 - half
    } else {
        0
    };
    (x, h / 2)
}

/// Regions of a time-series canvas: a legend row on top, an x-axis row
/// at the bottom, a y-axis gutter on the left, and the plot in between.
#[derive(Clone, Copy, Debug, PartialEq, Eq, Structural)]
pub struct PlotLayout {
    /// Width of the y-axis gutter (labels plus separator).
    pub gutter_w: u16,
    /// First column of the plot.
    pub chart_x: u16,
    /// First row of the plot (below the legend row).
    pub chart_y: u16,
    /// Width of the plot in cells.
    pub chart_w: u16,
    /// Height of the plot in cells.
    pub chart_h: u16,
    /// Row of the x-axis labels.
    pub x_axis_y: u16,
    /// Roughly how many x-axis ticks to aim for.
    pub x_tick_target: usize,
}

/// `v` clamped into `[lo, hi]`.
pub open spec fn clamp_int(v: int, lo: int, hi: int) -> int {
    if v < lo {
        lo
    } else if v > hi {
        hi
    } else {
        v
    }
}

/// Roughly how many y-axis ticks to aim for on a canvas `h` rows high:
/// one per three rows, between 2 and 8.
pub fn y_tick_target(h: u16) -> (n: usize)
    ensures
        n == clamp_int((h / 3) as int, 2, 8),
{
    let n = h as usize / 3;
    if n < 2 {
        2
    } else if n > 8 {
        8
    } else {
        n
    }
}

/// The layout of a canvas `w` x `h`, given the length of the widest
/// y-axis tick label (`None` when there are no ticks): `None` when the
/// canvas is too small to hold a chart.
pub open spec fn plot_layout_spec(w: u16, h: u16, widest_label: Option<usize>) -> Option<PlotLayout> {
    if w < 10 || h < 5 {
        None
    } else {
        let label_w = (match widest_label {
            Some(n) => n,
            None => 3usize,
        } as u16) as int + 2;
        let g = if label_w > 5 {
            label_w
        } else {
            5
        };
        let gutter_w = if g < w / 3 {
            g
        } else {
            (w / 3) as int
        };
        let chart_h = h - 2;
        let chart_w = w - gutter_w;
        if chart_h < 2 || chart_w < 4 {
            None
        } else {
            Some(
                PlotLayout {
                    gutter_w: gutter_w as u16,
                    chart_x: gutter_w as u16,
                    chart_y: 1,
                    chart_w: chart_w as u16,
                    chart_h: chart_h as u16,
                    x_axis_y: (1 + chart_h) as u16,
                    x_tick_target: clamp_int(chart_w / 8, 2, 10) as usize,
                },
            )
        }
    }
}

/// Partition a `w` x `h` canvas into legend row, gutter, plot and x-axis
/// row. A layout exists exactly when the canvas is at least 10 x 5; the
/// gutter then takes at most a third of the width, the plot the rest of
/// it, and the plot fills every row between legend and x axis.
pub fn plot_layout(w: u16, h: u16, widest_label: Option<usize>) -> (r: Option<PlotLayout>)
    ensures
        r == plot_layout_spec(w, h, widest_label),
        r is Some <==> (w >= 10 && h >= 5),
        r matches Some(l) ==> {
            &&& l.gutter_w <= w / 3
            &&& l.chart_x + l.chart_w == w
            &&& l.chart_y == 1
            &&& l.chart_y + l.chart_h == l.x_axis_y
            &&& l.x_axis_y + 1 == h
            &&& l.chart_w >= 4
            &&& l.chart_h >= 2
        },
{
    if w < 10 || h < 5 {
        return None;
    }
    let n = match widest_label {
        Some(n) => n,
        None => 3,
    };
    let label_w: u32 = n as u16 as u32 + 2;
    let g: u32 = if label_w > 5 {
        label_w
    } else {
        5
    };
    let gutter_w: u16 = if g < (w / 3) as u32 {
        g as u16
    } else {
        w / 3
    };
    let chart_h = h - 2;
    let chart_w = w - gutter_w;
    if chart_h < 2 || chart_w < 4 {
        return None;
    }
    let t = chart_w as usize / 8;
    let x_tick_target = if t < 2 {
        2
    } else if t > 10 {
        10
    } else {
        t
    };
    Some(
        PlotLayout {
            gutter_w,
            chart_x: gutter_w,
            chart_y: 1,
            chart_w,
            chart_h,
            x_axis_y: 1 + chart_h,
            x_tick_target,
        },
    )
}

} // verus!

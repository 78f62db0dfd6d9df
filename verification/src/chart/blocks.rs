//! Block-fill helpers for bar-style charts.
//!
//! Horizontal bars get sub-cell precision from the Unicode "left block"
//! eighths (U+2588 full ... U+258F one-eighth): a bar renders as N full
//! blocks plus at most one partial block, padded with spaces to a fixed
//! column width.

use vstd::prelude::*;

verus! {

/// The glyph filling `n`/8 of a cell from the left: 0 is a space, 8 a
/// full block.
pub open spec fn eighth_glyph(n: int) -> char {
    if n == 1 {
        '\u{258F}'
    } else if n == 2 {
        '\u{258E}'
    } else if n == 3 {
        '\u{258D}'
    } else if n == 4 {
        '\u{258C}'
    } else if n == 5 {
        '\u{258B}'
    } else if n == 6 {
        '\u{258A}'
    } else if n == 7 {
        '\u{2589}'
    } else if n == 8 {
        '\u{2588}'
    } else {
        ' '
    }
}

/// How many eighths of a cell a glyph fills (the inverse of
/// `eighth_glyph`; other characters fill nothing).
pub open spec fn glyph_eighths(c: char) -> int {
    if c == '\u{258F}' {
        1
    } else if c == '\u{258E}' {
        2
    } else if c == '\u{258D}' {
        3
    } else if c == '\u{258C}' {
        4
    } else if c == '\u{258B}' {
        5
    } else if c == '\u{258A}' {
        6
    } else if c == '\u{2589}' {
        7
    } else if c == '\u{2588}' {
        8
    } else {
        0
    }
}

/// The glyph filling `n`/8 of a cell from the left.
pub fn h_eighth(n: usize) -> (c: char)
    requires
        n <= 8,
    ensures
        c == eighth_glyph(n as int),
{
    match n {
        1 => '\u{258F}',
        2 => '\u{258E}',
        3 => '\u{258D}',
        4 => '\u{258C}',
        5 => '\u{258B}',
        6 => '\u{258A}',
        7 => '\u{2589}',
        8 => '\u{2588}',
        _ => ' ',
    }
}

/// Number of full blocks of a bar of `total` eighths in `width` cells.
pub open spec fn bar_full(width: u16, total: u32) -> int {
    let f = ((total / 8) as u16) as int;
    if f < width {
        f
    } else {
        width as int
    }
}

/// A bar of `total` eighths across `width` cells: full blocks, at most
/// one partial block (when there is room and a remainder), then spaces.
pub open spec fn h_bar_spec(width: u16, total: u32) -> Seq<char> {
    let full = bar_full(width, total);
    let rem = (total % 8) as int;
    Seq::new(
        width as nat,
        |i: int|
            if i < full {
                '\u{2588}'
            } else if i == full && rem > 0 {
                eighth_glyph(rem)
            } else {
                ' '
            },
    )
}

/// Total eighths of a cell that a row of glyphs shows filled.
pub open spec fn shown_eighths(s: Seq<char>) -> int
    decreases s.len(),
{
    if s.len() == 0 {
        0
    } else {
        shown_eighths(s.drop_last()) + glyph_eighths(s.last())
    }
}

/// Render a horizontal bar of `total_eighths` eighths of a cell across
/// `width` cells: exactly `width` characters.
pub fn h_bar_eighths(width: u16, total_eighths: u32) -> (s: String)
    ensures
        s@ == h_bar_spec(width, total_eighths),
{
    let ghost target = h_bar_spec(width, total_eighths);
    let full_raw = (total_eighths / 8) as u16;
    let full = if full_raw < width {
        full_raw
    } else {
        width
    };
    let rem = (total_eighths % 8) as usize;
    let mut s = String::new();
    let mut cols: u16 = 0;
    while cols < full
        invariant
            cols <= full,
            full == bar_full(width, total_eighths),
            full <= width,
            s@ == target.take(cols as int),
            target == h_bar_spec(width, total_eighths),
        decreases full - cols,
    {
        s.push('\u{2588}');
        proof {
            assert(target.take(cols as int + 1) =~= target.take(cols as int).push('\u{2588}'));
        }
        cols = cols + 1;
    }
    if cols < width && rem > 0 {
        let g = h_eighth(rem);
        s.push(g);
        proof {
            assert(target.take(cols as int + 1) =~= target.take(cols as int).push(g));
        }
        cols = cols + 1;
    }
    while cols < width
        invariant
            full <= cols <= width,
            full == bar_full(width, total_eighths),
            rem == total_eighths % 8,
            cols == full ==> !(full < width && rem > 0),
            s@ == target.take(cols as int),
            target == h_bar_spec(width, total_eighths),
        decreases width - cols,
    {
        s.push(' ');
        proof {
            assert(target.take(cols as int + 1) =~= target.take(cols as int).push(' '));
        }
        cols = cols + 1;
    }
    proof {
        assert(target.take(cols as int) =~= target);
    }
    s
}

proof fn lemma_shown_prefix(width: u16, total: u32, k: int)
    requires
        0 <= k <= width,
        total <= 8 * width,
    ensures
        shown_eighths(h_bar_spec(width, total).take(k)) == (if k <= total / 8 {
            8 * k
        } else if total % 8 > 0 {
            8 * (total / 8) + total % 8
        } else {
            8 * (total / 8)
        }),
    decreases k,
{
    let s = h_bar_spec(width, total);
    assert(total / 8 <= width);
    assert(bar_full(width, total) == total / 8);
    if k > 0 {
        lemma_shown_prefix(width, total, k - 1);
        assert(s.take(k).drop_last() =~= s.take(k - 1));
        assert(s.take(k).last() == s[k - 1]);
    } else {
        assert(s.take(0) =~= Seq::<char>::empty());
    }
}

/// A bar shows exactly the eighths it was asked for (whenever they fit
/// in its width), always in exactly `width` columns.
pub proof fn lemma_h_bar_exact(width: u16, total: u32)
    requires
        total <= 8 * width,
    ensures
        h_bar_spec(width, total).len() == width,
        shown_eighths(h_bar_spec(width, total)) == total,
{
    lemma_shown_prefix(width, total, width as int);
    assert(h_bar_spec(width, total).take(width as int) =~= h_bar_spec(width, total));
}

} // verus!

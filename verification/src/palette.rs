//! Default series palette, as RGB triples.

use vstd::prelude::*;

verus! {

/// Number of colors in the default series palette.
pub const SERIES_PALETTE_LEN: usize = 10;

/// The default series-color palette, picked for distinguishability on a
/// dark background: blue, green, orange, purple, cyan, pink, lime,
/// indigo, yellow, red.
pub open spec fn palette_rgb(i: int) -> (u8, u8, u8) {
    if i == 0 {
        (0x4f, 0x9d, 0xff)
    } else if i == 1 {
        (0x3f, 0xc9, 0x6b)
    } else if i == 2 {
        (0xff, 0x9f, 0x40)
    } else if i == 3 {
        (0xb4, 0x7c, 0xff)
    } else if i == 4 {
        (0x36, 0xd0, 0xd8)
    } else if i == 5 {
        (0xff, 0x6b, 0xc2)
    } else if i == 6 {
        (0xa6, 0xe2, 0x2e)
    } else if i == 7 {
        (0x7a, 0x86, 0xff)
    } else if i == 8 {
        (0xf5, 0xc2, 0x42)
    } else {
        (0xff, 0x5c, 0x5c)
    }
}

/// The palette entry at position `i` (`i < SERIES_PALETTE_LEN`).
pub fn palette_entry(i: usize) -> (c: (u8, u8, u8))
    requires
        i < SERIES_PALETTE_LEN,
    ensures
        c == palette_rgb(i as int),
{
    match i {
        0 => (0x4f, 0x9d, 0xff),
        1 => (0x3f, 0xc9, 0x6b),
        2 => (0xff, 0x9f, 0x40),
        3 => (0xb4, 0x7c, 0xff),
        4 => (0x36, 0xd0, 0xd8),
        5 => (0xff, 0x6b, 0xc2),
        6 => (0xa6, 0xe2, 0x2e),
        7 => (0x7a, 0x86, 0xff),
        8 => (0xf5, 0xc2, 0x42),
        _ => (0xff, 0x5c, 0x5c),
    }
}

/// Auto-assign a series color (as an RGB triple) by index, wrapping
/// around the palette.
pub fn series_rgb(index: usize) -> (c: (u8, u8, u8))
    ensures
        c == palette_rgb((index % SERIES_PALETTE_LEN) as int),
{
    palette_entry(index % SERIES_PALETTE_LEN)
}

/// Series `index` gets the palette color at position `index % 10`, in
/// the documented order: blue 4f9dff, green 3fc96b, orange ff9f40,
/// purple b47cff, cyan 36d0d8, pink ff6bc2, lime a6e22e, indigo 7a86ff,
/// yellow f5c242, red ff5c5c.
pub proof fn lemma_series_palette_order(index: int)
    requires
        index >= 0,
    ensures
        palette_rgb(index % (SERIES_PALETTE_LEN as int)) == seq![
            (0x4fu8, 0x9du8, 0xffu8),
            (0x3fu8, 0xc9u8, 0x6bu8),
            (0xffu8, 0x9fu8, 0x40u8),
            (0xb4u8, 0x7cu8, 0xffu8),
            (0x36u8, 0xd0u8, 0xd8u8),
            (0xffu8, 0x6bu8, 0xc2u8),
            (0xa6u8, 0xe2u8, 0x2eu8),
            (0x7au8, 0x86u8, 0xffu8),
            (0xf5u8, 0xc2u8, 0x42u8),
            (0xffu8, 0x5cu8, 0x5cu8),
        ][index % (SERIES_PALETTE_LEN as int)],
{
    let m = index % 10;
    assert(0 <= m < 10);
}

/// Series colors repeat with the palette's period, and consecutive
/// series within one period get distinct colors.
pub proof fn lemma_series_color_wraps(i: int, j: int)
    requires
        i >= 0,
        j >= 0,
    ensures
        palette_rgb((i + SERIES_PALETTE_LEN) % (SERIES_PALETTE_LEN as int)) == palette_rgb(
            i % (SERIES_PALETTE_LEN as int),
        ),
        i < SERIES_PALETTE_LEN && j < SERIES_PALETTE_LEN && i != j ==> palette_rgb(i) != palette_rgb(
            j,
        ),
{
    assert((i + 10) % 10 == i % 10) by (nonlinear_arith)
        requires
            i >= 0,
    ;
}

} // verus!

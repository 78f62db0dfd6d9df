use rdom_charts::palette::{palette_entry, series_rgb, SERIES_PALETTE_LEN};

#[test]
fn series_color_wraps() {
    assert_eq!(series_rgb(0), palette_entry(0));
    assert_eq!(series_rgb(1), palette_entry(1));
    assert_eq!(series_rgb(SERIES_PALETTE_LEN), palette_entry(0));
    assert_eq!(series_rgb(SERIES_PALETTE_LEN + 2), palette_entry(2));
}

#[test]
fn palette_entries_are_distinct() {
    for i in 0..SERIES_PALETTE_LEN {
        for j in 0..SERIES_PALETTE_LEN {
            assert_eq!(i == j, palette_entry(i) == palette_entry(j));
        }
    }
    assert_eq!(palette_entry(0), (0x4f, 0x9d, 0xff));
    assert_eq!(palette_entry(9), (0xff, 0x5c, 0x5c));
}

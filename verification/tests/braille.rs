use rdom_charts::chart::braille::{
    dot_bit, render_series, BrailleGrid, ScaledPoint, ScaledSeries, BRAILLE_BASE,
};
use rdom_charts::palette::series_rgb;
use rdom_charts::{ConnectPolicy, SeriesStyle};
use rdom_tui::Color;

fn series_color(i: usize) -> Color {
    let (r, g, b) = series_rgb(i);
    Color::Rgb(r, g, b)
}

fn muted() -> Color {
    Color::Rgb(0x6b, 0x72, 0x80)
}

fn lit(grid: &BrailleGrid, bx: i32, by: i32) -> bool {
    let idx = (by / 4) as usize * grid.cell_width() as usize + (bx / 2) as usize;
    grid.dots()[idx] & (1u8 << dot_bit((bx % 2) as u8, (by % 4) as u8)) != 0
}

#[test]
fn dot_bits_match_braille_layout() {
    assert_eq!(dot_bit(0, 0), 0);
    assert_eq!(dot_bit(0, 3), 6);
    assert_eq!(dot_bit(1, 0), 3);
    assert_eq!(dot_bit(1, 3), 7);
}

#[test]
fn all_dots_is_full_glyph() {
    let all_bits: u8 = (0..4)
        .flat_map(|sy| (0..2).map(move |sx| 1u8 << dot_bit(sx, sy)))
        .fold(0u8, |acc, b| acc | b);
    assert_eq!(all_bits, 0xFF);
    assert_eq!(
        char::from_u32(BRAILLE_BASE | all_bits as u32).unwrap(),
        '\u{28FF}'
    );
}

#[test]
fn set_dot_sets_correct_bit() {
    let mut grid = BrailleGrid::new(2, 2, muted());
    assert_eq!(grid.braille_width(), 4);
    assert_eq!(grid.braille_height(), 8);
    grid.set_dot(0, 0, series_color(0));
    assert_eq!(grid.dots()[0], 1 << dot_bit(0, 0));
    grid.set_dot(1, 0, series_color(1));
    assert_eq!(grid.dots()[0], (1 << dot_bit(0, 0)) | (1 << dot_bit(1, 0)));
    assert_eq!(grid.colors()[0], series_color(1));
}

#[test]
fn set_dot_out_of_bounds_is_noop() {
    let mut grid = BrailleGrid::new(2, 2, muted());
    grid.set_dot(-1, 0, series_color(0));
    grid.set_dot(0, -1, series_color(0));
    grid.set_dot(100, 0, series_color(0));
    grid.set_dot(0, 100, series_color(0));
    assert!(grid.dots().iter().all(|&d| d == 0));
}

#[test]
fn horizontal_line_sets_row() {
    let mut grid = BrailleGrid::new(4, 1, muted());
    grid.draw_line(0, 2, 7, 2, series_color(0));
    for bx in 0..8 {
        let cx = bx / 2;
        let sx = (bx % 2) as u8;
        assert!(
            grid.dots()[cx] & (1u8 << dot_bit(sx, 2)) != 0,
            "missing dot at bx={bx}"
        );
    }
}

#[test]
fn diagonal_line_is_continuous() {
    let mut grid = BrailleGrid::new(4, 2, muted());
    grid.draw_line(0, 0, 7, 7, series_color(0));
    let total: u32 = grid.dots().iter().map(|&b| b.count_ones()).sum();
    assert!(total >= 8, "expected continuous line, got {total} dots");
}

#[test]
fn new_grid_is_empty_and_filled_with_background() {
    let grid = BrailleGrid::new(3, 2, muted());
    assert_eq!(grid.dots().len(), 6);
    assert_eq!(grid.colors().len(), 6);
    assert!(grid.dots().iter().all(|&d| d == 0));
    assert!(grid.colors().iter().all(|&c| c == muted()));
}

#[test]
fn set_dot_is_idempotent() {
    let mut a = BrailleGrid::new(2, 2, muted());
    a.set_dot(3, 5, series_color(2));
    let once = a.dots().clone();
    a.set_dot(3, 5, series_color(2));
    assert_eq!(*a.dots(), once);
    assert!(lit(&a, 3, 5));
    assert_eq!(a.dots().iter().map(|d| d.count_ones()).sum::<u32>(), 1);
}

#[test]
fn steep_line_reaches_endpoint_and_fills_every_row() {
    let mut grid = BrailleGrid::new(3, 3, muted());
    grid.draw_line(1, 0, 4, 11, series_color(0));
    assert!(lit(&grid, 1, 0));
    assert!(lit(&grid, 4, 11));
    for by in 0..12 {
        assert!((0..6).any(|bx| lit(&grid, bx, by)), "row {by} has no dot");
    }
    // Exactly one dot per row for a y-major line.
    let total: u32 = grid.dots().iter().map(|&b| b.count_ones()).sum();
    assert_eq!(total, 12);
}

#[test]
fn reversed_line_lights_both_ends() {
    let mut grid = BrailleGrid::new(4, 2, muted());
    grid.draw_line(7, 5, 0, 1, series_color(3));
    assert!(lit(&grid, 7, 5));
    assert!(lit(&grid, 0, 1));
    assert_eq!(grid.colors()[7], series_color(3));
}

#[test]
fn line_partly_outside_grid_is_clipped() {
    let mut grid = BrailleGrid::new(2, 1, muted());
    grid.draw_line(-3, 1, 6, 1, series_color(0));
    for bx in 0..4 {
        assert!(lit(&grid, bx, 1));
    }
    let total: u32 = grid.dots().iter().map(|&b| b.count_ones()).sum();
    assert_eq!(total, 4);
}

#[test]
fn extreme_coordinates_do_not_overflow() {
    let mut grid = BrailleGrid::new(2, 1, muted());
    grid.draw_line(i32::MIN, 0, i32::MIN + 3, 0, series_color(0));
    assert!(grid.dots().iter().all(|&d| d == 0));
}

#[test]
fn cell_glyph_maps_bits_to_braille() {
    let mut grid = BrailleGrid::new(2, 1, muted());
    assert_eq!(grid.cell_glyph(0, 0), None);
    grid.set_dot(0, 0, series_color(0));
    assert_eq!(grid.cell_glyph(0, 0), Some('\u{2801}'));
    for by in 0..4 {
        grid.set_dot(2, by, series_color(0));
        grid.set_dot(3, by, series_color(0));
    }
    assert_eq!(grid.cell_glyph(1, 0), Some('\u{28FF}'));
}

#[test]
fn dash_row_lights_every_other_dot() {
    let mut grid = BrailleGrid::new(3, 1, muted());
    grid.dash_row(1, series_color(4));
    for bx in 0..6 {
        assert_eq!(lit(&grid, bx, 1), bx % 2 == 0, "bx={bx}");
    }
    assert_eq!(grid.colors()[2], series_color(4));
}

#[test]
fn polyline_breaks_at_gaps() {
    let mut grid = BrailleGrid::new(6, 1, muted());
    let series = ScaledSeries {
        points: vec![
            Some(ScaledPoint { bx: 0, top_by: 0 }),
            Some(ScaledPoint { bx: 3, top_by: 0 }),
            None,
            Some(ScaledPoint { bx: 9, top_by: 0 }),
            Some(ScaledPoint { bx: 11, top_by: 0 }),
        ],
        color: series_color(0),
        style: SeriesStyle::Line,
        connect: ConnectPolicy::Gap,
    };
    render_series(&mut grid, &series);
    let row: Vec<bool> = (0..12).map(|bx| lit(&grid, bx, 0)).collect();
    assert_eq!(
        row,
        vec![true, true, true, true, false, false, false, false, false, true, true, true]
    );
}

#[test]
fn single_point_series_lights_one_dot() {
    let mut grid = BrailleGrid::new(2, 2, muted());
    let series = ScaledSeries {
        points: vec![None, Some(ScaledPoint { bx: 2, top_by: 6 }), None],
        color: series_color(1),
        style: SeriesStyle::Line,
        connect: ConnectPolicy::Gap,
    };
    render_series(&mut grid, &series);
    let total: u32 = grid.dots().iter().map(|&b| b.count_ones()).sum();
    assert_eq!(total, 1);
    assert!(lit(&grid, 2, 6));
}

use rdom_charts::chart::blocks::{h_bar_eighths, h_eighth};

fn cols(s: &str) -> usize {
    s.chars().count()
}

// The float part of a fill ratio: clamp, scale to eighths, round.
fn h_bar(width: u16, ratio: f64) -> String {
    let ratio = ratio.clamp(0.0, 1.0);
    let total_eighths = (ratio * width as f64 * 8.0).round() as u32;
    h_bar_eighths(width, total_eighths)
}

#[test]
fn full_ratio_fills_all_cells() {
    let s = h_bar(8, 1.0);
    assert_eq!(cols(&s), 8);
    assert!(s.chars().all(|c| c == '\u{2588}'));
}

#[test]
fn zero_ratio_is_all_spaces() {
    let s = h_bar(8, 0.0);
    assert_eq!(cols(&s), 8);
    assert!(s.chars().all(|c| c == ' '));
}

#[test]
fn half_of_eight_is_four_full_blocks() {
    let s = h_bar(8, 0.5);
    assert_eq!(cols(&s), 8);
    assert_eq!(s.chars().filter(|&c| c == '\u{2588}').count(), 4);
    assert_eq!(s.chars().filter(|&c| c == ' ').count(), 4);
}

#[test]
fn fractional_uses_a_partial_block() {
    let s = h_bar(4, 0.375);
    assert_eq!(cols(&s), 4);
    assert_eq!(s.chars().filter(|&c| c == '\u{2588}').count(), 1);
    assert!(
        s.contains('\u{258C}'),
        "expected a half-block partial: {s:?}"
    );
}

#[test]
fn always_exactly_width_columns() {
    for w in 1..20u16 {
        for r in [0.0, 0.1, 0.33, 0.5, 0.9, 1.0, 1.5, -0.2] {
            assert_eq!(cols(&h_bar(w, r)), w as usize, "w={w} r={r}");
        }
    }
}

fn eighths_of(c: char) -> u32 {
    (0..=8).find(|&n| h_eighth(n) == c).unwrap() as u32
}

#[test]
fn bar_shows_exactly_the_requested_eighths() {
    for w in 0..12u16 {
        for t in 0..=(8 * w as u32) {
            let s = h_bar_eighths(w, t);
            assert_eq!(cols(&s), w as usize);
            assert_eq!(s.chars().map(eighths_of).sum::<u32>(), t, "w={w} t={t}");
        }
    }
}

#[test]
fn exact_eighths_layout() {
    assert_eq!(h_bar_eighths(4, 13), "\u{2588}\u{258B}  ");
    assert_eq!(h_bar_eighths(3, 24), "\u{2588}\u{2588}\u{2588}");
    assert_eq!(h_bar_eighths(3, 0), "   ");
    // More eighths than fit: clipped to the width, no partial block.
    assert_eq!(h_bar_eighths(2, 21), "\u{2588}\u{2588}");
    assert_eq!(h_bar_eighths(0, 5), "");
}

#[test]
fn eighth_glyphs() {
    assert_eq!(h_eighth(0), ' ');
    assert_eq!(h_eighth(1), '\u{258F}');
    assert_eq!(h_eighth(4), '\u{258C}');
    assert_eq!(h_eighth(8), '\u{2588}');
}

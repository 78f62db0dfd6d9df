use rdom_charts::chart::bar::{bar_layout, visible_rows};
use rdom_charts::chart::gauge::gauge_layout;
use rdom_charts::chart::time_series::{
    centered_text_origin, guideline_label_x, legend_layout, plot_layout, x_label_cells,
    y_label_x, y_tick_target, LegendCell,
};

// The bars "alpha" = 10, "b" = 20, "gamma" = 5 with their default
// readouts "10.0", "20.0", "5.00".
fn label_widths() -> Vec<usize> {
    vec![5, 1, 5]
}

fn value_widths() -> Vec<usize> {
    vec![4, 4, 4]
}

#[test]
fn layout_partitions_width() {
    let (label_w, bar_w, value_w) = bar_layout(&label_widths(), true, &value_widths(), 40);
    assert!((1..=40 / 3).contains(&label_w));
    assert!(value_w >= 1);
    assert_eq!(label_w + 1 + bar_w + value_w, 40);
}

#[test]
fn layout_label_capped_at_third() {
    let label = "a_very_long_label_indeed";
    let (label_w, _, _) = bar_layout(&vec![label.chars().count()], true, &vec![4], 30);
    assert_eq!(label_w, 30 / 3);
}

#[test]
fn without_values_drops_value_column() {
    let (_, _, value_w) = bar_layout(&label_widths(), false, &value_widths(), 40);
    assert_eq!(value_w, 0);
}

#[test]
fn visible_rows_clips_to_height() {
    assert_eq!(visible_rows(3, 2), 2);
    assert_eq!(visible_rows(3, 10), 3);
}

#[test]
fn bar_layout_exact_values() {
    assert_eq!(bar_layout(&label_widths(), true, &value_widths(), 40), (5, 29, 5));
    assert_eq!(bar_layout(&vec![], true, &vec![], 8), (0, 6, 1));
    assert_eq!(bar_layout(&vec![3], true, &vec![2], 0), (0, 0, 0));
    // A readout width at the u16 limit does not overflow.
    assert_eq!(bar_layout(&vec![1], true, &vec![65535], 40), (1, 28, 10));
}

#[test]
fn gauge_layout_reserves_label_and_readout() {
    // "cpu" label, "72" readout, 40 columns.
    assert_eq!(gauge_layout(40, Some(3), Some(2)), (4, 33));
    // No label, no readout: the whole width is track.
    assert_eq!(gauge_layout(20, None, None), (0, 20));
    // Long label capped at a third.
    assert_eq!(gauge_layout(30, Some(50), None), (10, 20));
    // Readout wider than the canvas leaves no track.
    assert_eq!(gauge_layout(10, None, Some(20)), (0, 0));
}

#[test]
fn legend_places_bullets_and_names() {
    let names = vec!["cpu".chars().collect::<Vec<char>>(), "mem".chars().collect()];
    let cells = legend_layout(5, 30, &names);
    let expect = vec![
        LegendCell { x: 6, ch: '\u{2022}', series: 0, bullet: true },
        LegendCell { x: 8, ch: 'c', series: 0, bullet: false },
        LegendCell { x: 9, ch: 'p', series: 0, bullet: false },
        LegendCell { x: 10, ch: 'u', series: 0, bullet: false },
        LegendCell { x: 13, ch: '\u{2022}', series: 1, bullet: true },
        LegendCell { x: 15, ch: 'm', series: 1, bullet: false },
        LegendCell { x: 16, ch: 'e', series: 1, bullet: false },
        LegendCell { x: 17, ch: 'm', series: 1, bullet: false },
    ];
    assert_eq!(cells, expect);
}

#[test]
fn legend_truncates_at_plot_edge() {
    let names = vec!["abcdefgh".chars().collect::<Vec<char>>(), "zz".chars().collect()];
    let cells = legend_layout(0, 8, &names);
    let text: String = cells.iter().map(|c| c.ch).collect();
    assert_eq!(text, "\u{2022}abcde");
    assert!(cells.iter().all(|c| c.x >= 1 && c.x < 8));
    assert!(legend_layout(0, 0, &names).is_empty());
    assert!(legend_layout(0, 40, &vec![]).is_empty());
}

#[test]
fn x_label_centered_and_clipped() {
    let label: Vec<char> = "12:30".chars().collect();
    let mid = x_label_cells(10, &label, 40);
    assert_eq!(
        mid,
        vec![(8, '1'), (9, '2'), (10, ':'), (11, '3'), (12, '0')]
    );
    // Clipped on the left: the first visible character becomes an ellipsis.
    let left = x_label_cells(0, &label, 40);
    assert_eq!(left, vec![(0, '\u{2026}'), (1, '3'), (2, '0')]);
    // Clipped on the right.
    let right = x_label_cells(39, &label, 40);
    assert_eq!(right, vec![(37, '1'), (38, '2'), (39, '\u{2026}')]);
    // Entirely outside.
    assert!(x_label_cells(100, &label, 40).is_empty());
    assert!(x_label_cells(i32::MIN, &label, 40).is_empty());
}

#[test]
fn y_and_guideline_label_positions() {
    assert_eq!(y_label_x(3, 8), 3);
    assert_eq!(y_label_x(7, 8), 0);
    assert_eq!(guideline_label_x(5, 8), 1);
    assert_eq!(guideline_label_x(9, 8), 0);
    assert_eq!(centered_text_origin(40, 10, 7), (17, 5));
}

#[test]
fn plot_layout_partitions_canvas() {
    let l = plot_layout(80, 24, Some(4)).unwrap();
    assert_eq!(l.gutter_w, 6);
    assert_eq!(l.chart_x, 6);
    assert_eq!(l.chart_w, 74);
    assert_eq!(l.chart_y, 1);
    assert_eq!(l.chart_h, 22);
    assert_eq!(l.x_axis_y, 23);
    assert_eq!(l.x_tick_target, 9);
    // Narrow canvas: the gutter is capped at a third.
    let n = plot_layout(12, 6, Some(10)).unwrap();
    assert_eq!(n.gutter_w, 4);
    assert_eq!(n.chart_w, 8);
    assert!(plot_layout(9, 24, None).is_none());
    assert!(plot_layout(80, 4, None).is_none());
    assert_eq!(y_tick_target(24), 8);
    assert_eq!(y_tick_target(5), 2);
    assert_eq!(y_tick_target(12), 4);
}

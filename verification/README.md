# rdom_charts

Terminal charts for rdom: the integer core, verified with Verus.

- `src/chart/braille.rs` — the 2x4 braille dot grid: dot bits, lighting
  dots, Bresenham lines, gap-breaking polylines, dashed rows, cell glyphs.
- `src/chart/blocks.rs` — eighth-block horizontal bar fills.
- `src/chart/axis.rs` — `MM/DD` / `HH:MM` timestamp labels.
- `src/chart/interaction.rs` — key bindings, wheel direction and the
  drag-to-pan gesture of the time-series chart.
- `src/chart/bar.rs`, `src/chart/gauge.rs`, `src/chart/time_series.rs` —
  column layouts of bar charts, gauges, legends, axis labels and the
  time-series canvas.
- `src/palette.rs` — the default series palette.
- `src/external.rs` — the outside items the library relies on.
- `app/` — the floating-point scaling, the data buffers, and the rdom-tui
  canvas and event plumbing, built on the library.

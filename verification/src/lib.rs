//! Terminal chart rendering: the integer core of braille line drawing,
//! eighth-block bar fills, palette indexing, and the column layouts of
//! bar charts, gauges, legends and axis labels, each with a contract.

pub mod chart;
pub mod external;
pub mod palette;

pub use chart::data::{ConnectPolicy, SeriesStyle};

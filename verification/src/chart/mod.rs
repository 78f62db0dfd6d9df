//! Charting logic: braille rasterizer, block fills, layouts.

pub mod braille;
pub mod data;
pub mod blocks;
pub mod axis;
pub mod bar;
pub mod gauge;
pub mod time_series;
pub mod interaction;

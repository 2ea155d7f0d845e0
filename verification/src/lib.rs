//! Tide-clock rendering core: a tide data model (normalized heights,
//! timestamps, extreme-event markers), wall-clock windowing, and the
//! monochrome graph renderer (waveform, play head, past-erase effect,
//! labels and water-mark gauge) for a fixed 128x32 pixel canvas.

pub mod clock;
pub mod maths;
pub mod tides;
pub mod display;
pub mod font;

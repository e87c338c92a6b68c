//! A terminal "fire" effect: a heat field that is ignited along its bottom row,
//! carries heat upward with sideways jitter and cools once ignition stops, a
//! diff of two snapshots into the cells a renderer has to repaint, and the
//! decisions of the loops that drive both.

pub mod field;
pub mod palette;
pub mod render;
pub mod control;
pub mod burnout;

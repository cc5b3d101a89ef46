//! A row-parallel two-band raster engine: shape validation, striped work
//! partition, index-keyed row collection, the per-pixel nodata and
//! division rule, percentile clipping over order keys, progress reports,
//! and the tool's command-line arguments.

pub mod args;
pub mod clip;
pub mod collect;
pub mod error;
pub mod grid;
pub mod lidar_stats;
pub mod partition;
pub mod pixel;
pub mod progress;
pub mod validate;

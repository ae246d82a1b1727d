//! Synthesis and optimisation of binary dither patterns.
//!
//! The crate turns 8-bit grayscale images into black-and-white patterns by
//! spatial statistics rather than by thresholding each pixel on its own:
//!
//! - `blue_noise` spreads points over a toroidal tile by best-candidate
//!   placement and measures every cell's distance to them;
//! - `void_cluster` ranks the cells of a tile by filling its largest voids
//!   and then removing its tightest clusters;
//! - `hvs` keeps the error that the eye perceives in a pattern, seen through
//!   a low-pass kernel, exact from toggle to toggle;
//! - `dbs` searches for a better pattern by toggling single pixels.
//!
//! `toroidal`, `kernel`, `grid`, `sums`, `ratio`, `random` and `raster` hold
//! what these share. `ordered`, `edge_detection`, `hilbert` and `selective`
//! serve the simpler renderings that are composed with them.
//!
//! All arithmetic is exact. Kernel weights are fixed-point integers, and
//! distances are kept squared; where a real number would be a fraction or a
//! square root, the crate compares cross products and squares instead.

pub mod blue_noise;
pub mod dbs;
pub mod edge_detection;
pub mod grid;
pub mod hilbert;
pub mod hvs;
pub mod kernel;
pub mod ordered;
pub mod random;
pub mod raster;
pub mod ratio;
pub mod selective;
pub mod sums;
pub mod toroidal;
pub mod void_cluster;

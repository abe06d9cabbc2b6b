//! Verified core of a map-tile fetching pipeline.
//!
//! The library turns a geographic area of interest into concrete tile
//! addresses and output locations: Web-Mercator tile indices are encoded as
//! quadkeys, bounding boxes become inclusive tile-index ranges (split in two
//! when the box crosses the antimeridian), ranges are expanded row-major into
//! tile lists, tiles are sharded across a grid of output subdirectories, and
//! every request URL and output file name is derived deterministically.
//! A fetch report tracks per-tile completions under a fixed total.
//!
//! Floating-point geodesy (degree-to-tile projection) and all I/O live
//! outside this crate; the library works on the integer tile coordinates and
//! plain values that those layers hand it.

pub mod coords;
pub mod errors;
pub mod grid;
pub mod naming;
pub mod pipeline;
pub mod tiles;

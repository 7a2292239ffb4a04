//! Verified core of a batch image-conversion utility.
//!
//! The library owns the decision logic of the tool: resolving a
//! configuration from whatever a sidecar file held ([`config`]), deriving a
//! collision-resistant output filename from an input path and a timestamp
//! ([`forge`]), deciding and applying the per-image transform steps
//! ([`transform`]), locating the sidecar file and the output directory
//! ([`paths`]), and summarising the per-item results of a batch run
//! ([`batch`]). File and network I/O, argument handling and thread fan-out
//! live outside the library, which only ever works on plain values.

pub mod batch;
pub mod config;
pub mod forge;
pub mod paths;
pub mod transform;

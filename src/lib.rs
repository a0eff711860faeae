//! Lazy sequence adapters over a pull-based source: fixed-step skipping,
//! pairwise combining, and a scan seeded by the first element.

pub mod source;
pub mod stride;
pub mod map_pairs;
pub mod scan1;
pub mod extra;

//! Exact Pearson product-moment correlation for paired decimal observations.
//!
//! The library has two stages. Ingestion turns text lines into a `Sample`
//! of paired decimal observations, skipping lines that are not exactly two
//! comma-separated decimal fields. The statistics engine turns a `Sample`
//! into means, deviations, squared deviations, deviation products and the
//! correlation coefficient, all computed exactly over integers: every value
//! is carried as a rational number, and the coefficient, whose exact value
//! needs a square root, is carried as the integer triple it is built from.

pub mod ingest;
pub mod laws;
pub mod num;
pub mod stats;

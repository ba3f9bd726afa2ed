//! Classifies every point of the 24-bit colour space against a catalog of
//! named reference colours and tallies how many points fall to each name.

pub mod catalog;
pub mod color;
pub mod distribution;
pub mod metric;
pub mod parallel;
pub mod ranking;
pub mod resolver;
pub mod strategy;
pub mod tally;

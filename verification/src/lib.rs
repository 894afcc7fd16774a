//! Pairwise statistical-dependency matrices between channels of one or two
//! multivariate time series.
//!
//! The verified core works on the exact, integer-valued part of the two
//! engines: parameter validation, the discretizer's index clamping, the
//! histogram counting that underlies the entropy estimates, the lag-window
//! planning that precedes the correlation scan, and the disjoint partition of
//! the output cells. The floating-point arithmetic around it (entropy from a
//! histogram, means, standard deviations, Pearson ratios) lives outside the
//! verified library.

pub mod discrete;
pub mod grid;
pub mod hist;
pub mod lag;
pub mod validate;

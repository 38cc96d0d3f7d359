//! Building blocks of a Monte Carlo path generator for the stochastic
//! Brusselator: the step-by-step construction of one sample path, the
//! skip/stride view applied to finished paths, and the bookkeeping of the
//! engine that hands paths out to workers and gathers them again.

pub mod engine;
pub mod path;
pub mod view;

//! A generic genetic-algorithm engine: a population of candidate solutions
//! with dual raw/scaled score orderings, scaling transforms that turn raw
//! scores into fitness, selection strategies that sample individuals by
//! fitness, and a generational driver that ties them together.
//!
//! Scores are integers (the intended reading is a fixed-point value in
//! millionths); the caller maps its own measurements into that domain.

pub mod ga_core;
pub mod ga_population;
pub mod ga_random;
pub mod ga_scaling;
pub mod ga_selectors;
pub mod ga_simple;
pub mod ga_test;

//! A verified core for a geometric image-approximation puzzle solver.
//!
//! A target raster image and an initial partition of the canvas into
//! rectangular blocks are given; the goal is a short program in a small
//! instruction language whose execution yields a canvas close to the
//! target, at low total cost.  This crate holds the verified model of
//! that language: the canvas simulator, the scoring rules, the planners
//! that synthesize programs, and the local-search refiner.
pub mod ai;
pub mod annealing_ai;
pub mod change_color_ai;
pub mod cross_ai;
pub mod dp_ai;
pub mod driver;
pub mod image;
pub mod initial_config;
pub mod isl;
pub mod isl_text;
pub mod kmeans;
pub mod laws;
pub mod merge_ai;
pub mod program_edit;
pub mod refine_ai;
pub mod render;
pub mod rng;
pub mod similarity;
pub mod simulator;
pub mod state;
pub mod swap_ai;

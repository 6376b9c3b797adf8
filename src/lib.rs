//! Pixel-rearrangement engine: computes a bijective assignment of source
//! pixels to destination slots so that the rearranged image approximates a
//! target weight mask, and applies such assignments to pixel buffers.
pub mod assignment;
pub mod control;
pub mod cost;
pub mod error;
pub mod genetic;
pub mod geometry;
pub mod optimal;
pub mod optimality;
pub mod preset;
pub mod rng;

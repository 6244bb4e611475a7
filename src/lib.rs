//! Prime spiral rendering: a polar point generator, a trial-division
//! primality test and an RGBA pixel buffer with bounds-checked writes.

pub mod prime;
pub mod generator;
pub mod pixels;
pub mod render;

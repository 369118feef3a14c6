//! Newton-fractal rendering engine: the integer side of the renderer
//! (row bands, the bounded convergence loop, pixel intensities) and the
//! parsing of command-line pairs, with their contracts.

pub mod bands;
pub mod parse;
pub mod render;

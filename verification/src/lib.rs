//! Approximates a raster target image by an ordered list of filled, rotated
//! ellipses, chosen by randomized annealed local search so that the rendered
//! composite matches the target under a perceptual difference metric.
//!
//! The crate holds the search-and-scoring core: the RGB to CIE Lab lookup
//! table, the draw-command model with paired mutation, the perceptual
//! difference metric in exact fixed-point arithmetic, and the per-generation
//! selection and commit rules of the search engine. Rasterization and file
//! input/output live outside the library and exchange plain pixel buffers
//! with it.

pub mod canvas;
pub mod color_converter;
pub mod draw_command;
pub mod dssim;
pub mod engine;

//! Pipelines that write into surfaces.
pub mod clear;
pub mod triangle;

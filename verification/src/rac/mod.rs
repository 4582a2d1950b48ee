//! Reversible autoencoding of images along a learned flow.

pub mod artifacts;
pub mod batch;
pub mod eval;
pub mod flow;
pub mod report;
pub mod runtime;
pub mod state;
pub mod teacher;

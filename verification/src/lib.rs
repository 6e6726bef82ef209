//! A Ruby style checker: source model, diagnostics, corrections and cops.

pub mod diagnostic;
pub mod parse;
pub mod config;
pub mod correction;
pub mod cop;
pub mod laws;

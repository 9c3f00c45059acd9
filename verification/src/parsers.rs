//! Turning a source file into spans.

pub mod registry;
pub mod rust;
pub mod strategy;

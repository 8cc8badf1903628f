//! Guitar Pro score analysis and conversion logic.

pub mod analysis;
pub mod cli;
pub mod convert;
pub mod counting;
pub mod error;
pub mod model;
pub mod text;

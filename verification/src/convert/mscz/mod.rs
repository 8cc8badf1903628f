//! MuseScore (`.mscz`) conversion support.

pub mod from_optimized;
pub mod to_optimized;
pub mod validate;

pub use validate::LossReport;

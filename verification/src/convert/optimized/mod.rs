//! Conversions into the optimized model.

pub mod legacy;
pub mod note;
pub mod song;
pub mod timeline;

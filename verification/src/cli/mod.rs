//! The command-line tool's own logic: file-format detection, format
//! resolution, repeat analysis and the other computations its commands
//! make, kept apart from the reading, writing and printing around them.

pub mod convert;
pub mod duplicates;
pub mod extract;
pub mod fingering;
pub mod form;
pub mod info;
pub mod linkage;
pub mod loader;
pub mod mscz;
pub mod repeats;
pub mod simile;
pub mod sounding;

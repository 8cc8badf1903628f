//! Conversion toward MusicXML `score-partwise` documents.
//!
//! Sub-modules follow the score hierarchy:
//! - [`metadata`]: identification and part list
//! - [`measure`]: per-measure attributes
//! - [`note`]: note construction
//! - [`notations`]: technical markings, ornaments, articulations
//! - [`from_optimized`]: helpers of the conversion from the optimized model

pub mod from_optimized;
pub mod helpers;
pub mod measure;
pub mod metadata;
pub mod notations;
pub mod score;
pub mod note;

use vstd::prelude::*;

verus! {

/// Divisions per quarter note used throughout the output document: the
/// legacy quarter-note tick count, so legacy tick values map one to one.
pub const DIVISIONS: u32 = 960;

} // verus!

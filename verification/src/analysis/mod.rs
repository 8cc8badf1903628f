//! Musical analyses of a track: chords, fingering, repeats, keys, form.

pub mod chords;
pub mod fingering;
pub mod form;
pub mod repeats;
pub mod scales;

//! Conversions between the score formats.

pub mod guitarpro;
pub mod legacy;
pub mod to_legacy;
pub mod mscz;
pub mod musicxml;
pub mod optimized;
pub mod song_from_xml;

//! The `fingering` command: names of fingers and roles, and fingers from
//! their numbers.

use vstd::prelude::*;

use crate::analysis::fingering::FingerRole;
use crate::model::Finger;

verus! {

/// Arguments of the `fingering` command.
#[derive(Debug)]
pub struct FingeringArgs {
    /// Input score file.
    pub input: String,
    /// Track name filter (case-insensitive substring).
    pub track: Option<String>,
    /// Print JSON instead of text.
    pub json: bool,
    /// Write the annotated score to this path.
    pub annotate: Option<String>,
    /// Starting hand position (fret); read but not used.
    pub position: Option<u8>,
}

/// The name of a finger role in JSON output.
pub fn role_str(role: FingerRole) -> (r: &'static str)
    ensures
        r@ == match role {
            FingerRole::Single => "single"@,
            FingerRole::BarreAnchor => "barre_anchor"@,
            FingerRole::BarreMember => "barre_member"@,
        },
{
    match role {
        FingerRole::Single => "single",
        FingerRole::BarreAnchor => "barre_anchor",
        FingerRole::BarreMember => "barre_member",
    }
}

/// The name of finger number `f` (1 = index … 4 = pinky); `?` otherwise.
pub fn finger_name(f: u8) -> (r: &'static str)
    ensures
        r@ == if f == 1 {
            "index"@
        } else if f == 2 {
            "middle"@
        } else if f == 3 {
            "ring"@
        } else if f == 4 {
            "pinky"@
        } else {
            "?"@
        },
{
    match f {
        1 => "index",
        2 => "middle",
        3 => "ring",
        4 => "pinky",
        _ => "?",
    }
}

/// The finger of number `f` (1 = index … 4 = pinky); open otherwise.
pub fn finger_from_u8(f: u8) -> (r: Finger)
    ensures
        r == if f == 1 {
            Finger::Index
        } else if f == 2 {
            Finger::Middle
        } else if f == 3 {
            Finger::Ring
        } else if f == 4 {
            Finger::Pinky
        } else {
            Finger::Open
        },
{
    match f {
        1 => Finger::Index,
        2 => Finger::Middle,
        3 => Finger::Ring,
        4 => Finger::Pinky,
        _ => Finger::Open,
    }
}

} // verus!

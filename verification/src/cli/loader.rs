//! Recognising legacy Guitar Pro files by their header.

use vstd::prelude::*;

verus! {

/// The text after the length byte of a legacy header, up to the version.
pub open spec fn legacy_magic() -> Seq<u8> {
    seq![70u8, 73, 67, 72, 73, 69, 82, 32, 71, 85, 73, 84, 65, 82, 32, 80, 82, 79, 32, 118]
}

/// An ASCII decimal digit.
pub open spec fn is_digit(b: u8) -> bool {
    48 <= b <= 57
}

/// The header is the legacy magic with version `m.np` (one digit each):
/// length byte 0x18, "FICHIER GUITAR PRO v", digit, '.', digit, digit.
pub open spec fn has_legacy_header(data: Seq<u8>) -> bool {
    &&& data.len() >= 30
    &&& data[0] == 0x18
    &&& data.subrange(1, 21) == legacy_magic()
    &&& is_digit(data[21])
    &&& data[22] == 46
    &&& is_digit(data[23])
    &&& is_digit(data[24])
}

/// The version's minor part is a two-byte UTF-8 character, which the
/// version parser cannot split.
pub open spec fn unsplittable_minor(data: Seq<u8>) -> bool {
    &&& data.len() >= 30
    &&& data[0] == 0x18
    &&& data.subrange(1, 21) == legacy_magic()
    &&& is_digit(data[21])
    &&& data[22] == 46
    &&& 0xC2 <= data[23] <= 0xDF
    &&& 0x80 <= data[24] <= 0xBF
}

/// Peek at the header to identify the legacy version: `(major, minor,
/// patch)` from the "FICHIER GUITAR PRO vX.YZ" magic, or `None` when the
/// header is absent (e.g. a GP6/7 container or other content).
pub fn detect_legacy_version(data: &[u8]) -> (r: Option<(u8, u8, u8)>)
    requires
        !unsplittable_minor(data@),
    ensures
        r is Some <==> has_legacy_header(data@),
        r is Some ==> r->0 == ((data@[21] - 48) as u8, (data@[23] - 48) as u8, (data@[24] - 48) as u8),
{
    if data.len() < 30 || data[0] != 0x18 {
        return None;
    }
    let magic: [u8; 20] = [70, 73, 67, 72, 73, 69, 82, 32, 71, 85, 73, 84, 65, 82, 32, 80, 82, 79, 32, 118];
    let mut k: usize = 0;
    while k < 20
        invariant
            k <= 20,
            data@.len() >= 30,
            magic@ == legacy_magic(),
            forall|q: int| 0 <= q < k ==> data@[q + 1] == legacy_magic()[q],
        decreases 20 - k,
    {
        if data[k + 1] != magic[k] {
            assert(data@.subrange(1, 21)[k as int] != legacy_magic()[k as int]);
            return None;
        }
        k += 1;
    }
    assert(data@.subrange(1, 21) =~= legacy_magic());
    let major = data[21];
    let dot = data[22];
    let minor = data[23];
    let patch = data[24];
    if 48 <= major && major <= 57 && dot == 46 && 48 <= minor && minor <= 57 && 48 <= patch && patch
        <= 57 {
        Some((major - 48, minor - 48, patch - 48))
    } else {
        None
    }
}

} // verus!

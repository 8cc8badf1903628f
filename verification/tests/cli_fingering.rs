use guitarpro::analysis::fingering::FingerRole;
use guitarpro::cli::fingering::{finger_from_u8, finger_name, role_str};
use guitarpro::model::Finger;

#[test]
fn finger_names_and_roles() {
    assert_eq!(finger_name(1), "index");
    assert_eq!(finger_name(4), "pinky");
    assert_eq!(finger_name(0), "?");
    assert_eq!(role_str(FingerRole::BarreAnchor), "barre_anchor");
    assert_eq!(finger_from_u8(3), Finger::Ring);
    assert_eq!(finger_from_u8(9), Finger::Open);
}

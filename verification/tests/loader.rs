use guitarpro::cli::loader::detect_legacy_version;

fn make_header(version: &str) -> Vec<u8> {
    let mut out = vec![0x18];
    let body = format!("FICHIER GUITAR PRO v{version}");
    assert_eq!(body.len(), 24, "header must be exactly 24 bytes");
    out.extend_from_slice(body.as_bytes());
    out.extend_from_slice(&[0; 8]);
    out
}

#[test]
fn detects_gp3_header() {
    assert_eq!(detect_legacy_version(&make_header("3.00")), Some((3, 0, 0)));
}

#[test]
fn detects_gp5_header() {
    assert_eq!(detect_legacy_version(&make_header("5.10")), Some((5, 1, 0)));
}

#[test]
fn rejects_non_gp_header() {
    let html = b"                <DIV class=Section1>";
    assert_eq!(detect_legacy_version(html), None);
}

#[test]
fn rejects_gp7_zip_container() {
    let zip = b"PK\x03\x04\x14\x00\x00\x00\x08\x00\xEE\x8E\xEA\\";
    assert_eq!(detect_legacy_version(zip), None);
}

// Malformed versions are refused: two-digit major, missing patch digit, wrong length byte.
#[test]
fn rejects_malformed_versions() {
    assert_eq!(detect_legacy_version(&make_header("10.1")), None);
    assert_eq!(detect_legacy_version(&make_header("4.0.")), None);
    assert_eq!(detect_legacy_version(&make_header("4.+1")), None);
    let mut wrong_len = make_header("4.06");
    wrong_len[0] = 0x17;
    assert_eq!(detect_legacy_version(&wrong_len), None);
    assert_eq!(detect_legacy_version(&make_header("4.06")), Some((4, 0, 6)));
    let short = &make_header("4.06")[..29];
    assert_eq!(detect_legacy_version(short), None);
}

use guitarpro::error::GpError;

#[test]
fn message_converts_to_format_error() {
    let e: GpError = GpError::from("bad header".to_string());
    assert!(matches!(e, GpError::FormatError(ref m) if m == "bad header"));
}

#[test]
fn io_error_is_wrapped() {
    let e: GpError = std::io::Error::new(std::io::ErrorKind::Other, "disk").into();
    assert!(matches!(e, GpError::Io(_)));
}

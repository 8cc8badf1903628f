use guitarpro::cli::convert::{
    input_format_from, output_file_name, output_format_from, resolve_formats, resolve_input_format,
    resolve_output_format, strip_doctype, ConvertArgs, ConvertFormats, Format, FormatError,
};

// Extensions and names are matched in any case (the lower-casing is not skipped).
#[test]
fn format_from_ext_and_name_ignore_case() {
    assert_eq!(Format::from_ext("GP5"), Some(Format::Gp5));
    assert_eq!(Format::from_ext("MusicXML"), Some(Format::MusicXml));
    assert_eq!(Format::from_ext("msor"), Some(Format::Score));
    assert_eq!(Format::from_ext("gp7"), None);
    assert_eq!(Format::from_name("GP7"), Some(Format::Gp));
    assert_eq!(Format::from_name("MuseScore"), Some(Format::Mscz));
    assert_eq!(Format::from_name("opt"), Some(Format::Score));
    assert_eq!(Format::from_name("pdf"), None);
}

#[test]
fn format_texts() {
    assert_eq!(Format::MusicXml.default_ext(), "musicxml");
    assert_eq!(Format::Gpx.label(), "Guitar Pro 6 (GPX)");
    assert_eq!(Format::Gp5.gp_write_version(), Some((5, 1, 0)));
    assert_eq!(Format::Gp.gp_write_version(), None);
    assert_eq!(output_file_name("song", Format::MusicXml), "song.musicxml");
}

#[test]
fn resolving_formats() {
    assert_eq!(resolve_input_format(None, "dir/song.GPX"), Ok(Format::Gpx));
    assert_eq!(resolve_input_format(Some("xml"), "dir/song.gpx"), Ok(Format::MusicXml));
    assert_eq!(
        resolve_input_format(Some("bogus"), "song.gp5"),
        Err(FormatError::UnknownInputFormat("bogus".to_string()))
    );
    assert_eq!(
        resolve_input_format(None, "song.txt"),
        Err(FormatError::CannotDetectInput("txt".to_string()))
    );
    assert_eq!(resolve_output_format(None, "out.gp3", true), Err(FormatError::BatchNeedsTarget));
    assert_eq!(resolve_output_format(None, "out.gp3", false), Ok(Format::Gp3));
    assert_eq!(
        resolve_formats(None, "a.gp5", Some("mscz"), "b"),
        Ok(ConvertFormats { src: Format::Gp5, dst: Format::Mscz })
    );
    assert_eq!(input_format_from(None, ""), Err(FormatError::CannotDetectInput(String::new())));
    assert_eq!(
        output_format_from(Some("Score"), "", true),
        Ok(Format::Score)
    );
}

#[test]
fn strip_doctype_removes_the_declaration() {
    let xml = "<?xml version=\"1.0\"?>\n<!DOCTYPE score-partwise PUBLIC \"-//Recordare//DTD\" \"x.dtd\">\n<score-partwise/>";
    assert_eq!(strip_doctype(xml), "<?xml version=\"1.0\"?>\n\n<score-partwise/>");
    assert_eq!(strip_doctype("<a/>"), "<a/>");
    assert_eq!(strip_doctype("<!DOCTYPE never closed"), "<!DOCTYPE never closed");
}

#[test]
fn convert_args_resolve_their_formats() {
    let args = ConvertArgs {
        input: "a.gp5".to_string(),
        output: "b.musicxml".to_string(),
        to: None,
        from: None,
        dry_run: false,
    };
    let f = args.formats().unwrap();
    assert_eq!(f.src, Format::Gp5);
    assert_eq!(f.dst, Format::MusicXml);
}

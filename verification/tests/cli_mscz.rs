use guitarpro::cli::mscz::{entry_segments, thumbnail_path, EntryPathError};

#[test]
fn entry_paths_stay_below_the_root() {
    assert_eq!(entry_segments("META-INF/container.xml").unwrap(), vec!["META-INF", "container.xml"]);
    assert_eq!(entry_segments("./a//b/./c/").unwrap(), vec!["a", "b", "c"]);
    assert_eq!(entry_segments("a/...b").unwrap(), vec!["a", "...b"]);
    assert_eq!(entry_segments("").unwrap(), Vec::<String>::new());
}

#[test]
fn entry_paths_that_escape_are_refused() {
    assert_eq!(entry_segments("/etc/passwd"), Err(EntryPathError::Absolute));
    assert_eq!(entry_segments("../evil.txt"), Err(EntryPathError::ParentDir));
    assert_eq!(entry_segments("a/b/../../c"), Err(EntryPathError::ParentDir));
}

#[test]
fn thumbnail_defaults_next_to_the_input() {
    assert_eq!(thumbnail_path("song.mscz", None), "song.mscz.thumbnail.png");
    assert_eq!(thumbnail_path("song.mscz", Some("t.png")), "t.png");
}

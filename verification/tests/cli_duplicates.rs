use guitarpro::cli::duplicates::{duplicate_groups, fnv1a, is_gp_extension, is_gp_file};
use guitarpro::cli::linkage::single_linkage;

fn links(n: usize, pairs: &[(usize, usize)]) -> Vec<Vec<bool>> {
    let mut m = vec![vec![false; n]; n];
    for &(a, b) in pairs {
        m[a][b] = true;
    }
    m
}

#[test]
fn fnv1a_matches_reference_values() {
    assert_eq!(fnv1a(b""), 0xcbf29ce484222325);
    assert_eq!(fnv1a(b"a"), 0xaf63dc4c8601ec8c);
    assert_eq!(fnv1a(b"foobar"), 0x85944171f73967e8);
}

#[test]
fn gp_extensions_in_any_case() {
    assert!(is_gp_extension("gp5"));
    assert!(is_gp_extension("GPX"));
    assert!(!is_gp_extension("mscz"));
    assert!(is_gp_file("songs/a.GP3"));
    assert!(!is_gp_file("songs/readme"));
    assert!(!is_gp_file("songs/a.txt"));
}

#[test]
fn single_linkage_is_transitive() {
    // 0-2 and 2-4 link 0, 2, 4; 1 and 3 stay alone.
    let c = single_linkage(&links(5, &[(0, 2), (2, 4)]));
    assert_eq!(c[0], c[2]);
    assert_eq!(c[2], c[4]);
    assert_ne!(c[0], c[1]);
    assert_ne!(c[1], c[3]);
    assert_ne!(c[0], c[3]);
}

#[test]
fn single_linkage_reads_only_the_upper_triangle() {
    let mut m = links(3, &[]);
    m[2][0] = true;
    let c = single_linkage(&m);
    assert_ne!(c[0], c[2]);
}

#[test]
fn duplicate_groups_list_multi_member_clusters_in_order() {
    let g = duplicate_groups(&links(6, &[(1, 4), (0, 5), (4, 3)]));
    // (4, 3) is below the diagonal and ignored.
    assert_eq!(g, vec![vec![0, 5], vec![1, 4]]);
    assert!(duplicate_groups(&links(3, &[])).is_empty());
}

#[test]
fn gp_files_by_the_extension_of_their_last_segment() {
    assert!(is_gp_file("a.gp5"));
    assert!(is_gp_file("dir.txt/song.Gpx"));
    assert!(is_gp_file("./x/.hidden.gp"));
    assert!(!is_gp_file(".gp3"));
    assert!(!is_gp_file("song.gp3.bak"));
    assert!(!is_gp_file("song."));
    assert!(!is_gp_file("dir.gp3/song"));
}

use std::collections::HashSet;

use bettershot::namer::{FileNamer, ascii_bytes_to_string, build_filename, join_path};

#[test]
fn a_thousand_names_in_one_second_are_pairwise_distinct() {
    let mut namer = FileNamer::new();
    let stamp: u64 = 1700000000000;
    let mut seen: HashSet<Vec<u8>> = HashSet::new();
    for _ in 0..1000 {
        let name = namer.generate_filename(b"screenshot", b"png", stamp);
        assert!(seen.insert(name));
    }
    assert_eq!(seen.len(), 1000);
}

#[test]
fn names_stay_distinct_when_timestamps_drift() {
    let mut namer = FileNamer::new();
    let mut seen: HashSet<Vec<u8>> = HashSet::new();
    for i in 0..500u64 {
        // sub-second cadence: several calls per millisecond value
        let name = namer.generate_filename(b"screenshot", b"png", 1700000000000 + i / 3);
        assert!(seen.insert(name));
    }
}

#[test]
fn filename_embeds_prefix_fixed_width_fields_and_extension() {
    let name = build_filename(b"shot", b"png", 123, 7);
    let s = ascii_bytes_to_string(name);
    assert_eq!(s, "shot_00000000000000000123_00000000000000000007.png");
}

#[test]
fn namer_counts_up_from_zero() {
    let mut namer = FileNamer::new();
    let a = ascii_bytes_to_string(namer.generate_filename(b"x", b"png", 5));
    let b = ascii_bytes_to_string(namer.generate_filename(b"x", b"png", 5));
    assert!(a.ends_with("_00000000000000000000.png"));
    assert!(b.ends_with("_00000000000000000001.png"));
}

#[test]
fn join_path_inserts_a_single_separator() {
    let joined = join_path(b"/tmp/out", b"a.png");
    assert_eq!(ascii_bytes_to_string(joined), "/tmp/out/a.png");
    let joined = join_path(b"/tmp/out/", b"a.png");
    assert_eq!(ascii_bytes_to_string(joined), "/tmp/out/a.png");
    let joined = join_path(b"", b"a.png");
    assert_eq!(ascii_bytes_to_string(joined), "a.png");
}

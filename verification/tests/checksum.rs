use aps::checksum::{compute_bytes_checksum, compute_checksum, compute_source_checksum, compute_string_checksum, SourceContent};

#[test]
fn checksum_of_known_input() {
    assert_eq!(
        compute_bytes_checksum(b"abc"),
        "sha256:ba7816bf8f01cfea414140de5dae2223b00361a396177a9cb410ff61f20015ad"
    );
    assert_eq!(
        compute_checksum(SourceContent::Missing),
        "sha256:e3b0c44298fc1c149afbf4c8996fb92427ae41e4649b934ca495991b7852b855"
    );
    assert_eq!(compute_string_checksum("abc"), compute_bytes_checksum(b"abc"));
}

#[test]
fn file_checksum_is_content_checksum() {
    assert_eq!(compute_source_checksum(SourceContent::File(b"abc".to_vec())), compute_bytes_checksum(b"abc"));
}

#[test]
fn directory_checksum_sorts_paths_and_skips_git() {
    let a = compute_checksum(SourceContent::Dir(vec![
        ("b.md".to_string(), b"B".to_vec()),
        ("a.md".to_string(), b"A".to_vec()),
        (".git/HEAD".to_string(), b"ref".to_vec()),
    ]));
    let b = compute_checksum(SourceContent::Dir(vec![("a.md".to_string(), b"A".to_vec()), ("b.md".to_string(), b"B".to_vec())]));
    assert_eq!(a, b);
    assert_eq!(b, compute_bytes_checksum(b"a.md\0Ab.md\0B"));
}

#[test]
fn directory_order_is_by_component() {
    let c = compute_checksum(SourceContent::Dir(vec![
        ("a-b/x".to_string(), b"1".to_vec()),
        ("a/y".to_string(), b"2".to_vec()),
    ]));
    assert_eq!(c, compute_bytes_checksum(b"a/y\x002a-b/x\x001"));
}

#[test]
fn every_checksum_is_prefix_and_64_hex_digits() {
    for c in [
        compute_bytes_checksum(b""),
        compute_string_checksum("some text"),
        compute_checksum(SourceContent::Dir(vec![("x".to_string(), vec![0xff, 0x00])])),
        compute_source_checksum(SourceContent::File(vec![1, 2, 3])),
    ] {
        assert_eq!(c.len(), 71);
        assert!(c.starts_with("sha256:"));
        assert!(c[7..].chars().all(|ch| ch.is_ascii_digit() || ('a'..='f').contains(&ch)));
    }
}

#[test]
fn git_contents_do_not_change_directory_checksum() {
    let with_git = compute_checksum(SourceContent::Dir(vec![
        ("sub/.git/objects/ab".to_string(), b"blob".to_vec()),
        ("a.md".to_string(), b"A".to_vec()),
        (".git/HEAD".to_string(), b"ref: main".to_vec()),
    ]));
    let other_git = compute_checksum(SourceContent::Dir(vec![
        (".git/HEAD".to_string(), b"ref: dev".to_vec()),
        ("a.md".to_string(), b"A".to_vec()),
    ]));
    assert_eq!(with_git, other_git);
    assert_eq!(with_git, compute_bytes_checksum(b"a.md\0A"));
}

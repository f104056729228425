use fs_guard::classify::{is_likely_binary_by_extension, is_text_bytes};

#[test]
fn known_binary_extensions_are_flagged() {
    assert!(is_likely_binary_by_extension("photo.png"));
    assert!(is_likely_binary_by_extension("/tmp/archive.ZIP"));
    assert!(is_likely_binary_by_extension("movie.Mp4"));
    assert!(is_likely_binary_by_extension("report.pdf"));
    assert!(is_likely_binary_by_extension("b.bin"));
}

#[test]
fn text_and_unknown_extensions_pass() {
    assert!(!is_likely_binary_by_extension("notes.txt"));
    assert!(!is_likely_binary_by_extension("src/lib.rs"));
    assert!(!is_likely_binary_by_extension("no_extension"));
    assert!(!is_likely_binary_by_extension(".gitignore"));
    assert!(!is_likely_binary_by_extension("trailing.dot."));
}

#[test]
fn compound_extension_uses_last_part() {
    assert!(is_likely_binary_by_extension("backup.tar.gz"));
    assert!(!is_likely_binary_by_extension("archive.zip.txt"));
}

#[test]
fn empty_sample_is_text() {
    assert!(is_text_bytes(&vec![]));
}

#[test]
fn plain_ascii_is_text() {
    assert!(is_text_bytes(&b"hello world\nsecond line\n".to_vec()));
}

#[test]
fn null_bytes_mean_binary() {
    let mut data = vec![b'a'; 50];
    data.push(0);
    // One null in 51 bytes is above the one-percent threshold.
    assert!(!is_text_bytes(&data));
    // One null in 200 bytes is within it.
    let mut sparse = vec![b'a'; 199];
    sparse.push(0);
    assert!(is_text_bytes(&sparse));
}

#[test]
fn high_bit_heavy_valid_utf8_is_text() {
    let s = "éééééééééé";
    assert!(is_text_bytes(&s.as_bytes().to_vec()));
}

#[test]
fn high_bit_heavy_invalid_bytes_are_binary() {
    assert!(!is_text_bytes(&vec![0xFF; 32]));
}

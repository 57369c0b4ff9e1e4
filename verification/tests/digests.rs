use teralaunch::digest::{sha256_hex, to_hex_lower, verify_download, FileHasher};
use teralaunch::manifest::FileInfo;

fn entry(path: &str, hash: &str, size: u64) -> FileInfo {
    FileInfo { path: path.to_string(), hash: hash.to_string(), size, url: format!("http://files/{}", path) }
}

#[test]
fn sha256_of_known_inputs() {
    assert_eq!(sha256_hex(b"hello world"), "b94d27b9934d3e08a52e52d7da7dabfac484efe37a5380ee9088f7ace2efcde9");
    assert_eq!(sha256_hex(b""), "e3b0c44298fc1c149afbf4c8996fb92427ae41e4649b934ca495991b7852b855");
}

#[test]
fn hex_is_lowercase_two_digits_per_byte() {
    assert_eq!(to_hex_lower(&[0x00, 0x0f, 0xa0, 0xff]), "000fa0ff");
    assert_eq!(to_hex_lower(&[]), "");
}

#[test]
fn download_with_matching_hash_passes_ignoring_case() {
    let f = entry("S1Game/a.txt", "B94D27B9934D3E08A52E52D7DA7DABFAC484EFE37A5380EE9088F7ACE2EFCDE9", 11);
    assert_eq!(verify_download(&f, b"hello world"), Ok(11));
}

#[test]
fn download_with_other_hash_is_refused() {
    let f = entry("S1Game/a.txt", "00", 11);
    assert_eq!(
        verify_download(&f, b"hello world"),
        Err("Hash mismatch for file: S1Game/a.txt (expected: 00, got: b94d27b9934d3e08a52e52d7da7dabfac484efe37a5380ee9088f7ace2efcde9)".to_string())
    );
}

#[test]
fn hashing_in_pieces_equals_hashing_at_once() {
    let data: Vec<u8> = (0..5000u32).map(|i| (i % 251) as u8).collect();
    let mut h = FileHasher::new();
    for chunk in data.chunks(1024) {
        h.update(chunk);
    }
    assert_eq!(h.finish_hex(), sha256_hex(&data));
    let mut h = FileHasher::new();
    h.update(b"hello ");
    h.update(b"");
    h.update(b"world");
    assert_eq!(h.finish_hex(), "b94d27b9934d3e08a52e52d7da7dabfac484efe37a5380ee9088f7ace2efcde9");
    assert_eq!(FileHasher::new().finish_hex(), sha256_hex(b""));
    assert_eq!(FileHasher::new().finish_hex().len(), 64);
}

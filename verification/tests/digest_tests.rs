use filer::digest::{file_digest, FileDigester};
use filer::hex::hex_encode;

#[test]
fn hex_encoding_is_lowercase_two_digits_per_byte() {
    let out = hex_encode(&[0x00, 0xff, 0x2c, 0x9a]);
    assert_eq!(out, b"00ff2c9a".to_vec());
}

#[test]
fn hex_encoding_of_nothing_is_empty() {
    let out = hex_encode(&[]);
    assert!(out.is_empty());
}

#[test]
fn digest_of_hello_matches_known_vector() {
    let d = file_digest(b"hello", 0);
    assert_eq!(
        d,
        b"2cf24dba5fb0a30e26e83b2ac5b9e29e1b161e5c1fa7425e73043362938b9824".to_vec()
    );
}

#[test]
fn digest_of_empty_content_matches_known_vector() {
    let d = file_digest(b"", 0);
    assert_eq!(
        d,
        b"e3b0c44298fc1c149afbf4c8996fb92427ae41e4649b934ca495991b7852b855".to_vec()
    );
}

#[test]
fn identical_content_yields_identical_digests() {
    let a = file_digest(b"same bytes", 7);
    let b = file_digest(b"same bytes", 7);
    assert_eq!(a, b);
}

#[test]
fn content_differing_by_one_byte_yields_different_digests() {
    let a = file_digest(b"same bytes", 0);
    let b = file_digest(b"same bytez", 0);
    assert_ne!(a, b);
}

#[test]
fn digest_is_always_sixty_four_hex_bytes() {
    for content in [&b""[..], b"x", b"hello world, hello world"] {
        for chunk in [0u64, 1, 2, 100] {
            let d = file_digest(content, chunk);
            assert_eq!(d.len(), 64);
            assert!(d.iter().all(|b| b.is_ascii_hexdigit() && !b.is_ascii_uppercase()));
        }
    }
}

#[test]
fn content_within_one_chunk_digests_directly() {
    assert_eq!(file_digest(b"ab", 5), file_digest(b"ab", 0));
    assert_eq!(file_digest(b"ab", 2), file_digest(b"ab", 0));
}

#[test]
fn chunked_digest_differs_from_direct_digest() {
    assert_ne!(file_digest(b"abcd", 2), file_digest(b"abcd", 0));
}

#[test]
fn swapping_two_chunks_changes_the_digest() {
    assert_ne!(file_digest(b"abcd", 2), file_digest(b"cdab", 2));
}

#[test]
fn streaming_digester_matches_one_shot_digest() {
    let content = b"0123456789abcdefghij";
    for chunk in [1u64, 3, 7, 20, 100] {
        let mut digester = FileDigester::new(chunk);
        digester.push(b"0123");
        digester.push(b"456789abcdefgh");
        digester.push(b"");
        digester.push(b"ij");
        let (digest, size) = digester.finish();
        assert_eq!(size, content.len() as u64);
        assert_eq!(digest, file_digest(content, chunk));
    }
}

#[test]
fn streaming_digester_of_nothing_matches_empty_digest() {
    let digester = FileDigester::new(1);
    let (digest, size) = digester.finish();
    assert_eq!(size, 0);
    assert_eq!(digest, file_digest(b"", 1));
}

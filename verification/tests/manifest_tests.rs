use filer::dec::{parse_dec_u64, u64_to_dec};
use filer::manifest::{entry_line, parse_manifest, serialize_entries, summarize, ManifestEntry};

fn entry(digest: &[u8], size: u64, path: &[u8]) -> ManifestEntry {
    ManifestEntry { digest: digest.to_vec(), size, path: path.to_vec() }
}

#[test]
fn entry_serializes_as_digest_size_path() {
    let line = entry_line(&entry(b"abc123", 5, b"a.txt"));
    assert_eq!(line, b"abc123,5,a.txt".to_vec());
}

#[test]
fn manifest_serializes_one_line_per_entry() {
    let text = serialize_entries(&vec![
        entry(b"d1", 5, b"a.txt"),
        entry(b"d2", 10, b"sub/b.txt"),
    ]);
    assert_eq!(text, b"d1,5,a.txt\nd2,10,sub/b.txt\n".to_vec());
}

#[test]
fn serialized_manifest_parses_back_to_the_same_entries() {
    let entries = vec![
        entry(b"aa11", 0, b"x"),
        entry(b"bb22", 12345, b"deep/dir/file.bin"),
        entry(b"aa11", 7, b"copy-of-x"),
    ];
    let text = serialize_entries(&entries);
    let parsed = parse_manifest(&text).expect("round trip must parse");
    assert_eq!(parsed.len(), entries.len());
    for (p, e) in parsed.iter().zip(entries.iter()) {
        assert_eq!(p.digest, e.digest);
        assert_eq!(p.size, e.size);
        assert_eq!(p.path, e.path);
    }
}

#[test]
fn non_numeric_size_fails_the_whole_parse() {
    let res = parse_manifest(b"abc123,notanumber,x.txt");
    let err = res.expect_err("a malformed size must reject the manifest");
    assert_eq!(err.line, 0);
}

#[test]
fn later_malformed_line_reports_its_index() {
    let res = parse_manifest(b"abc,1,ok.txt\nabc123,notanumber,x.txt\n");
    let err = res.expect_err("a malformed size must reject the manifest");
    assert_eq!(err.line, 1);
}

#[test]
fn wrong_field_count_fails_the_parse() {
    assert!(parse_manifest(b"onlyone").is_err());
    assert!(parse_manifest(b"two,fields").is_err());
    assert!(parse_manifest(b"a,1,b,extra").is_err());
}

#[test]
fn empty_line_between_entries_fails_the_parse() {
    let err = parse_manifest(b"a,1,b\n\nc,2,d\n").expect_err("empty line is malformed");
    assert_eq!(err.line, 1);
}

#[test]
fn empty_text_is_an_empty_manifest() {
    let parsed = parse_manifest(b"").expect("no lines, no entries");
    assert!(parsed.is_empty());
}

#[test]
fn final_newline_is_optional() {
    let with = parse_manifest(b"d,3,p\n").expect("parses");
    let without = parse_manifest(b"d,3,p").expect("parses");
    assert_eq!(with.len(), 1);
    assert_eq!(without.len(), 1);
    assert_eq!(with[0].path, without[0].path);
}

#[test]
fn empty_path_and_empty_digest_round_trip() {
    let text = b",0,\n";
    let parsed = parse_manifest(text).expect("empty fields are carried");
    assert_eq!(parsed.len(), 1);
    assert!(parsed[0].digest.is_empty());
    assert!(parsed[0].path.is_empty());
    assert_eq!(parsed[0].size, 0);
}

#[test]
fn size_at_u64_limit_parses_and_one_past_fails() {
    let max = parse_manifest(b"d,18446744073709551615,p\n").expect("max fits");
    assert_eq!(max[0].size, u64::MAX);
    assert!(parse_manifest(b"d,18446744073709551616,p\n").is_err());
}

#[test]
fn leading_zeros_are_accepted() {
    let parsed = parse_manifest(b"d,007,p\n").expect("leading zeros are digits");
    assert_eq!(parsed[0].size, 7);
}

#[test]
fn decimal_codec_round_trips() {
    for n in [0u64, 1, 9, 10, 99, 102400, u64::MAX] {
        let digits = u64_to_dec(n);
        assert_eq!(parse_dec_u64(&digits), Some(n));
    }
    assert_eq!(u64_to_dec(0), b"0".to_vec());
    assert_eq!(u64_to_dec(102400), b"102400".to_vec());
}

#[test]
fn decimal_parse_rejects_non_digits() {
    assert_eq!(parse_dec_u64(b""), None);
    assert_eq!(parse_dec_u64(b"+5"), None);
    assert_eq!(parse_dec_u64(b"12a"), None);
    assert_eq!(parse_dec_u64(b" 1"), None);
    assert_eq!(parse_dec_u64(b"-1"), None);
}

#[test]
fn summarize_counts_entries_and_totals_sizes() {
    let entries = vec![
        entry(b"d1", 5, b"a.txt"),
        entry(b"d2", 10, b"b.txt"),
        entry(b"d3", u64::MAX, b"big.bin"),
    ];
    let (count, total) = summarize(&entries);
    assert_eq!(count, 3);
    assert_eq!(total, 15u128 + u64::MAX as u128);
}

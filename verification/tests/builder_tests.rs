use filer::builder::{collect_manifest, duplicate_groups, BuildError, FileScan};
use filer::digest::file_digest;
use filer::manifest::ManifestEntry;

fn entry(digest: &[u8], size: u64, path: &[u8]) -> ManifestEntry {
    ManifestEntry { digest: digest.to_vec(), size, path: path.to_vec() }
}

#[test]
fn every_scanned_file_becomes_exactly_one_entry() {
    let scans = vec![
        FileScan::Digested(entry(b"d1", 5, b"a.txt")),
        FileScan::Digested(entry(b"d2", 0, b"empty.txt")),
        FileScan::Digested(entry(b"d3", 7, b"sub/c.txt")),
    ];
    let manifest = collect_manifest(scans).expect("all files digested");
    let entries = manifest.entries();
    assert_eq!(entries.len(), 3);
    assert_eq!(entries[0].size, 5);
    assert_eq!(entries[1].size, 0);
    assert_eq!(entries[2].path, b"sub/c.txt".to_vec());
    let text = manifest.serialize();
    assert_eq!(text, b"d1,5,a.txt\nd2,0,empty.txt\nd3,7,sub/c.txt\n".to_vec());
}

#[test]
fn one_unreadable_file_fails_the_whole_build() {
    let scans = vec![
        FileScan::Digested(entry(b"d1", 5, b"a.txt")),
        FileScan::Unreadable(b"locked.txt".to_vec()),
    ];
    match collect_manifest(scans) {
        Err(BuildError::Unreadable { path }) => assert_eq!(path, b"locked.txt".to_vec()),
        _ => panic!("an unreadable file must fail the build, naming the path"),
    }
}

#[test]
fn a_path_holding_a_comma_is_rejected() {
    let scans = vec![FileScan::Digested(entry(b"d1", 5, b"a,b.txt"))];
    match collect_manifest(scans) {
        Err(BuildError::UnsupportedPath { path }) => assert_eq!(path, b"a,b.txt".to_vec()),
        _ => panic!("the line format cannot carry a comma in a path"),
    }
}

#[test]
fn an_empty_path_is_rejected() {
    let scans = vec![FileScan::Digested(entry(b"d1", 5, b""))];
    assert!(matches!(
        collect_manifest(scans),
        Err(BuildError::UnsupportedPath { .. })
    ));
}

#[test]
fn a_repeated_path_is_rejected() {
    let scans = vec![
        FileScan::Digested(entry(b"d1", 5, b"a.txt")),
        FileScan::Digested(entry(b"d2", 6, b"a.txt")),
    ];
    match collect_manifest(scans) {
        Err(BuildError::DuplicatePath { path }) => assert_eq!(path, b"a.txt".to_vec()),
        _ => panic!("one manifest cannot carry one path twice"),
    }
}

#[test]
fn duplicate_content_is_reported_as_one_group() {
    // a.txt and b.txt both hold "hello": one digest, two paths
    let h1 = file_digest(b"hello", 0);
    let scans = vec![
        FileScan::Digested(ManifestEntry { digest: h1.clone(), size: 5, path: b"a.txt".to_vec() }),
        FileScan::Digested(ManifestEntry { digest: h1.clone(), size: 5, path: b"b.txt".to_vec() }),
    ];
    let manifest = collect_manifest(scans).expect("duplicate content is fine");
    assert_eq!(manifest.entries().len(), 2);
    let groups = duplicate_groups(manifest.entries());
    assert_eq!(groups.len(), 1);
    assert_eq!(groups[0].digest, h1);
    assert_eq!(groups[0].paths, vec![b"a.txt".to_vec(), b"b.txt".to_vec()]);
}

#[test]
fn distinct_content_reports_no_groups() {
    let entries = vec![entry(b"d1", 1, b"a"), entry(b"d2", 2, b"b")];
    assert!(duplicate_groups(&entries).is_empty());
}

#[test]
fn each_duplicated_digest_gets_one_group_with_all_its_paths() {
    let entries = vec![
        entry(b"dA", 1, b"a1"),
        entry(b"dB", 2, b"b1"),
        entry(b"dA", 1, b"a2"),
        entry(b"dB", 2, b"b2"),
        entry(b"dC", 3, b"single"),
        entry(b"dA", 1, b"a3"),
    ];
    let groups = duplicate_groups(&entries);
    assert_eq!(groups.len(), 2);
    assert_eq!(groups[0].digest, b"dA".to_vec());
    assert_eq!(
        groups[0].paths,
        vec![b"a1".to_vec(), b"a2".to_vec(), b"a3".to_vec()]
    );
    assert_eq!(groups[1].digest, b"dB".to_vec());
    assert_eq!(groups[1].paths, vec![b"b1".to_vec(), b"b2".to_vec()]);
}

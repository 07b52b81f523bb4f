use filer::diff::diff;
use filer::digest::file_digest;
use filer::manifest::ManifestEntry;

fn entry(digest: &[u8], size: u64, path: &[u8]) -> ManifestEntry {
    ManifestEntry { digest: digest.to_vec(), size, path: path.to_vec() }
}

#[test]
fn unchanged_entry_is_skipped_and_new_entry_is_planned() {
    // local manifest: a.txt,5,a.txt — remote adds c.txt,10,c.txt
    let local = vec![entry(b"a.txt", 5, b"a.txt")];
    let remote = vec![entry(b"a.txt", 5, b"a.txt"), entry(b"c.txt", 10, b"c.txt")];
    let plan = diff(&remote, Some(&local));
    assert_eq!(plan.len(), 1);
    assert_eq!(plan[0].path, b"c.txt".to_vec());
    assert_eq!(plan[0].digest, b"c.txt".to_vec());
    assert_eq!(plan[0].size, 10);
}

#[test]
fn absent_local_manifest_plans_the_full_remote_manifest() {
    let remote = vec![entry(b"d1", 1, b"a"), entry(b"d2", 2, b"b")];
    let plan = diff(&remote, None);
    assert_eq!(plan.len(), 2);
    for (p, r) in plan.iter().zip(remote.iter()) {
        assert_eq!(p.digest, r.digest);
        assert_eq!(p.path, r.path);
    }
}

#[test]
fn empty_local_manifest_plans_the_full_remote_manifest() {
    let remote = vec![entry(b"d1", 1, b"a")];
    let plan = diff(&remote, Some(&vec![]));
    assert_eq!(plan.len(), 1);
}

#[test]
fn a_manifest_diffed_against_itself_plans_nothing() {
    let m = vec![entry(b"d1", 1, b"a"), entry(b"d2", 2, b"b"), entry(b"d1", 1, b"c")];
    let plan = diff(&m, Some(&m));
    assert!(plan.is_empty());
}

#[test]
fn changed_digest_replans_the_path() {
    let local = vec![entry(b"oldhash", 5, b"a.txt")];
    let remote = vec![entry(b"newhash", 5, b"a.txt")];
    let plan = diff(&remote, Some(&local));
    assert_eq!(plan.len(), 1);
    assert_eq!(plan[0].digest, b"newhash".to_vec());
}

#[test]
fn locally_deleted_files_are_not_propagated() {
    // local has an extra file the remote lacks: deletion is a non-goal
    let local = vec![entry(b"d1", 1, b"kept"), entry(b"d9", 9, b"local-only")];
    let remote = vec![entry(b"d1", 1, b"kept")];
    let plan = diff(&remote, Some(&local));
    assert!(plan.is_empty());
}

#[test]
fn fetched_content_rediffs_to_an_empty_plan() {
    let chunk = 4u64;
    let files: Vec<(&[u8], &[u8])> = vec![
        (b"a.txt", b"hello"),
        (b"b.bin", b"0123456789"),
        (b"c", b""),
    ];
    // the serving side digests its tree
    let remote: Vec<ManifestEntry> = files
        .iter()
        .map(|(path, content)| ManifestEntry {
            digest: file_digest(content, chunk),
            size: content.len() as u64,
            path: path.to_vec(),
        })
        .collect();
    // a successful sync writes the same bytes at the same paths; the
    // client re-digests what it received
    let fetched = files.clone();
    let local: Vec<ManifestEntry> = fetched
        .iter()
        .map(|(path, content)| ManifestEntry {
            digest: file_digest(content, chunk),
            size: content.len() as u64,
            path: path.to_vec(),
        })
        .collect();
    assert!(diff(&remote, Some(&local)).is_empty());
}

#[test]
fn plan_keeps_remote_manifest_order() {
    let remote = vec![
        entry(b"d3", 3, b"third"),
        entry(b"d1", 1, b"first"),
        entry(b"d2", 2, b"second"),
    ];
    let plan = diff(&remote, None);
    let paths: Vec<&[u8]> = plan.iter().map(|e| e.path.as_slice()).collect();
    assert_eq!(paths, vec![&b"third"[..], b"first", b"second"]);
}

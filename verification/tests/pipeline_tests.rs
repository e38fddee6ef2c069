//! Tests of hashing, the cache store, the per-file policy, and the
//! collector's statistics.

use hashcache::hashing::sha1_hex_digest;
use hashcache::pipeline::{collect_stats, complete_candidate, plan_file};
use hashcache::{CacheStore, FileInfo, HashPlan, Progress, Statistics};

fn units(s: &str) -> Vec<u16> {
    s.encode_utf16().collect()
}

fn candidate(path: &str, size: u64) -> FileInfo {
    FileInfo {
        path: units(path),
        hash: None,
        modified: Some(1_600_000_000),
        size,
    }
}

#[test]
fn sha1_known_digests() {
    let abc: Vec<u8> = b"abc".to_vec();
    assert_eq!(sha1_hex_digest(&abc), "a9993e364706816aba3e25717850c26c9cd0d89d");
    let empty: Vec<u8> = Vec::new();
    assert_eq!(sha1_hex_digest(&empty), "da39a3ee5e6b4b0d3255bfef95601890afd80709");
}

#[test]
fn generate_hash_sets_only_the_hash() {
    let mut f = candidate("a.txt", 3);
    f.generate_hash(&b"abc".to_vec());
    assert_eq!(f.hash, Some("a9993e364706816aba3e25717850c26c9cd0d89d".to_owned()));
    assert_eq!(f.path, units("a.txt"));
    assert_eq!(f.size, 3);
    assert_eq!(f.modified, Some(1_600_000_000));
}

#[test]
fn cache_load_and_lookup() {
    let lines: Vec<String> = vec![
        "> 10 | None | aaaa | one.txt".to_owned(),
        "this line does not decode".to_owned(),
        "   20 bytes: bbbb two.txt".to_owned(),
        // A later record for the same path overrides the earlier one.
        "> 30 | 5 | cccc | one.txt".to_owned(),
    ];
    let store = CacheStore::load_from(&lines);

    let one = store.lookup(&units("one.txt")).unwrap();
    assert_eq!(one.size, 30);
    assert_eq!(one.hash, Some("cccc".to_owned()));
    assert_eq!(one.modified, Some(5));

    let two = store.lookup(&units("two.txt")).unwrap();
    assert_eq!(two.size, 20);
    assert_eq!(two.hash, Some("bbbb".to_owned()));

    assert!(store.lookup(&units("three.txt")).is_none());
}

#[test]
fn plan_cache_hit_reuses_hash() {
    let lines: Vec<String> = vec!["> 10 | None | aaaa | one.txt".to_owned()];
    let store = CacheStore::load_from(&lines);
    match plan_file(&store, &units("one.txt"), 10, true) {
        HashPlan::Reuse(h) => assert_eq!(h, "aaaa"),
        _ => panic!("expected the cached hash to be reused"),
    }
    let p = complete_candidate(candidate("one.txt", 10), HashPlan::Reuse("aaaa".to_owned()), None, Some(0));
    assert!(p.previously_known);
    assert_eq!(p.file.hash, Some("aaaa".to_owned()));
}

#[test]
fn plan_cache_miss_recomputes() {
    let lines: Vec<String> = vec![
        "> 10 | None | aaaa | one.txt".to_owned(),
        "> 7 | None | None | nohash.txt".to_owned(),
    ];
    let store = CacheStore::load_from(&lines);
    // Size mismatch: the file must be re-hashed, whatever the cached hash.
    assert!(matches!(plan_file(&store, &units("one.txt"), 11, true), HashPlan::Compute));
    // A cached record without a hash is no hit.
    assert!(matches!(plan_file(&store, &units("nohash.txt"), 7, true), HashPlan::Compute));
    // An unknown path is no hit.
    assert!(matches!(plan_file(&store, &units("new.txt"), 10, true), HashPlan::Compute));
    // With hashing disabled nothing is computed at all.
    assert!(matches!(plan_file(&store, &units("one.txt"), 10, false), HashPlan::Skip));

    let p = complete_candidate(candidate("one.txt", 11), HashPlan::Compute, Some(&b"xyz".to_vec()), Some(7));
    assert!(!p.previously_known);
    assert_eq!(p.file.hash, Some(sha1_hex_digest(&b"xyz".to_vec())));
    assert_eq!(p.bytes_per_second, Some(7));

    // An unreadable file yields a record with no hash, and the run goes on.
    let p = complete_candidate(candidate("one.txt", 11), HashPlan::Compute, None, None);
    assert!(!p.previously_known);
    assert_eq!(p.file.hash, None);

    let p = complete_candidate(candidate("one.txt", 10), HashPlan::Skip, None, None);
    assert!(!p.previously_known);
    assert_eq!(p.file.hash, None);
}

#[test]
fn statistics_record_counts() {
    let mut s = Statistics::new();
    s.record(100, false);
    s.record(50, true);
    s.record(7, false);
    assert_eq!(s.total_files, 3);
    assert_eq!(s.total_bytes, 157);
    assert_eq!(s.total_hashed_bytes, 107);
    assert_eq!(s.num_hashes_reused, 1);
}

#[test]
fn collect_stats_folds_the_whole_list() {
    let ps = vec![
        Progress { file: candidate("a", 10), previously_known: false, bytes_per_second: Some(5) },
        Progress { file: candidate("b", 20), previously_known: true, bytes_per_second: None },
        Progress { file: candidate("c", 30), previously_known: true, bytes_per_second: None },
    ];
    let s = collect_stats(&ps);
    assert_eq!(s.total_files, 3);
    assert_eq!(s.total_bytes, 60);
    assert_eq!(s.total_hashed_bytes, 10);
    assert_eq!(s.num_hashes_reused, 2);
}

/// Running the pipeline twice over an unmodified tree, feeding the first
/// run's output back as the second run's cache: the second run reuses every
/// hash and hashes zero bytes.
#[test]
fn second_run_reuses_everything() {
    let files: Vec<(&str, &[u8])> = vec![
        ("a.txt", b"alpha"),
        ("b.txt", b"beta"),
        ("dir/c.bin", b"\x00\x01\x02"),
    ];

    // First run: empty cache, everything is computed.
    let empty_cache = CacheStore::new();
    let mut first_out: Vec<String> = Vec::new();
    let mut first_progress: Vec<Progress> = Vec::new();
    for (path, content) in &files {
        let cand = candidate(path, content.len() as u64);
        let plan = plan_file(&empty_cache, &cand.path, cand.size, true);
        assert!(matches!(plan, HashPlan::Compute));
        let p = complete_candidate(cand, plan, Some(&content.to_vec()), None);
        first_out.push(p.file.to_line());
        first_progress.push(p);
    }
    let s1 = collect_stats(&first_progress);
    assert_eq!(s1.total_files, 3);
    assert_eq!(s1.num_hashes_reused, 0);
    assert_eq!(s1.total_hashed_bytes, 12);

    // Second run: the first run's output is the cache; nothing changed.
    let store = CacheStore::load_from(&first_out);
    let mut second_progress: Vec<Progress> = Vec::new();
    for (path, content) in &files {
        let cand = candidate(path, content.len() as u64);
        let plan = plan_file(&store, &cand.path, cand.size, true);
        assert!(matches!(plan, HashPlan::Reuse(_)));
        let p = complete_candidate(cand, plan, None, Some(0));
        second_progress.push(p);
    }
    let s2 = collect_stats(&second_progress);
    assert_eq!(s2.total_files, 3);
    assert_eq!(s2.num_hashes_reused, 3);
    assert_eq!(s2.total_hashed_bytes, 0);
    assert_eq!(s2.total_bytes, 12);

    // The reused hashes are exactly the first run's.
    for (i, p) in second_progress.iter().enumerate() {
        assert_eq!(p.file.hash, first_progress[i].file.hash);
        assert!(p.previously_known);
    }
}

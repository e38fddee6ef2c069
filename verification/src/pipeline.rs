//! The per-file policy of the hash pipeline and the collector's statistics.
//!
//! Workers decide for each candidate file whether a cached hash can be
//! reused, the content must be hashed, or hashing is disabled for the run;
//! the collector folds the resulting progress records into final
//! statistics.

use vstd::prelude::*;

use crate::cache::{load_map, map_of_records, CacheStore};
use crate::cache::lemma_reload_records;
use crate::codec::{encodable, encode_record, hash_field_ok};
use crate::hashing::sha1_hex;
use crate::record::{FileInfo, FileInfoV, Progress, ProgressV, Statistics, StatisticsV};

verus! {

// ---------------------------------------------------------------------------
// The cache-hit policy
// ---------------------------------------------------------------------------

/// The cache-hit policy: the cache holds a record for this exact path, that
/// record carries a hash, and its stored size equals the current size.
///
/// Size equality is deliberately treated as sufficient evidence of
/// non-modification: neither the modification time nor the content is
/// re-checked, so a content change that keeps the exact same byte size is
/// silently taken as unchanged. This is a known limitation of the policy,
/// preserved as designed, not a defect to be fixed here.
pub open spec fn cache_hit(db: Map<Seq<u16>, FileInfoV>, path: Seq<u16>, size: u64) -> bool {
    &&& db.contains_key(path)
    &&& db[path].hash is Some
    &&& db[path].size == size
}

/// What a worker must do for one candidate file.
pub enum HashPlan {
    /// The cached hash is adopted verbatim; no bytes of the file are read.
    Reuse(String),
    /// The file's full content must be hashed.
    Compute,
    /// Hashing is disabled for this run; the record stays hashless.
    Skip,
}

/// Decide, for one candidate file, whether the cached hash is reused, the
/// content must be hashed, or hashing is skipped for this run.
pub fn plan_file(store: &CacheStore, path: &Vec<u16>, size: u64, hashing_enabled: bool) -> (p:
    HashPlan)
    ensures
        !hashing_enabled ==> p is Skip,
        hashing_enabled && cache_hit(store@, path@, size) ==> (p matches HashPlan::Reuse(h)
            && h@ == store@[path@].hash->0),
        hashing_enabled && !cache_hit(store@, path@, size) ==> p is Compute,
{
    if !hashing_enabled {
        return HashPlan::Skip;
    }
    match store.lookup(path) {
        Some(rec) => {
            match &rec.hash {
                Some(h) => {
                    if rec.size == size {
                        HashPlan::Reuse(h.clone())
                    } else {
                        HashPlan::Compute
                    }
                },
                None => HashPlan::Compute,
            }
        },
        None => HashPlan::Compute,
    }
}

/// Assemble the progress record for one candidate, given the plan and, for
/// a compute plan, the file's content when it could be read (`None` there
/// means the file could not be opened or read: the record is emitted with
/// no hash and the run continues).
pub fn complete_candidate(
    cand: FileInfo,
    plan: HashPlan,
    content: Option<&Vec<u8>>,
    bytes_per_second: Option<u64>,
) -> (p: Progress)
    ensures
        p.file.path == cand.path,
        p.file.size == cand.size,
        p.file.modified == cand.modified,
        p.previously_known == (plan is Reuse),
        p.bytes_per_second == bytes_per_second,
        match plan {
            HashPlan::Reuse(h) => p.file.hash == Some(h),
            HashPlan::Compute => match content {
                Some(c) => p.file@.hash == Some(sha1_hex(c@)),
                None => p.file@.hash is None,
            },
            HashPlan::Skip => p.file@.hash is None,
        },
{
    let mut file = FileInfo { path: cand.path, hash: None, modified: cand.modified,
        size: cand.size };
    let previously_known: bool;
    match plan {
        HashPlan::Reuse(h) => {
            file.hash = Some(h);
            previously_known = true;
        },
        HashPlan::Compute => {
            match content {
                Some(c) => file.generate_hash(c),
                None => {},
            }
            previously_known = false;
        },
        HashPlan::Skip => {
            previously_known = false;
        },
    }
    Progress { file, previously_known, bytes_per_second }
}

// ---------------------------------------------------------------------------
// Statistics
// ---------------------------------------------------------------------------

/// The statistics a sequence of progress records folds into.
pub open spec fn stats_of(ps: Seq<ProgressV>) -> StatisticsV
    decreases ps.len(),
{
    if ps.len() == 0 {
        StatisticsV { total_files: 0, total_bytes: 0, total_hashed_bytes: 0, num_hashes_reused: 0 }
    } else {
        let prev = stats_of(ps.drop_last());
        let p = ps.last();
        StatisticsV {
            total_files: prev.total_files + 1,
            total_bytes: prev.total_bytes + p.file.size,
            total_hashed_bytes: prev.total_hashed_bytes + if p.previously_known {
                0
            } else {
                p.file.size as int
            },
            num_hashes_reused: prev.num_hashes_reused + if p.previously_known {
                1int
            } else {
                0
            },
        }
    }
}

/// Every counter is bounded by the number and sizes of the records seen.
pub proof fn lemma_stats_of_bounds(ps: Seq<ProgressV>)
    ensures
        stats_of(ps).total_files == ps.len(),
        0 <= stats_of(ps).total_bytes <= ps.len() * (u64::MAX as int),
        0 <= stats_of(ps).total_hashed_bytes <= stats_of(ps).total_bytes,
        0 <= stats_of(ps).num_hashes_reused <= ps.len(),
    decreases ps.len(),
{
    if ps.len() > 0 {
        lemma_stats_of_bounds(ps.drop_last());
        assert((ps.len() - 1) * (u64::MAX as int) + (u64::MAX as int) == ps.len() * (
        u64::MAX as int)) by {
            vstd::arithmetic::mul::lemma_mul_is_distributive_add_other_way(
                u64::MAX as int,
                ps.len() - 1,
                1,
            );
        }
    }
}

impl Statistics {
    /// The empty accumulator the collector starts from.
    pub fn new() -> (s: Statistics)
        ensures
            s.total_files == 0,
            s.total_bytes == 0,
            s.total_hashed_bytes == 0,
            s.num_hashes_reused == 0,
    {
        Statistics { total_files: 0, total_bytes: 0, total_hashed_bytes: 0, num_hashes_reused: 0 }
    }

    /// Account one completed record: every file counts toward the totals;
    /// a record whose hash was reused counts as reused, any other adds its
    /// size to the bytes actually hashed.
    pub fn record(&mut self, size: u64, previously_known: bool)
        requires
            old(self).total_files < u64::MAX,
            old(self).num_hashes_reused < u64::MAX,
            old(self).total_bytes + size <= u128::MAX,
            old(self).total_hashed_bytes + size <= u128::MAX,
        ensures
            final(self).total_files == old(self).total_files + 1,
            final(self).total_bytes == old(self).total_bytes + size,
            previously_known ==> final(self).total_hashed_bytes == old(self).total_hashed_bytes
                && final(self).num_hashes_reused == old(self).num_hashes_reused + 1,
            !previously_known ==> final(self).total_hashed_bytes == old(self).total_hashed_bytes
                + size && final(self).num_hashes_reused == old(self).num_hashes_reused,
    {
        self.total_files = self.total_files + 1;
        self.total_bytes = self.total_bytes + (size as u128);
        if previously_known {
            self.num_hashes_reused = self.num_hashes_reused + 1;
        } else {
            self.total_hashed_bytes = self.total_hashed_bytes + (size as u128);
        }
    }
}

/// Fold a completed-record list into final statistics, per `stats_of`.
pub fn collect_stats(ps: &Vec<Progress>) -> (s: Statistics)
    ensures
        s@ == stats_of(ps@.map_values(|p: Progress| p@)),
{
    let ghost psv = ps@.map_values(|p: Progress| p@);
    let n = ps.len();
    let mut s = Statistics::new();
    let mut i: usize = 0;
    proof {
        assert(psv.subrange(0, 0) =~= Seq::<ProgressV>::empty());
    }
    while i < n
        invariant
            n == ps@.len(),
            i <= n,
            psv == ps@.map_values(|p: Progress| p@),
            s@ == stats_of(psv.subrange(0, i as int)),
        decreases n - i,
    {
        let ghost pre = psv.subrange(0, i as int);
        let ghost cur = psv.subrange(0, i as int + 1);
        proof {
            lemma_stats_of_bounds(pre);
            assert(pre.len() * (u64::MAX as int) + (u64::MAX as int) <= u128::MAX as int) by {
                vstd::arithmetic::mul::lemma_mul_upper_bound(
                    pre.len() as int,
                    u64::MAX as int,
                    u64::MAX as int,
                    u64::MAX as int,
                );
                vstd::arithmetic::mul::lemma_mul_is_distributive_add_other_way(
                    u64::MAX as int,
                    pre.len() as int,
                    1,
                );
            }
            assert(cur.drop_last() =~= pre);
            assert(cur.last() == psv[i as int]);
        }
        let p = &ps[i];
        s.record(p.file.size, p.previously_known);
        i = i + 1;
    }
    proof {
        assert(psv.subrange(0, n as int) =~= psv);
    }
    s
}

// ---------------------------------------------------------------------------
// Idempotence of a repeated run
// ---------------------------------------------------------------------------

/// Loading the output of a completed run as the next run's cache makes
/// every unmodified candidate a cache hit, carrying that run's hash: every
/// record of the first run decodes back from its line, and each candidate
/// with the same path and size finds it.
pub proof fn lemma_second_run_all_hits(prev: Seq<FileInfoV>, cands: Seq<FileInfoV>)
    requires
        prev.len() == cands.len(),
        forall|i: int|
            0 <= i < prev.len() ==> (#[trigger] prev[i]).hash is Some && hash_field_ok(
                prev[i].hash->0,
            ),
        forall|i: int, j: int|
            0 <= i < j < prev.len() ==> (#[trigger] prev[i]).path != (#[trigger] prev[j]).path,
        forall|i: int|
            0 <= i < cands.len() ==> (#[trigger] cands[i]).path == prev[i].path && cands[i].size
                == prev[i].size,
    ensures
        forall|i: int|
            0 <= i < cands.len() ==> cache_hit(
                load_map(prev.map_values(|r: FileInfoV| encode_record(r))),
                (#[trigger] cands[i]).path,
                cands[i].size,
            ),
        forall|i: int|
            0 <= i < cands.len() ==> load_map(prev.map_values(|r: FileInfoV| encode_record(r)))[(
            #[trigger] cands[i]).path] == prev[i],
{
    let db = load_map(prev.map_values(|r: FileInfoV| encode_record(r)));
    assert(forall|i: int| 0 <= i < prev.len() ==> encodable(#[trigger] prev[i]));
    lemma_reload_records(prev);
    assert(db == map_of_records(prev));
    assert forall|i: int| 0 <= i < cands.len() implies cache_hit(
        db,
        (#[trigger] cands[i]).path,
        cands[i].size,
    ) && db[cands[i].path] == prev[i] by {
        assert(forall|k: int| i < k < prev.len() ==> (#[trigger] prev[k]).path != prev[i].path);
        crate::cache::lemma_map_of_records_get(prev, i);
    }
}

/// A run in which every record reused its cached hash re-reads nothing:
/// the reused count equals the file count and zero bytes were hashed.
pub proof fn lemma_stats_all_reused(ps: Seq<ProgressV>)
    requires
        forall|i: int| 0 <= i < ps.len() ==> (#[trigger] ps[i]).previously_known,
    ensures
        stats_of(ps).total_files == ps.len(),
        stats_of(ps).num_hashes_reused == ps.len(),
        stats_of(ps).total_hashed_bytes == 0,
    decreases ps.len(),
{
    if ps.len() > 0 {
        lemma_stats_all_reused(ps.drop_last());
    }
}

/// Idempotence of the pipeline. Take the records a completed run wrote
/// (all hashed, paths unique), reload their lines as the cache, and scan
/// the same unmodified tree: a worker marks a record previously-known
/// exactly on a cache hit, so if the second run's progress records set
/// `previously_known` per the policy, that run reuses every hash and
/// hashes zero bytes: `num_hashes_reused == total_files` and
/// `total_hashed_bytes == 0`.
pub proof fn lemma_idempotent_second_run(
    prev: Seq<FileInfoV>,
    cands: Seq<FileInfoV>,
    ps: Seq<ProgressV>,
)
    requires
        prev.len() == cands.len(),
        forall|i: int|
            0 <= i < prev.len() ==> (#[trigger] prev[i]).hash is Some && hash_field_ok(
                prev[i].hash->0,
            ),
        forall|i: int, j: int|
            0 <= i < j < prev.len() ==> (#[trigger] prev[i]).path != (#[trigger] prev[j]).path,
        forall|i: int|
            0 <= i < cands.len() ==> (#[trigger] cands[i]).path == prev[i].path && cands[i].size
                == prev[i].size,
        ps.len() == cands.len(),
        forall|i: int|
            0 <= i < ps.len() ==> (#[trigger] ps[i]).previously_known == cache_hit(
                load_map(prev.map_values(|r: FileInfoV| encode_record(r))),
                cands[i].path,
                cands[i].size,
            ),
    ensures
        stats_of(ps).total_files == ps.len(),
        stats_of(ps).num_hashes_reused == ps.len(),
        stats_of(ps).total_hashed_bytes == 0,
{
    lemma_second_run_all_hits(prev, cands);
    assert(forall|i: int| 0 <= i < ps.len() ==> (#[trigger] ps[i]).previously_known);
    lemma_stats_all_reused(ps);
}

} // verus!

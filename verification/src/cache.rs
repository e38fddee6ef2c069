//! The cache store: the prior run's records, keyed by path, loaded once
//! from the lines of a persisted file and read-only afterwards.

use vstd::prelude::*;

use crate::codec::{decode_record, encodable, encode_record, lemma_encode_decode_roundtrip};
use crate::record::{FileInfo, FileInfoV};

verus! {

/// The mapping a sequence of records induces when inserted in order: keyed
/// by exact path equality, later records overriding earlier ones.
pub open spec fn map_of_records(rs: Seq<FileInfoV>) -> Map<Seq<u16>, FileInfoV>
    decreases rs.len(),
{
    if rs.len() == 0 {
        Map::empty()
    } else {
        map_of_records(rs.drop_last()).insert(rs.last().path, rs.last())
    }
}

/// The records decoded from a sequence of lines, in order; lines that fail
/// to decode are skipped, not fatal.
pub open spec fn decoded_records(lines: Seq<Seq<char>>) -> Seq<FileInfoV>
    decreases lines.len(),
{
    if lines.len() == 0 {
        Seq::empty()
    } else {
        decoded_records(lines.drop_last()) + (match decode_record(lines.last()) {
            Some(r) => seq![r],
            None => Seq::empty(),
        })
    }
}

/// The mapping a persisted cache file holds.
pub open spec fn load_map(lines: Seq<Seq<char>>) -> Map<Seq<u16>, FileInfoV> {
    map_of_records(decoded_records(lines))
}

/// In-memory cache of the prior run's records. Lookup scans from the most
/// recent record backwards, so the newest record for a path wins, matching
/// the insertion order of `map_of_records`.
pub struct CacheStore {
    pub records: Vec<FileInfo>,
}

impl View for CacheStore {
    type V = Map<Seq<u16>, FileInfoV>;

    open spec fn view(&self) -> Map<Seq<u16>, FileInfoV> {
        map_of_records(self.records@.map_values(|r: FileInfo| r@))
    }
}

/// The record at the latest position for a path is the one the induced
/// mapping holds.
pub proof fn lemma_map_of_records_get(rs: Seq<FileInfoV>, j: int)
    requires
        0 <= j < rs.len(),
        forall|k: int| j < k < rs.len() ==> (#[trigger] rs[k]).path != rs[j].path,
    ensures
        map_of_records(rs).contains_key(rs[j].path),
        map_of_records(rs)[rs[j].path] == rs[j],
    decreases rs.len(),
{
    if j == rs.len() - 1 {
    } else {
        let head = rs.drop_last();
        assert(forall|k: int| j < k < head.len() ==> (#[trigger] head[k]).path != head[j].path);
        lemma_map_of_records_get(head, j);
        assert(rs.last().path != rs[j].path);
    }
}

/// A path that occurs in no record is absent from the induced mapping.
pub proof fn lemma_map_of_records_none(rs: Seq<FileInfoV>, p: Seq<u16>)
    requires
        forall|k: int| 0 <= k < rs.len() ==> (#[trigger] rs[k]).path != p,
    ensures
        !map_of_records(rs).contains_key(p),
    decreases rs.len(),
{
    if rs.len() > 0 {
        lemma_map_of_records_none(rs.drop_last(), p);
    }
}

/// Exact byte-for-byte equality of two paths.
pub fn path_eq(a: &Vec<u16>, b: &Vec<u16>) -> (r: bool)
    ensures
        r == (a@ == b@),
{
    let n = a.len();
    if n != b.len() {
        proof {
            assert(a@ != b@) by {
                if a@ == b@ {
                    assert(a@.len() == b@.len());
                }
            }
        }
        return false;
    }
    let mut i: usize = 0;
    while i < n
        invariant
            n == a@.len() == b@.len(),
            i <= n,
            forall|k: int| 0 <= k < i ==> a@[k] == b@[k],
        decreases n - i,
    {
        if a[i] != b[i] {
            proof {
                assert(a@ != b@) by {
                    if a@ == b@ {
                        assert(a@[i as int] == b@[i as int]);
                    }
                }
            }
            return false;
        }
        i = i + 1;
    }
    proof {
        assert(a@ =~= b@);
    }
    true
}

impl CacheStore {
    /// The empty store, used when no prior output is given.
    pub fn new() -> (store: CacheStore)
        ensures
            store@ == Map::<Seq<u16>, FileInfoV>::empty(),
    {
        CacheStore { records: Vec::new() }
    }

    /// Build the store from the lines of a previously persisted file.
    /// Lines that fail to decode are silently skipped; a later line for the
    /// same path overrides an earlier one.
    pub fn load_from(lines: &Vec<String>) -> (store: CacheStore)
        ensures
            store@ == load_map(lines@.map_values(|l: String| l@)),
    {
        let ghost lviews = lines@.map_values(|l: String| l@);
        let n = lines.len();
        let mut records: Vec<FileInfo> = Vec::new();
        let mut i: usize = 0;
        proof {
            assert(lviews.subrange(0, 0) =~= Seq::<Seq<char>>::empty());
            assert(records@.map_values(|r: FileInfo| r@) =~= decoded_records(
                lviews.subrange(0, 0),
            ));
        }
        while i < n
            invariant
                n == lines@.len(),
                i <= n,
                lviews == lines@.map_values(|l: String| l@),
                records@.map_values(|r: FileInfo| r@) == decoded_records(
                    lviews.subrange(0, i as int),
                ),
            decreases n - i,
        {
            let ghost pre = lviews.subrange(0, i as int);
            let ghost cur = lviews.subrange(0, i as int + 1);
            proof {
                assert(cur.drop_last() =~= pre);
                assert(cur.last() == lines@[i as int]@);
            }
            match FileInfo::try_from_line(lines[i].as_str()) {
                Ok(rec) => {
                    let ghost old_records = records@;
                    records.push(rec);
                    proof {
                        assert(records@.map_values(|r: FileInfo| r@) =~= old_records.map_values(
                            |r: FileInfo| r@,
                        ) + seq![rec@]);
                        assert(records@.map_values(|r: FileInfo| r@) =~= decoded_records(cur));
                    }
                },
                Err(_) => {
                    proof {
                        assert(records@.map_values(|r: FileInfo| r@) + Seq::<FileInfoV>::empty()
                            =~= records@.map_values(|r: FileInfo| r@));
                        assert(records@.map_values(|r: FileInfo| r@) =~= decoded_records(cur));
                    }
                },
            }
            i = i + 1;
        }
        proof {
            assert(lviews.subrange(0, n as int) =~= lviews);
        }
        CacheStore { records }
    }

    /// Look up the record last observed for a path; read-only.
    pub fn lookup(&self, path: &Vec<u16>) -> (r: Option<&FileInfo>)
        ensures
            match r {
                Some(rec) => self@.contains_key(path@) && rec@ == self@[path@],
                None => !self@.contains_key(path@),
            },
    {
        let ghost rsv = self.records@.map_values(|r: FileInfo| r@);
        let n = self.records.len();
        let mut i: usize = n;
        while i > 0
            invariant
                n == self.records@.len(),
                i <= n,
                rsv == self.records@.map_values(|r: FileInfo| r@),
                forall|k: int| i <= k < n ==> (#[trigger] rsv[k]).path != path@,
            decreases i,
        {
            i = i - 1;
            if path_eq(&self.records[i].path, path) {
                proof {
                    assert(rsv[i as int].path == path@);
                    lemma_map_of_records_get(rsv, i as int);
                }
                return Some(&self.records[i]);
            }
        }
        proof {
            lemma_map_of_records_none(rsv, path@);
        }
        None
    }
}

/// Re-reading the lines written for a run recovers exactly its records:
/// encoding then decoding is the identity, line by line.
pub proof fn lemma_reload_records(prev: Seq<FileInfoV>)
    requires
        forall|i: int| 0 <= i < prev.len() ==> encodable(#[trigger] prev[i]),
    ensures
        decoded_records(prev.map_values(|r: FileInfoV| encode_record(r))) == prev,
    decreases prev.len(),
{
    let lines = prev.map_values(|r: FileInfoV| encode_record(r));
    if prev.len() == 0 {
        assert(decoded_records(lines) =~= prev);
    } else {
        let head = prev.drop_last();
        assert(forall|i: int| 0 <= i < head.len() ==> encodable(#[trigger] head[i]));
        lemma_reload_records(head);
        assert(lines.drop_last() =~= head.map_values(|r: FileInfoV| encode_record(r)));
        assert(lines.last() == encode_record(prev.last()));
        lemma_encode_decode_roundtrip(prev.last());
        assert(decoded_records(lines) =~= prev);
    }
}

} // verus!

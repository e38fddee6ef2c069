//! The data model: file records, in-flight progress records, and the
//! aggregate statistics of a run.
//!
//! A path is carried as a sequence of 16-bit code units, never as validated
//! text: the serialization scheme must round-trip arbitrary platform paths
//! losslessly, including unpaired surrogate halves.

use vstd::prelude::*;

verus! {

/// Mathematical value of a [`FileInfo`].
pub struct FileInfoV {
    pub path: Seq<u16>,
    pub hash: Option<Seq<char>>,
    pub modified: Option<u64>,
    pub size: u64,
}

/// One inventoried file: path, optional content hash (lowercase hex),
/// optional modification time (seconds since the Unix epoch), and size in
/// bytes.
///
/// `hash` is `None` only when hashing was skipped or failed; `size` is always
/// present and is what cache-match decisions compare.
pub struct FileInfo {
    pub path: Vec<u16>,
    pub hash: Option<String>,
    pub modified: Option<u64>,
    pub size: u64,
}

impl View for FileInfo {
    type V = FileInfoV;

    open spec fn view(&self) -> FileInfoV {
        FileInfoV {
            path: self.path@,
            hash: match self.hash {
                Some(h) => Some(h@),
                None => None,
            },
            modified: self.modified,
            size: self.size,
        }
    }
}

/// Mathematical value of a [`Progress`].
pub struct ProgressV {
    pub file: FileInfoV,
    pub previously_known: bool,
    pub bytes_per_second: Option<u64>,
}

/// One completed record in flight from a worker to the collector: the
/// finished file record, whether its hash was reused from the cache, and an
/// optional whole-number throughput sample for the file just processed.
pub struct Progress {
    pub file: FileInfo,
    pub previously_known: bool,
    pub bytes_per_second: Option<u64>,
}

impl View for Progress {
    type V = ProgressV;

    open spec fn view(&self) -> ProgressV {
        ProgressV {
            file: self.file@,
            previously_known: self.previously_known,
            bytes_per_second: self.bytes_per_second,
        }
    }
}

/// Mathematical value of a [`Statistics`].
pub struct StatisticsV {
    pub total_files: int,
    pub total_bytes: int,
    pub total_hashed_bytes: int,
    pub num_hashes_reused: int,
}

/// Aggregate counters of one run, owned and mutated by the collector alone.
///
/// Byte totals are kept in 128 bits so that any list of records whose length
/// fits in memory can be accumulated without overflow.
pub struct Statistics {
    pub total_files: u64,
    pub total_bytes: u128,
    pub total_hashed_bytes: u128,
    pub num_hashes_reused: u64,
}

impl View for Statistics {
    type V = StatisticsV;

    open spec fn view(&self) -> StatisticsV {
        StatisticsV {
            total_files: self.total_files as int,
            total_bytes: self.total_bytes as int,
            total_hashed_bytes: self.total_hashed_bytes as int,
            num_hashes_reused: self.num_hashes_reused as int,
        }
    }
}

} // verus!

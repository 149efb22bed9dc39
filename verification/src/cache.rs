//! The cache manager: three tiers consulted in order — the in-memory record
//! set, the on-disk binary snapshot, and the source document itself. The
//! snapshot counts only while its modification time is at least the source's;
//! a stale or undecodable snapshot is bypassed, never deleted, and a fresh
//! parse schedules it to be overwritten.
//!
//! The manager itself never touches the filesystem: the caller reads the
//! source and snapshot into an [`FsState`] and performs the snapshot write
//! that a successful load hands back.

use vstd::prelude::*;
use crate::codec::{decode_records, encode_records, spec_decode, spec_encode};
use crate::parser::{IndexError, XmlParser, spec_index_of_text};
use crate::record::{PackageInfo, PackageInfoView, duplicate_records, records_view};

verus! {

/// The source document's text together with its modification time.
pub struct SourceDocument {
    pub text: String,
    pub modified_at: u64,
}

/// The on-disk snapshot's bytes together with its modification time.
pub struct Snapshot {
    pub bytes: Vec<u8>,
    pub modified_at: u64,
}

/// What the filesystem offered when the load began: either file may be
/// missing or unreadable.
pub struct FsState {
    pub source: Option<SourceDocument>,
    pub snapshot: Option<Snapshot>,
}

/// A successful load: the records, and the bytes to persist as the new
/// snapshot when a fresh parse produced them.
#[derive(Debug)]
pub struct LoadOutcome {
    pub records: Vec<PackageInfo>,
    pub snapshot_write: Option<Vec<u8>>,
}

#[verifier::ext_equal]
pub ghost struct SourceDocumentView {
    pub text: Seq<char>,
    pub modified_at: u64,
}

#[verifier::ext_equal]
pub ghost struct SnapshotView {
    pub bytes: Seq<u8>,
    pub modified_at: u64,
}

#[verifier::ext_equal]
pub ghost struct FsStateView {
    pub source: Option<SourceDocumentView>,
    pub snapshot: Option<SnapshotView>,
}

impl View for SourceDocument {
    type V = SourceDocumentView;

    open spec fn view(&self) -> SourceDocumentView {
        SourceDocumentView { text: self.text@, modified_at: self.modified_at }
    }
}

impl View for Snapshot {
    type V = SnapshotView;

    open spec fn view(&self) -> SnapshotView {
        SnapshotView { bytes: self.bytes@, modified_at: self.modified_at }
    }
}

impl View for FsState {
    type V = FsStateView;

    open spec fn view(&self) -> FsStateView {
        FsStateView {
            source: match self.source {
                Some(s) => Some(s@),
                None => None,
            },
            snapshot: match self.snapshot {
                Some(s) => Some(s@),
                None => None,
            },
        }
    }
}

/// The snapshot tier is fresh: it exists, and the source either cannot be
/// dated or is no newer than it.
pub open spec fn snapshot_fresh(fs: FsStateView) -> bool {
    match fs.snapshot {
        Some(sn) => match fs.source {
            Some(src) => sn.modified_at >= src.modified_at,
            None => true,
        },
        None => false,
    }
}

/// The snapshot tier answers the load: it is fresh and its bytes decode.
pub open spec fn snapshot_usable(fs: FsStateView) -> bool {
    snapshot_fresh(fs) && spec_decode(fs.snapshot->0.bytes) is Some
}

/// One load, as a function of the memory tier and the filesystem: the result
/// handed to the caller, the memory tier afterwards, and the snapshot bytes
/// to write, if any.
pub open spec fn spec_get_index(mem: Option<Seq<PackageInfoView>>, fs: FsStateView) -> (Result<
    Seq<PackageInfoView>,
    IndexError,
>, Option<Seq<PackageInfoView>>, Option<Seq<u8>>) {
    match mem {
        Some(m) => (Ok(m), mem, None),
        None => if snapshot_usable(fs) {
            let d = spec_decode(fs.snapshot->0.bytes)->0;
            (Ok(d), Some(d), None)
        } else {
            match fs.source {
                Some(src) => match spec_index_of_text(src.text) {
                    Some(rs) => (Ok(rs), Some(rs), Some(spec_encode(rs))),
                    None => (Err(IndexError::Malformed), mem, None),
                },
                None => (Err(IndexError::Unreadable), mem, None),
            }
        },
    }
}

/// The memory tier and the load sequence around it. A fresh manager holds
/// nothing; the first successful load fills it for the process's lifetime.
pub struct CacheManager {
    memory: Option<Vec<PackageInfo>>,
}

impl View for CacheManager {
    type V = Option<Seq<PackageInfoView>>;

    closed spec fn view(&self) -> Option<Seq<PackageInfoView>> {
        match self.memory {
            Some(v) => Some(records_view(v@)),
            None => None,
        }
    }
}

impl CacheManager {
    /// An empty cache: nothing in memory.
    pub fn new() -> (r: CacheManager)
        ensures
            r@ is None,
    {
        CacheManager { memory: None }
    }

    /// Load the record set through the tiers, per [`spec_get_index`]: memory
    /// first; then a fresh, decodable snapshot, which fills memory; else a
    /// full parse of the source, which fills memory and schedules the
    /// snapshot write. An error comes only when no tier can answer.
    pub fn get_index(&mut self, fs: &FsState) -> (r: Result<LoadOutcome, IndexError>)
        ensures
            ({
                let m = spec_get_index(old(self)@, fs@);
                &&& final(self)@ == m.1
                &&& match r {
                    Ok(out) => m.0 == Ok::<Seq<PackageInfoView>, IndexError>(
                        records_view(out.records@),
                    ) && (match out.snapshot_write {
                        Some(b) => m.2 == Some(b@),
                        None => m.2 is None,
                    }),
                    Err(e) => m.0 == Err::<Seq<PackageInfoView>, IndexError>(e) && m.2 is None,
                }
            }),
    {
        match &self.memory {
            Some(m) => {
                let records = duplicate_records(m);
                return Ok(LoadOutcome { records, snapshot_write: None });
            },
            None => {},
        }
        let decoded: Option<Vec<PackageInfo>> = match &fs.snapshot {
            Some(sn) => {
                let fresh = match &fs.source {
                    Some(src) => sn.modified_at >= src.modified_at,
                    None => true,
                };
                if fresh {
                    decode_records(&sn.bytes)
                } else {
                    None
                }
            },
            None => None,
        };
        proof {
            assert(decoded matches Some(d) ==> snapshot_usable(fs@));
        }
        match decoded {
            Some(d) => {
                self.memory = Some(duplicate_records(&d));
                return Ok(LoadOutcome { records: d, snapshot_write: None });
            },
            None => {
                proof {
                    assert(!snapshot_usable(fs@));
                }
            },
        }
        match &fs.source {
            Some(src) => match XmlParser::parse_pisi_index(src.text.as_str()) {
                Ok(records) => {
                    let bytes = encode_records(&records);
                    self.memory = Some(duplicate_records(&records));
                    Ok(LoadOutcome { records, snapshot_write: Some(bytes) })
                },
                Err(_) => Err(IndexError::Malformed),
            },
            None => Err(IndexError::Unreadable),
        }
    }
}

/// A stale snapshot is ignored and overwritten: when the memory tier is empty
/// and the source document is strictly newer than the snapshot, the load
/// parses the source afresh and hands back the new records' encoding to be
/// written over the snapshot, whatever the old snapshot held.
pub proof fn lemma_stale_snapshot_ignored(fs: FsStateView, rs: Seq<PackageInfoView>)
    requires
        fs.snapshot is Some,
        fs.source is Some,
        fs.source->0.modified_at > fs.snapshot->0.modified_at,
        spec_index_of_text(fs.source->0.text) == Some(rs),
    ensures
        spec_get_index(None, fs).0 == Ok::<Seq<PackageInfoView>, IndexError>(rs),
        spec_get_index(None, fs).1 == Some(rs),
        spec_get_index(None, fs).2 == Some(spec_encode(rs)),
{
    assert(!snapshot_fresh(fs));
}

} // verus!

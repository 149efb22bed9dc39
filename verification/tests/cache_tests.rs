use pisi_index::cache::{CacheManager, FsState, Snapshot, SourceDocument};
use pisi_index::codec::{decode_records, encode_records};
use pisi_index::parser::IndexError;
use pisi_index::record::{Dependency, PackageHistory, PackageInfo, Source};

fn record(name: &str, part_of: &str) -> PackageInfo {
    PackageInfo {
        name: name.to_string(),
        summary: String::new(),
        description: String::new(),
        version: "1.0".to_string(),
        release: 1,
        license: String::new(),
        part_of: part_of.to_string(),
        package_size: 0,
        installed_size: 0,
        package_format: "1.0".to_string(),
        distribution: "PisiLinux".to_string(),
        distribution_release: "2.0".to_string(),
        architecture: "x86_64".to_string(),
        source: None,
        history: Vec::new(),
        dependencies: Vec::new(),
    }
}

fn full_record() -> PackageInfo {
    PackageInfo {
        name: "çağrı-ü".to_string(),
        summary: "unicode ünïcode".to_string(),
        description: "d".to_string(),
        version: "2.4".to_string(),
        release: 3,
        license: "MIT".to_string(),
        part_of: "network.web".to_string(),
        package_size: u64::MAX,
        installed_size: 42,
        package_format: "1.2".to_string(),
        distribution: "P".to_string(),
        distribution_release: "9".to_string(),
        architecture: "i686".to_string(),
        source: Some(Source { name: "s".to_string(), homepage: String::new() }),
        history: vec![
            PackageHistory { version: "2.4".to_string(), release: 3, date: "2024".to_string() },
            PackageHistory { version: String::new(), release: 1, date: String::new() },
        ],
        dependencies: vec![
            Dependency { name: "dep".to_string(), version: None, release: None },
            Dependency {
                name: "dep2".to_string(),
                version: Some("0.1".to_string()),
                release: Some(u32::MAX),
            },
        ],
    }
}

#[test]
fn snapshot_round_trip() {
    let records = vec![record("bare", ""), full_record()];
    let bytes = encode_records(&records);
    let back = decode_records(&bytes).unwrap();
    assert_eq!(back, records);
}

#[test]
fn snapshot_round_trip_empty_set() {
    let records: Vec<PackageInfo> = Vec::new();
    let bytes = encode_records(&records);
    let back = decode_records(&bytes).unwrap();
    assert_eq!(back, records);
}

#[test]
fn truncated_snapshot_rejected() {
    let records = vec![record("x", "web")];
    let mut bytes = encode_records(&records);
    bytes.pop();
    assert_eq!(decode_records(&bytes), None);
    // trailing garbage is rejected too
    let mut padded = encode_records(&records);
    padded.push(0);
    assert_eq!(decode_records(&padded), None);
}

const DOC: &str = "<PISI>\
    <Package><Name>alpha</Name><Version>1.0</Version><PartOf>system.base</PartOf></Package>\
    <Package><Name>beta</Name><Version>2.0</Version></Package>\
</PISI>";

#[test]
fn stale_snapshot_triggers_fresh_parse_and_rewrite() {
    // the snapshot predates the source: it must be ignored and overwritten
    let old_records = vec![record("stale", "web")];
    let fs = FsState {
        source: Some(SourceDocument { text: DOC.to_string(), modified_at: 100 }),
        snapshot: Some(Snapshot { bytes: encode_records(&old_records), modified_at: 50 }),
    };
    let mut cache = CacheManager::new();
    let out = cache.get_index(&fs).unwrap();
    assert_eq!(out.records.len(), 2);
    assert_eq!(out.records[0].name, "alpha");
    assert_eq!(out.records[1].name, "beta");
    // the write-back holds the fresh records, not the stale ones
    let written = out.snapshot_write.expect("a fresh parse schedules a snapshot write");
    assert_eq!(decode_records(&written).unwrap(), out.records);
}

#[test]
fn fresh_snapshot_answers_without_parsing() {
    let cached = vec![record("from-snapshot", "office")];
    let fs = FsState {
        source: Some(SourceDocument { text: DOC.to_string(), modified_at: 50 }),
        snapshot: Some(Snapshot { bytes: encode_records(&cached), modified_at: 100 }),
    };
    let mut cache = CacheManager::new();
    let out = cache.get_index(&fs).unwrap();
    assert_eq!(out.records, cached);
    assert_eq!(out.snapshot_write, None);
}

#[test]
fn memory_tier_answers_second_load() {
    let fs = FsState {
        source: Some(SourceDocument { text: DOC.to_string(), modified_at: 100 }),
        snapshot: None,
    };
    let mut cache = CacheManager::new();
    let first = cache.get_index(&fs).unwrap();
    // even with the filesystem gone, the memory tier still answers
    let empty_fs = FsState { source: None, snapshot: None };
    let second = cache.get_index(&empty_fs).unwrap();
    assert_eq!(second.records, first.records);
    assert_eq!(second.snapshot_write, None);
}

#[test]
fn corrupt_snapshot_falls_through_to_source() {
    let fs = FsState {
        source: Some(SourceDocument { text: DOC.to_string(), modified_at: 50 }),
        snapshot: Some(Snapshot { bytes: vec![1, 2, 3], modified_at: 100 }),
    };
    let mut cache = CacheManager::new();
    let out = cache.get_index(&fs).unwrap();
    assert_eq!(out.records.len(), 2);
    assert!(out.snapshot_write.is_some());
}

#[test]
fn unreadable_source_without_cache_is_an_error() {
    let fs = FsState { source: None, snapshot: None };
    let mut cache = CacheManager::new();
    assert_eq!(cache.get_index(&fs).unwrap_err(), IndexError::Unreadable);
}

#[test]
fn malformed_source_without_cache_is_an_error() {
    let fs = FsState {
        source: Some(SourceDocument { text: "<PISI".to_string(), modified_at: 1 }),
        snapshot: None,
    };
    let mut cache = CacheManager::new();
    assert_eq!(cache.get_index(&fs).unwrap_err(), IndexError::Malformed);
}

#[test]
fn malformed_source_with_fresh_snapshot_still_loads() {
    let cached = vec![record("survivor", "web")];
    let fs = FsState {
        source: Some(SourceDocument { text: "<PISI".to_string(), modified_at: 1 }),
        snapshot: Some(Snapshot { bytes: encode_records(&cached), modified_at: 5 }),
    };
    let mut cache = CacheManager::new();
    let out = cache.get_index(&fs).unwrap();
    assert_eq!(out.records, cached);
}

use aim_collections::classify::classify;
use aim_collections::classify::classify_one;
use aim_collections::classify::BucketMap;
use aim_collections::classify::MapEntry;
use aim_collections::classify::PerfOutcome;
use aim_collections::classify::SkipReason;

fn split(aim_micro: u64, speed_micro: u64) -> PerfOutcome {
    PerfOutcome::Split { aim_micro, speed_micro }
}

fn entry(hash: &str, perf: PerfOutcome) -> MapEntry {
    MapEntry { hash: Some(hash.to_string()), perf }
}

#[test]
fn unparseable_map_is_skipped() {
    assert_eq!(classify_one(&PerfOutcome::ParseFailed, 10_000), Err(SkipReason::ParseFailed));
}

#[test]
fn non_standard_attributes_are_skipped() {
    assert_eq!(classify_one(&PerfOutcome::NonStandard, 10_000), Err(SkipReason::NonStandard));
}

#[test]
fn zero_performance_split_is_skipped() {
    // aim 0 and speed 0: no ratio exists, the map lands in no bucket
    assert_eq!(classify_one(&split(0, 0), 10_000), Err(SkipReason::ZeroPerformance));
}

#[test]
fn standard_split_gets_its_bucket_key() {
    assert_eq!(classify_one(&split(620_000, 380_000), 10_000), Ok(60));
}

#[test]
fn two_maps_in_the_62_to_68_range_share_bucket_60() {
    let entries = vec![
        entry("aaaa", split(620_000, 380_000)),
        entry("bbbb", split(680_000, 320_000)),
    ];
    let b = classify(entries, 10_000);
    assert_eq!(b.entries.len(), 1);
    assert_eq!(b.entries[0].key, 60);
    assert_eq!(
        b.entries[0].hashes,
        vec![Some("aaaa".to_string()), Some("bbbb".to_string())]
    );
}

#[test]
fn skipped_maps_land_in_no_bucket() {
    let entries = vec![
        entry("aaaa", PerfOutcome::ParseFailed),
        entry("bbbb", split(0, 0)),
        entry("cccc", PerfOutcome::NonStandard),
    ];
    let b = classify(entries, 10_000);
    assert_eq!(b.entries.len(), 0);
}

#[test]
fn buckets_come_out_in_ascending_key_order() {
    let entries = vec![
        entry("aaaa", split(700_000, 300_000)),
        entry("bbbb", split(100_000, 900_000)),
        entry("cccc", split(420_000, 580_000)),
    ];
    let b = classify(entries, 10_000);
    let keys: Vec<u32> = b.entries.iter().map(|e| e.key).collect();
    assert_eq!(keys, vec![10, 40, 70]);
}

#[test]
fn absent_hash_is_carried_into_the_bucket() {
    let entries = vec![MapEntry { hash: None, perf: split(1, 1) }];
    let b = classify(entries, 10_000);
    assert_eq!(b.entries.len(), 1);
    assert_eq!(b.entries[0].key, 50);
    assert_eq!(b.entries[0].hashes, vec![None]);
}

#[test]
fn insert_merges_equal_keys_and_keeps_order() {
    let mut b = BucketMap::new();
    b.insert(70, Some("x".to_string()));
    b.insert(10, Some("y".to_string()));
    b.insert(70, None);
    assert_eq!(b.entries.len(), 2);
    assert_eq!(b.entries[0].key, 10);
    assert_eq!(b.entries[0].hashes, vec![Some("y".to_string())]);
    assert_eq!(b.entries[1].key, 70);
    assert_eq!(b.entries[1].hashes, vec![Some("x".to_string()), None]);
}

use aim_collections::classify::classify;
use aim_collections::classify::BucketMap;
use aim_collections::classify::MapEntry;
use aim_collections::classify::PerfOutcome;
use aim_collections::config::Config;
use aim_collections::config::ConfigError;
use aim_collections::store::add_new_collections;
use aim_collections::store::remove_previous_collections;
use aim_collections::store::sync_collections;
use aim_collections::store::Collection;

fn named(name: &str, hashes: Vec<Option<String>>) -> Collection {
    Collection { name: Some(name.to_string()), beatmap_hashes: hashes }
}

fn bucket_of(key_percent: u32, hashes: Vec<Option<String>>) -> BucketMap {
    let mut b = BucketMap::new();
    let mut hs = hashes;
    hs.reverse();
    while let Some(h) = hs.pop() {
        b.insert(key_percent, h);
    }
    b
}

#[test]
fn stale_prefixed_entry_gone_user_entry_untouched() {
    // existing store: ["% 60% Aim / 40% Tapping", "My Favorites"]; new bucket 70
    let mut store = vec![
        named("% 60% Aim / 40% Tapping", vec![Some("old".to_string())]),
        named("My Favorites", vec![Some("fav".to_string()), None]),
    ];
    let buckets = bucket_of(70, vec![Some("new".to_string())]);
    let (removed, added) = sync_collections(&mut store, buckets, "% ");
    assert_eq!(removed, 1);
    assert_eq!(added, 1);
    assert_eq!(store.len(), 2);
    assert_eq!(store[0].name.as_deref(), Some("My Favorites"));
    assert_eq!(store[0].beatmap_hashes, vec![Some("fav".to_string()), None]);
    assert_eq!(store[1].name.as_deref(), Some("% 70% Aim / 30% Tapping"));
    assert_eq!(store[1].beatmap_hashes, vec![Some("new".to_string())]);
}

#[test]
fn removal_keeps_unprefixed_and_nameless_in_order() {
    let mut store = vec![
        named("% 10% Aim / 90% Tapping", vec![]),
        named("Practice", vec![]),
        Collection { name: None, beatmap_hashes: vec![None] },
        named("% 90% Aim / 10% Tapping", vec![]),
        named("%not quite the prefix", vec![]),
    ];
    let removed = remove_previous_collections(&mut store, "% ");
    assert_eq!(removed, 2);
    let names: Vec<Option<&str>> = store.iter().map(|c| c.name.as_deref()).collect();
    assert_eq!(names, vec![Some("Practice"), None, Some("%not quite the prefix")]);
    assert_eq!(store[1].beatmap_hashes, vec![None]);
}

#[test]
fn empty_prefix_removes_every_named_collection() {
    let mut store = vec![
        named("anything", vec![]),
        Collection { name: None, beatmap_hashes: vec![] },
    ];
    let removed = remove_previous_collections(&mut store, "");
    assert_eq!(removed, 1);
    assert_eq!(store.len(), 1);
    assert_eq!(store[0].name, None);
}

#[test]
fn one_collection_per_bucket_is_appended() {
    let mut store = vec![named("Keep", vec![])];
    let mut buckets = BucketMap::new();
    buckets.insert(60, Some("a".to_string()));
    buckets.insert(70, Some("b".to_string()));
    buckets.insert(60, Some("c".to_string()));
    let added = add_new_collections(&mut store, buckets, "% ");
    assert_eq!(added, 2);
    assert_eq!(store.len(), 3);
    assert_eq!(store[0].name.as_deref(), Some("Keep"));
    assert_eq!(store[1].name.as_deref(), Some("% 60% Aim / 40% Tapping"));
    assert_eq!(
        store[1].beatmap_hashes,
        vec![Some("a".to_string()), Some("c".to_string())]
    );
    assert_eq!(store[2].name.as_deref(), Some("% 70% Aim / 30% Tapping"));
    assert_eq!(store[2].beatmap_hashes, vec![Some("b".to_string())]);
}

fn run_pipeline(store: &mut Vec<Collection>, prefix: &str) {
    let entries = vec![
        MapEntry {
            hash: Some("aaaa".to_string()),
            perf: PerfOutcome::Split { aim_micro: 620_000, speed_micro: 380_000 },
        },
        MapEntry {
            hash: Some("bbbb".to_string()),
            perf: PerfOutcome::Split { aim_micro: 150_000, speed_micro: 850_000 },
        },
        MapEntry { hash: None, perf: PerfOutcome::ParseFailed },
    ];
    let buckets = classify(entries, 10_000);
    sync_collections(store, buckets, prefix);
}

#[test]
fn running_the_pipeline_twice_changes_nothing_more() {
    let mut store = vec![
        named("% 50% Aim / 50% Tapping", vec![Some("stale".to_string())]),
        named("My Favorites", vec![Some("fav".to_string())]),
    ];
    run_pipeline(&mut store, "% ");
    let after_once: Vec<(Option<String>, Vec<Option<String>>)> =
        store.iter().map(|c| (c.name.clone(), c.beatmap_hashes.clone())).collect();
    run_pipeline(&mut store, "% ");
    let after_twice: Vec<(Option<String>, Vec<Option<String>>)> =
        store.iter().map(|c| (c.name.clone(), c.beatmap_hashes.clone())).collect();
    assert_eq!(after_once, after_twice);
    assert_eq!(store[0].name.as_deref(), Some("My Favorites"));
    assert_eq!(store[1].name.as_deref(), Some("% 10% Aim / 90% Tapping"));
    assert_eq!(store[2].name.as_deref(), Some("% 60% Aim / 40% Tapping"));
}

#[test]
fn zero_precision_is_rejected() {
    assert_eq!(
        Config::new("% ".to_string(), 0, 4_000).unwrap_err(),
        ConfigError::ZeroPrecision
    );
}

#[test]
fn valid_config_is_accepted_as_given() {
    let c = Config::new("% ".to_string(), 10_000, 4_000).unwrap();
    assert_eq!(c.collection_prefix.as_str(), "% ");
    assert_eq!(c.ratio_precision_milli, 10_000);
    assert_eq!(c.min_star_milli, 4_000);
}

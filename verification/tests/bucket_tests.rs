use aim_collections::bucket::bucket_key;

#[test]
fn ratio_62_percent_precision_10_lands_in_60() {
    // aim 0.62 of the total: 62% snaps down to 60 with precision 10.0
    assert_eq!(bucket_key(620_000, 380_000, 10_000), 60);
}

#[test]
fn ratio_68_percent_precision_10_lands_in_60() {
    assert_eq!(bucket_key(680_000, 320_000, 10_000), 60);
}

#[test]
fn ratio_70_percent_precision_10_lands_in_70() {
    assert_eq!(bucket_key(700_000, 300_000, 10_000), 70);
}

#[test]
fn zero_aim_lands_in_0() {
    assert_eq!(bucket_key(0, 123_456, 10_000), 0);
}

#[test]
fn zero_speed_lands_in_100() {
    assert_eq!(bucket_key(123_456, 0, 10_000), 100);
}

#[test]
fn precision_5_splits_finer() {
    // 62% with precision 5.0: floor(62 / 5) * 5 = 60
    assert_eq!(bucket_key(620_000, 380_000, 5_000), 60);
    // 66% with precision 5.0: floor(66 / 5) * 5 = 65
    assert_eq!(bucket_key(660_000, 340_000, 5_000), 65);
}

#[test]
fn fractional_precision_key_truncates_to_integer() {
    // 100% with precision 3.0: floor(100 / 3) * 3 = 99
    assert_eq!(bucket_key(5, 0, 3_000), 99);
    // 50% with precision 0.001: snaps to 50.000, key 50
    assert_eq!(bucket_key(1, 1, 1), 50);
}

#[test]
fn key_is_multiple_of_precision_and_below_ratio() {
    // key = floor(r / p) * p: a multiple of p with key <= r < key + p
    for (aim, speed) in [(1u64, 999u64), (399, 601), (500, 500), (999, 1)] {
        let key = u64::from(bucket_key(aim, speed, 10_000));
        assert_eq!(key % 10, 0);
        let r_times_total = 100 * aim; // r = 100*aim/(aim+speed)
        let total = aim + speed;
        assert!(key * total <= r_times_total);
        assert!(r_times_total < (key + 10) * total);
    }
}

#[test]
fn ratio_39_9_percent_precision_10_lands_in_30() {
    assert_eq!(bucket_key(399_000, 601_000, 10_000), 30);
}

use aim_collections::text::collection_name;
use aim_collections::text::str_has_prefix;
use aim_collections::text::u32_dec;

#[test]
fn decimal_rendering() {
    assert_eq!(u32_dec(0).as_str(), "0");
    assert_eq!(u32_dec(7).as_str(), "7");
    assert_eq!(u32_dec(10).as_str(), "10");
    assert_eq!(u32_dec(60).as_str(), "60");
    assert_eq!(u32_dec(100).as_str(), "100");
    assert_eq!(u32_dec(4_294_967_295).as_str(), "4294967295");
}

#[test]
fn name_of_bucket_60() {
    assert_eq!(collection_name("% ", 60).as_str(), "% 60% Aim / 40% Tapping");
}

#[test]
fn name_of_bucket_0_and_100() {
    assert_eq!(collection_name("% ", 0).as_str(), "% 0% Aim / 100% Tapping");
    assert_eq!(collection_name("% ", 100).as_str(), "% 100% Aim / 0% Tapping");
}

#[test]
fn name_with_empty_prefix() {
    assert_eq!(collection_name("", 70).as_str(), "70% Aim / 30% Tapping");
}

#[test]
fn prefix_detection() {
    assert!(str_has_prefix("% 60% Aim / 40% Tapping", "% "));
    assert!(!str_has_prefix("My Favorites", "% "));
    assert!(str_has_prefix("anything", ""));
    assert!(!str_has_prefix("ab", "abc"));
    assert!(str_has_prefix("abc", "abc"));
    assert!(!str_has_prefix("a% b", "% "));
}

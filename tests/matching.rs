use penumbra_installer::pattern::{
    apks_to_install, matches_pattern, matches_priority_pattern, sort_apks_by_priority,
};

fn names(v: &[&str]) -> Vec<String> {
    v.iter().map(|s| s.to_string()).collect()
}

#[test]
fn matcher_examples() {
    for matches in [matches_pattern, matches_priority_pattern] {
        assert!(matches("app-debug.apk", "*debug*"));
        assert!(matches("test.apk", "*.apk"));
        assert!(!matches("test.txt", "*.apk"));
        assert!(matches("anything", "*"));
    }
}

#[test]
fn asset_matching_is_case_sensitive() {
    assert!(!matches_pattern("APP-DEBUG.APK", "*debug*"));
    assert!(!matches_pattern("Test.apk", "test.apk"));
    assert!(matches_pattern("app-release.apk", "app*"));
    assert!(matches_pattern("app-release.apk", "app*.apk"));
    assert!(!matches_pattern("lib-release.apk", "app*.apk"));
    assert!(matches_pattern("exact.apk", "exact.apk"));
    assert!(!matches_pattern("a*b*c", "*a*b"));
    assert!(matches_pattern("a*b*c", "a*b*c"));
}

#[test]
fn apk_matching_ignores_case() {
    assert!(matches_priority_pattern("APP-DEBUG.APK", "*debug*"));
    assert!(matches_priority_pattern("Bridge.APK", "bridge*"));
    assert!(matches_priority_pattern("Test.apk", "test.APK"));
    assert!(matches_priority_pattern("x.APK", "*.apk"));
    assert!(!matches_priority_pattern("test.apk", "other.apk"));
}

#[test]
fn priority_ordering_example() {
    // `*a*` also matches `b.apk` through its extension, so b.apk joins the
    // second group ahead of a.apk, in discovery order.
    let sorted = sort_apks_by_priority(&names(&["b.apk", "a.apk", "c.apk"]), &names(&["*c*", "*a*"]));
    assert_eq!(sorted, names(&["c.apk", "b.apk", "a.apk"]));
    let sorted = sort_apks_by_priority(&names(&["b.apk", "a.apk", "c.apk"]), &names(&["c*", "a*"]));
    assert_eq!(sorted, names(&["c.apk", "a.apk", "b.apk"]));
}

#[test]
fn priority_keeps_discovery_order_within_groups() {
    let sorted = sort_apks_by_priority(
        &names(&["z-bridge.apk", "app.apk", "a-bridge.apk", "core.apk"]),
        &names(&["*bridge*", "*core*"]),
    );
    assert_eq!(sorted, names(&["z-bridge.apk", "a-bridge.apk", "core.apk", "app.apk"]));
}

#[test]
fn each_file_goes_to_its_first_pattern() {
    let sorted = sort_apks_by_priority(&names(&["ab.apk", "b.apk"]), &names(&["*b*", "*a*"]));
    assert_eq!(sorted, names(&["ab.apk", "b.apk"]));
}

#[test]
fn excluded_apks_are_dropped_before_ordering() {
    let got = apks_to_install(
        &names(&["app-debug.apk", "app-release.apk", "core.apk"]),
        &names(&["*core*"]),
        &names(&["*DEBUG*"]),
    );
    assert_eq!(got, names(&["core.apk", "app-release.apk"]));
}

#[test]
fn empty_staging_gives_nothing_to_install() {
    assert!(apks_to_install(&[], &names(&["*"]), &[]).is_empty());
}

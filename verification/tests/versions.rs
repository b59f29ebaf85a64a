use std::cmp::Ordering;

use makefile_checker::version::{
    canonicalize_prerelease, classify_format, compare_versions, is_prerelease_tag, left_out,
    newer_order, normal_order, normalize_canonical, normalize_version, version_cmp,
    version_format_class, version_order, versions_format_incompatible, with_marker,
};

#[test]
fn orders_mirror_each_other() {
    for (a, b) in [("1.2.3", "1.10.0"), ("2.0", "2.0.0"), ("1.0-rc1", "1.0"), ("x", "1")] {
        assert_eq!(version_order(a, b), -version_order(b, a));
    }
    assert_eq!(version_order("1.2.3", "1.10.0"), -1);
    assert_eq!(version_order("2.0", "2.0.0"), 0);
    assert_eq!(version_order("1.0", "1.0-rc1"), 1);
}

#[test]
fn never_both_outdated() {
    for (a, b) in [("1.2.3", "1.10.0"), ("2020.01", "2021.02"), ("1.0", "1.0"), ("1", "abc")] {
        assert!(!(compare_versions(a, b) && compare_versions(b, a)));
    }
    assert!(compare_versions("1.2.3", "1.10.0"));
}

#[test]
fn other_formats_are_never_outdated() {
    assert!(versions_format_incompatible("1.2.3", "2024-01-01"));
    assert!(!compare_versions("1.2.3", "2024-01-01"));
    assert!(!compare_versions("2024-01-01", "1.2.3"));
}

#[test]
fn numbers_decide() {
    assert_eq!(version_cmp("1.9", "1.10"), Ordering::Less);
    assert_eq!(version_cmp("3.0.0", "2.99.99"), Ordering::Greater);
    assert_eq!(version_cmp("1.2.3.4", "1.2.3.5"), Ordering::Less);
    assert_eq!(version_cmp("1.2.3.10", "1.2.3.9"), Ordering::Greater);
    assert_eq!(version_cmp("1.2.3.4", "1.2.3.4.0"), Ordering::Equal);
    assert_eq!(version_cmp("1.2.3.1", "1.2.3"), Ordering::Greater);
    assert_eq!(version_cmp("1.2.4", "1.2.3.9"), Ordering::Greater);
    // they decide before a marker does
    assert_eq!(version_cmp("1.2.3.5-rc1", "1.2.3.4"), Ordering::Greater);
    assert_eq!(version_cmp("1.2.3.5-rc1", "1.2.3.5"), Ordering::Less);
    assert!(compare_versions("1.2.3.4", "1.2.3.5"));
    assert!(!compare_versions("1.2.3.5", "1.2.3.4"));
    assert!(!compare_versions("1.2.3.5", "1.2.3.5"));
    assert_eq!(newer_order("1.2.3.5", "1.2.3.4"), 1);
    assert_eq!(newer_order("1.2b", "1.1"), 1);
}

#[test]
fn a_keyword_may_stand_out_behind_one_that_does_not() {
    assert!(is_prerelease_tag("arch-1.0-rc1"));
    assert!(!is_prerelease_tag("arch-1.0"));
    assert!(is_prerelease_tag("research-2.0-beta"));
    assert!(left_out("v1.0-rc1", false));
    assert!(!left_out("v1.0-rc1", true));
    assert!(!left_out("v1.0", false));
}

#[test]
fn details_keep_the_format() {
    for (v, class) in [("0123456789abcdef", 0), ("2024-01-02", 1), ("1.2.3", 2), ("main", 3), ("", 3)] {
        assert_eq!(version_format_class(v), class);
        assert_eq!(version_format_class(&format!("{} ({})", v, "0123abcd")), class);
        assert_eq!(version_format_class(&format!("{} ({})", v, "٣提交")), class);
    }
}

#[test]
fn prereleases_are_older_than_their_release() {
    for (pre, release) in [
        ("3.0.0_beta1", "3.0.0"),
        ("v3.0.0-RC.2", "3.0.0"),
        ("4.44nightly", "4.44"),
        ("2-alpha", "2"),
        ("1.2.3.4-rc1", "1.2.3.4"),
        ("1.0--dev", "1.0"),
    ] {
        assert_eq!(version_order(pre, release), -1);
        assert_eq!(version_order(release, pre), 1);
        assert!(compare_versions(pre, release));
        assert!(!compare_versions(release, pre));
    }
}

#[test]
fn canonical_forms_are_final() {
    for v in ["1.0_rc2", "3.0.0_beta1", "v2-Alpha", "4.44nightly", "1.2preview3", "1..pre-_.7", "rc"] {
        let once = canonicalize_prerelease(v);
        assert_ne!(once, v);
        assert_eq!(canonicalize_prerelease(&once), once);
    }
    assert_eq!(canonicalize_prerelease("1.2preview3"), "1.2.0-pre.0");
    assert_eq!(canonicalize_prerelease("1.0--RC-_.07"), "1.0.0-rc.7");
    for v in ["1.2.3", "master", "2024-01-02", ""] {
        assert_eq!(canonicalize_prerelease(v), v);
    }
}

#[test]
fn numbers_too_large_are_zero() {
    assert_eq!(version_cmp("99999999999999999999", "1"), Ordering::Less);
    assert_eq!(normal_order("99999999999999999999.0.0", "1.0.0"), -1);
}

#[test]
fn versions_that_are_not_semantic_compare_by_parts() {
    assert_eq!(normal_order("1.02.0", "1.1.0"), 1);
    assert_eq!(normal_order("1.02.0", "1.2"), 0);
    assert_eq!(normal_order("1.2.0", "1.2.0"), 0);
}

#[test]
fn normal_forms() {
    assert_eq!(normalize_version("v1"), "1.0.0");
    assert_eq!(normalize_version("1.2"), "1.2.0");
    assert_eq!(normalize_version("1.2p1.3x.4"), "1.2.3");
    assert_eq!(normalize_version("CRYPTOPP_8_9_0"), "8.9.0");
    assert_eq!(normalize_version("1.0_rc2"), "1.0.0-rc.2");
    assert_eq!(normalize_canonical("1.x.3"), "1.0.3");
    assert_eq!(normalize_canonical("a_b"), "a_b.0.0");
}

#[test]
fn markers_in_canonical_form() {
    assert_eq!(canonicalize_prerelease("4.44nightly"), "4.44.0-nightly.0");
    assert_eq!(canonicalize_prerelease("2.0.0_alpha"), "2.0.0-alpha.0");
    assert_eq!(canonicalize_prerelease("1.0.0-dev"), "1.0.0-dev.0");
    assert_eq!(canonicalize_prerelease("1.0.0-RC2"), "1.0.0-rc.2");
    assert_eq!(canonicalize_prerelease("1.2.3"), "1.2.3");
    assert_eq!(with_marker("1.2", "rc", "7"), "1.2.0-rc.7");
    assert_eq!(with_marker("1.2.3", "beta", ""), "1.2.3-beta.0");
}

#[test]
fn prerelease_words() {
    assert!(is_prerelease_tag("1.0-RC1"));
    assert!(is_prerelease_tag("v2.0.0_ALPHA"));
    assert!(!is_prerelease_tag("1.0.0"));
    assert!(!is_prerelease_tag("orchard"));
}

#[test]
fn formats() {
    assert_eq!(version_format_class("0123456789ab"), 0);
    assert_eq!(version_format_class("0123456789a"), 2);
    assert_eq!(version_format_class("0123456789AB"), 2);
    assert_eq!(version_format_class("2024-01-02"), 1);
    assert_eq!(version_format_class("20240102"), 1);
    assert_eq!(version_format_class("2024.01"), 1);
    assert_eq!(version_format_class("2100.01"), 2);
    assert_eq!(version_format_class("v1.2"), 2);
    assert_eq!(version_format_class("1.2 (0123abcd)"), 2);
    assert_eq!(version_format_class("abc"), 3);
    assert_eq!(version_format_class(""), 3);
    assert_eq!(classify_format("2024.01", false, false, true), 1);
    assert_eq!(classify_format("1.5", false, false, true), 2);
    assert_eq!(classify_format("1.5", true, true, true), 0);
}

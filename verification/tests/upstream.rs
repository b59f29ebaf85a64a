use std::cmp::Ordering;

use makefile_checker::config::PkgRule;
use makefile_checker::github::from_tags;
use makefile_checker::makefile_parser::{
    parse_makefile, ParsedMakefile, SourceType, TagTemplate,
};
use makefile_checker::tags::{
    extract_version_from_tag, find_best_tag, tag_write_fields, GithubTag, GithubTagCommit,
};
use makefile_checker::upstream::{apply_rule, UpstreamInfo};
use makefile_checker::vars::VarMap;
use makefile_checker::version::{
    canonicalize_prerelease, compare_versions, is_prerelease_tag, version_cmp,
    version_format_class, versions_format_incompatible,
};

fn make_parsed(current: &str) -> ParsedMakefile {
    ParsedMakefile {
        path: "/tmp/Makefile".to_string(),
        pkg_name: "testpkg".to_string(),
        pkg_version: current.to_string(),
        pkg_release: None,
        source_url: None,
        source_urls: vec![],
        source_file: None,
        pkg_hash: None,
        pkg_source_date: None,
        pkg_source_version: None,
        source_type: SourceType::Unknown,
        raw_vars: VarMap::new(),
    }
}

fn make_info(current: &str, latest: &str) -> UpstreamInfo {
    UpstreamInfo {
        pkg_name: "testpkg".to_string(),
        current_version: current.to_string(),
        latest_version: Some(latest.to_string()),
        latest_tag: None,
        latest_commit: None,
        upstream_commit: None,
        latest_hash_sha256: None,
        is_outdated: Some(compare_versions(current, latest)),
        upstream_url: None,
        check_error: None,
        source_backend: "test".to_string(),
        hash_mismatch: None,
        write_pkg_version: Some(latest.to_string()),
        write_pkg_source_version: None,
        write_pkg_source_date: None,
            format_mismatch: false,
            is_newer: false,
    }
}

// ── compare_versions ─────────────────────────────────────────────────

#[test]
fn test_compare_newer() {
    assert!(compare_versions("1.0.0", "1.0.1"));
    assert!(compare_versions("1.0.0", "2.0.0"));
    assert!(compare_versions("1.9.9", "2.0.0"));
    assert!(compare_versions("0.9", "1.0"));
}

#[test]
fn test_compare_same() {
    assert!(!compare_versions("1.0.0", "1.0.0"));
    assert!(!compare_versions("2.5", "2.5"));
}

#[test]
fn test_compare_older() {
    assert!(!compare_versions("2.0.0", "1.9.9"));
    assert!(!compare_versions("1.0.1", "1.0.0"));
}

#[test]
fn test_version_cmp_ordering() {
    assert_eq!(version_cmp("1.0.0", "1.0.1"), Ordering::Less);
    assert_eq!(version_cmp("1.0.1", "1.0.0"), Ordering::Greater);
    assert_eq!(version_cmp("1.0.0", "1.0.0"), Ordering::Equal);
    assert_eq!(version_cmp("10.0", "9.9"), Ordering::Greater);
}

// ── is_prerelease_tag ─────────────────────────────────────────────────

#[test]
fn test_prerelease_detected() {
    assert!(is_prerelease_tag("1.0.0-rc1"));
    assert!(is_prerelease_tag("v2.0.0-alpha"));
    assert!(is_prerelease_tag("3.0.0-beta2"));
    assert!(is_prerelease_tag("1.0.0-dev"));
    assert!(is_prerelease_tag("1.0.0-nightly"));
    assert!(is_prerelease_tag("1.0.0.pre"));
}

#[test]
fn test_prerelease_not_detected() {
    assert!(!is_prerelease_tag("1.0.0"));
    assert!(!is_prerelease_tag("v2.5.3"));
    assert!(!is_prerelease_tag("20240101"));
    assert!(!is_prerelease_tag("2.38.1"));
}

// ── apply_rule ────────────────────────────────────────────────────────

#[test]
fn test_apply_rule_strip_prefix() {
    let parsed = make_parsed("1.2.3");
    let mut info = make_info("1.2.3", "release-1.2.4");
    let rule = PkgRule {
        strip_prefix: Some("release-".to_string()),
        ..Default::default()
    };
    apply_rule(&mut info, &rule, &parsed);
    assert_eq!(info.latest_version.as_deref(), Some("1.2.4"));
}

#[test]
fn test_apply_rule_strip_suffix() {
    let parsed = make_parsed("1.2.3");
    let mut info = make_info("1.2.3", "1.2.4-stable");
    let rule = PkgRule {
        strip_suffix: Some("-stable".to_string()),
        ..Default::default()
    };
    apply_rule(&mut info, &rule, &parsed);
    assert_eq!(info.latest_version.as_deref(), Some("1.2.4"));
}

#[test]
fn test_apply_rule_prerelease_filtered() {
    let parsed = make_parsed("1.2.3");
    let mut info = make_info("1.2.3", "1.3.0-rc1");
    let rule = PkgRule::default(); // include_prerelease = false
    apply_rule(&mut info, &rule, &parsed);
    assert!(info.latest_version.is_none());
    assert!(info.check_error.as_deref().unwrap_or("").contains("pre-release"));
}

#[test]
fn test_apply_rule_prerelease_allowed() {
    let parsed = make_parsed("1.2.3");
    let mut info = make_info("1.2.3", "1.3.0-rc1");
    let rule = PkgRule { include_prerelease: true, ..Default::default() };
    apply_rule(&mut info, &rule, &parsed);
    assert_eq!(info.latest_version.as_deref(), Some("1.3.0-rc1"));
}

#[test]
fn test_apply_rule_ignore_regex() {
    let parsed = make_parsed("1.2.3");
    let mut info = make_info("1.2.3", "2.0.0");
    let rule = PkgRule {
        ignore_regex: vec!["^2\\..*".to_string()],
        ..Default::default()
    };
    apply_rule(&mut info, &rule, &parsed);
    assert!(info.latest_version.is_none());
    assert!(info.check_error.as_deref().unwrap_or("").contains("ignore_regex"));
}

#[test]
fn test_apply_rule_min_version() {
    let parsed = make_parsed("1.2.3");
    let mut info = make_info("1.2.3", "1.0.0");
    let rule = PkgRule {
        min_version: Some("2.0.0".to_string()),
        ..Default::default()
    };
    apply_rule(&mut info, &rule, &parsed);
    assert!(info.latest_version.is_none());
    assert!(info.check_error.as_deref().unwrap_or("").contains("min"));
}

#[test]
fn test_apply_rule_max_version() {
    let parsed = make_parsed("1.2.3");
    let mut info = make_info("1.2.3", "5.0.0");
    let rule = PkgRule {
        max_version: Some("3.0.0".to_string()),
        ..Default::default()
    };
    apply_rule(&mut info, &rule, &parsed);
    assert!(info.latest_version.is_none());
    assert!(info.check_error.as_deref().unwrap_or("").contains("max"));
}

#[test]
fn test_apply_rule_passthrough() {
    let parsed = make_parsed("1.2.3");
    let mut info = make_info("1.2.3", "1.2.4");
    let rule = PkgRule::default();
    apply_rule(&mut info, &rule, &parsed);
    // 1.2.4 > 1.2.3, should remain and be marked outdated
    assert_eq!(info.latest_version.as_deref(), Some("1.2.4"));
    assert_eq!(info.is_outdated, Some(true));
}

// ── canonicalize_prerelease ───────────────────────────────────────────

#[test]
fn test_canonicalize_openwrt_beta() {
    // OpenWrt uses _beta to avoid - in version strings
    assert_eq!(canonicalize_prerelease("3.0.0_beta1"), "3.0.0-beta.1");
    assert_eq!(canonicalize_prerelease("3.0.0_beta"), "3.0.0-beta.0");
}

#[test]
fn test_canonicalize_npm_beta() {
    // NPM uses -beta. notation
    assert_eq!(canonicalize_prerelease("3.0.0-beta.1"), "3.0.0-beta.1");
}

#[test]
fn test_canonicalize_rc() {
    assert_eq!(canonicalize_prerelease("1.0.0_rc2"), "1.0.0-rc.2");
    assert_eq!(canonicalize_prerelease("1.0.0-rc1"), "1.0.0-rc.1");
    assert_eq!(canonicalize_prerelease("1.0.0.rc3"), "1.0.0-rc.3");
}

#[test]
fn test_canonicalize_stable_unchanged() {
    assert_eq!(canonicalize_prerelease("1.2.3"), "1.2.3");
    assert_eq!(canonicalize_prerelease("3.0.0"), "3.0.0");
    assert_eq!(canonicalize_prerelease("20240101"), "20240101");
}

// ── cross-format equivalence ─────────────────────────────────────────

#[test]
fn test_modclean_equivalence() {
    // Core case: OpenWrt "3.0.0_beta1" == NPM "3.0.0-beta.1"
    // compare_versions(current, latest) returns true only if latest > current
    assert!(!compare_versions("3.0.0_beta1", "3.0.0-beta.1"),
        "3.0.0_beta1 and 3.0.0-beta.1 should be equal (not outdated)");
    assert!(!compare_versions("3.0.0-beta.1", "3.0.0_beta1"),
        "reverse should also be equal");
}

#[test]
fn test_prerelease_older_than_stable() {
    // beta < stable release
    assert!(compare_versions("3.0.0-beta.1", "3.0.0"),
        "stable 3.0.0 should be newer than beta");
    assert!(compare_versions("3.0.0_beta1", "3.0.0"),
        "stable 3.0.0 should be newer than OpenWrt beta format");
}

#[test]
fn test_prerelease_ordering() {
    // alpha < beta < rc < stable
    assert!(compare_versions("1.0.0-alpha.1", "1.0.0-beta.1"));
    assert!(compare_versions("1.0.0-beta.1", "1.0.0-rc.1"));
    assert!(compare_versions("1.0.0-rc.1", "1.0.0"));
    // beta.1 < beta.2
    assert!(compare_versions("1.0.0-beta.1", "1.0.0-beta.2"));
}

#[test]
fn test_rc_cross_format() {
    // 2.0.0_rc2 (OpenWrt) == 2.0.0-rc.2 (upstream)
    assert!(!compare_versions("2.0.0_rc2", "2.0.0-rc.2"));
    assert!(!compare_versions("2.0.0-rc.2", "2.0.0_rc2"));
}

#[test]
fn test_apply_rule_modclean_scenario() {
    // Simulates the actual node-modclean scenario:
    // current = "3.0.0_beta1" (from OpenWrt PKG_VERSION after subst)
    // latest  = "3.0.0-beta.1" (from NPM /latest)
    // With include_prerelease=true, should NOT be outdated
    let parsed = make_parsed("3.0.0_beta1");
    let mut info = make_info("3.0.0_beta1", "3.0.0-beta.1");
    let rule = PkgRule { include_prerelease: true, ..Default::default() };
    apply_rule(&mut info, &rule, &parsed);
    assert_eq!(info.latest_version.as_deref(), Some("3.0.0-beta.1"));
    assert_eq!(info.is_outdated, Some(false), "should NOT be outdated");
}

// ── version_format_class ─────────────────────────────────────────────

#[test]
fn test_format_class_commit_hash() {
    assert_eq!(version_format_class("c123c68d1f5b13a55a8e164b03be866491ce3049"), 0, "40-char SHA");
    assert_eq!(version_format_class("404846dd2838"), 0, "12-char short hash");
    // 8-char hex is too short to be reliably classified as a commit hash;
    // the classifier returns 3 (unknown) for it — that is intentional.
    assert_eq!(version_format_class("cd5610ba"), 3, "8-char hex = ambiguous, not classified as hash");
}

#[test]
fn test_format_class_calendar_date() {
    assert_eq!(version_format_class("2026-03-13"), 1);
    assert_eq!(version_format_class("20261231"), 1);
    assert_eq!(version_format_class("2026.04"), 1, "YYYY.MM is calendar");
    assert_eq!(version_format_class("2025.01.15"), 1, "YYYY.MM.DD is calendar");
    // Display strings with " (hash)" suffix must still be classified as date
    assert_eq!(version_format_class("2023-06-11 (64027ee9)"), 1,
        "date+hash display string should be classified as calendar");
    assert_eq!(version_format_class("2024-03-22 (74bd9b60)"), 1,
        "date+hash display string should be classified as calendar");
    assert_eq!(version_format_class("2019-02-11 (259251e6)"), 1);
}

#[test]
fn test_format_class_semver() {
    assert_eq!(version_format_class("v4.0.10"), 2);
    assert_eq!(version_format_class("3.10.4"), 2);
    assert_eq!(version_format_class("1.2.3"), 2);
    // u-boot uses YYYY.MM but year >= 2000 -> calendar class
    assert_eq!(version_format_class("2013.10"), 1, "u-boot 2013.10 is calendar");
}

// ── versions_format_incompatible ─────────────────────────────────────

#[test]
fn test_format_incompatible_semver_vs_date() {
    // at91bootstrap scenario: v4.0.10 (semver) vs 2026-03-13 (date)
    assert!(versions_format_incompatible("v4.0.10", "2026-03-13"),
        "semver vs calendar date must be incompatible");
    assert!(versions_format_incompatible("3.10.4", "2026-03-13"),
        "semver vs calendar date must be incompatible");
}

#[test]
fn test_format_compatible_date_plus_hash_display() {
    // gnu-efi, psqlodbc, tac_plus, ztdns scenario:
    // current and latest both have "YYYY-MM-DD (hash)" format → same class
    assert!(!versions_format_incompatible(
        "2023-06-11 (64027ee9)", "2024-03-22 (74bd9b60)"),
        "date+hash vs date+hash must be compatible");
    assert!(!versions_format_incompatible(
        "2024-12-09 (20097cdf)", "2026-04-01 (863a0e93)"),
        "psqlodbc date+hash must be compatible");
    assert!(!versions_format_incompatible(
        "2019-02-11 (259251e6)", "2025-08-22 (dd38c2d7)"),
        "tac_plus date+hash must be compatible");
    // ztdns: same commit hash → should be up-to-date, not mismatch
    assert!(!versions_format_incompatible(
        "2023-01-08 (1510cb47)", "2022-12-28 (1510cb47)"),
        "same hash format must be compatible");
}

#[test]
fn test_format_compatible_same_class() {
    assert!(!versions_format_incompatible("1.2.3", "1.2.4"), "semver vs semver ok");
    assert!(!versions_format_incompatible("2026.01", "2026.04"), "calendar vs calendar ok");
    assert!(!versions_format_incompatible("2026-01-01", "2026-03-13"), "date vs date ok");
}

#[test]
fn test_compare_versions_incompatible_returns_false() {
    // Must NOT report "outdated" when formats differ
    assert!(!compare_versions("v4.0.10", "2026-03-13"),
        "semver current vs calendar latest must not be outdated");
    assert!(!compare_versions("3.10.4", "2026-03-13"));
}

// ── tag sort regression: at91bootstrap ───────────────────────────────

// ── tfa-layerscape prefixed-tag regression ────────────────────────────

#[test]
fn test_extract_version_from_lf_tag() {
    let tmpl = TagTemplate::Custom("lf-${VERSION}".to_string());
    assert_eq!(extract_version_from_tag("lf-6.18.2-1.0.0", &tmpl), "6.18.2-1.0.0");
    assert_eq!(extract_version_from_tag("lf-6.12.20-2.0.0", &tmpl), "6.12.20-2.0.0");
}

#[test]
fn test_find_best_tag_lf_prefix() {
    // Simulates nxp-qoriq/u-boot tag list where many non-lf- tags precede the lf- ones.
    // find_best_tag should select lf-6.18.2-1.0.0 as the best matching tag.
    let make_tag = |name: &str| GithubTag {
        name: name.to_string(),
        commit: GithubTagCommit { sha: "a".repeat(40) },
    };
    let raw_tags = vec![
        make_tag("LSDK-21.08-V5.4"),
        make_tag("LSDK-20.12-V5.4"),
        make_tag("QorIQ-SDK-V2.0-20160527"),
        make_tag("lf-6.18.2-1.0.0"),
        make_tag("lf-6.12.20-2.0.0"),
        make_tag("lf-6.6.3-1.0.0"),
    ];
    let stable: Vec<GithubTag> =
        raw_tags.into_iter().filter(|t| !is_prerelease_tag(&t.name)).collect();
    let tmpl = TagTemplate::Custom("lf-${VERSION}".to_string());
    let best = find_best_tag(&stable, &tmpl, "6.12.20.2.0.0");
    assert!(best.is_some(), "should find a matching lf- tag");
    let (tag, version) = best.unwrap();
    assert_eq!(tag.name, "lf-6.18.2-1.0.0", "best tag should be lf-6.18.2-1.0.0");
    assert_eq!(version, "6.18.2-1.0.0");

    // write fields should dot-normalise version and return full tag as src version
    let (write_ver, write_src) = tag_write_fields(&tag.name, &version, &tmpl);
    assert_eq!(write_ver, "6.18.2.1.0.0");
    assert_eq!(write_src, Some("lf-6.18.2-1.0.0".to_string()));
}

#[test]
fn test_lf_tag_version_comparison() {
    // 6.18.2 > 6.12.20 → lf-6.18.2-1.0.0 is newer
    assert_eq!(
        version_cmp("6.18.2-1.0.0", "6.12.20-2.0.0"),
        std::cmp::Ordering::Greater,
        "6.18.2-1.0.0 should be newer than 6.12.20-2.0.0"
    );
}

#[test]
fn test_lf_compare_versions_dot_normalised() {
    // After tag_write_fields, version becomes "6.18.2.1.0.0" (dots).
    // compare_versions must use the dot-normalised form so that the dashed
    // form "6.18.2-1.0.0" (treated as semver pre-release) does not break
    // the is_outdated detection against effective_version "6.12.20.2.0.0".
    assert!(
        compare_versions("6.12.20.2.0.0", "6.18.2.1.0.0"),
        "dot-normalised: 6.18.2.1.0.0 should be newer than 6.12.20.2.0.0"
    );
    // The raw dashed form is unreliable (semver pre-release semantics).
    // We document the known breakage here for awareness but do not assert on it
    // because the fix is to never compare with the raw dashed version.
    let _ = compare_versions("6.12.20.2.0.0", "6.18.2-1.0.0");
}

#[test]
fn test_tag_sort_at91bootstrap() {
    let mut tags: Vec<(String, String)> = vec![
        ("v4.0.13-rc1".to_string(), "4.0.13-rc1".to_string()),
        ("v4.0.12".to_string(),     "4.0.12".to_string()),
        ("v4.0.12-rc2".to_string(), "4.0.12-rc2".to_string()),
        ("v4.0.12-rc1".to_string(), "4.0.12-rc1".to_string()),
        ("v4.0.11".to_string(),     "4.0.11".to_string()),
        ("v4.0.10".to_string(),     "4.0.10".to_string()),
        ("v4.0.10+sama7d65".to_string(), "4.0.10+sama7d65".to_string()),
    ];
    tags.sort_by(|a, b| version_cmp(&b.1, &a.1));
    let best_stable = tags.iter().find(|(tag, _)| !is_prerelease_tag(tag));
    assert_eq!(best_stable.map(|(t, _)| t.as_str()), Some("v4.0.12"),
        "v4.0.12 should be the best stable tag");
}

// ── uboot-layerscape ──

const UBOOT_LAYERSCAPE: &str = "include $(TOPDIR)/rules.mk

PKG_NAME:=uboot-layerscape
PKG_VERSION:=6.12.20.2.0.0
PKG_RELEASE:=1

PKG_SOURCE_PROTO:=git
PKG_SOURCE_URL:=https://github.com/nxp-qoriq/u-boot.git
PKG_SOURCE_VERSION:=lf-6.12.20-2.0.0

include $(INCLUDE_DIR)/u-boot.mk
include $(INCLUDE_DIR)/package.mk
";

#[test]
fn test_parse_uboot_layerscape_makefile() {
    let parsed =
        parse_makefile("package/boot/uboot-layerscape/Makefile", UBOOT_LAYERSCAPE).unwrap();
    match &parsed.source_type {
        SourceType::GitHubRelease { owner, repo, tag_template } => {
            assert_eq!(owner, "nxp-qoriq");
            assert_eq!(repo, "u-boot");
            assert!(matches!(tag_template, TagTemplate::Custom(p) if p == "lf-${VERSION}"),
                "expected Custom(lf-${{VERSION}}), got {:?}", tag_template);
        }
        other => panic!("expected GitHubRelease, got {:?}", other),
    }
    assert_eq!(parsed.effective_version(), "6.12.20.2.0.0");
}

#[test]
fn uboot_layerscape_tags_give_a_version_with_dots() {
    let parsed =
        parse_makefile("package/boot/uboot-layerscape/Makefile", UBOOT_LAYERSCAPE).unwrap();
    let names = ["v2022.01", "LSDK-21.08", "lf-6.12.20-2.0.0", "lf-6.18.2-1.0.0"];
    let tags: Vec<GithubTag> = names
        .iter()
        .map(|n| GithubTag {
            name: n.to_string(),
            commit: GithubTagCommit { sha: "0123456789abcdef".to_string() },
        })
        .collect();
    let template = TagTemplate::Custom("lf-${VERSION}".to_string());
    let info = from_tags(&parsed, &tags, &template, "nxp-qoriq", "u-boot", false);
    assert_eq!(info.latest_version.as_deref(), Some("6.18.2.1.0.0"));
    assert_eq!(info.latest_tag.as_deref(), Some("lf-6.18.2-1.0.0"));
    assert_eq!(info.is_outdated, Some(true));
}

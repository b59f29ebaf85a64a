use makefile_checker::config::PkgRule;
use makefile_checker::makefile_parser::{parse_makefile, ParsedMakefile, SourceType, TagTemplate};
use makefile_checker::upstream::{
    after_answer, after_fallback, after_override, apply_rule, apply_rule_with, blank,
    digest_differs, error_info, finalize_format_mismatch, found_info, github_refusal, hash_check,
    hash_differs, mark_newer, offline_info, plan_check, retry_wait, settle, tarball_hash,
    tarball_url, unknown_info, unknown_info_with_url, CheckPlan, Step, UpstreamInfo,
    LIMIT_WITHOUT_TOKEN, LIMIT_WITH_TOKEN,
};

fn package(version: &str) -> ParsedMakefile {
    let content = format!(
        "PKG_NAME:=pkg\nPKG_VERSION:={}\nPKG_SOURCE:=pkg-$(PKG_VERSION).tar.gz\n\
         PKG_SOURCE_URL:=https://example.com/dl\nPKG_HASH:=abc\n",
        version
    );
    parse_makefile("net/pkg/Makefile", &content).unwrap()
}

fn found(current: &str, latest: &str) -> (ParsedMakefile, UpstreamInfo) {
    let p = package(current);
    let info = found_info(&p, latest, "https://example.com", "test", true);
    (p, info)
}

#[test]
fn rule_lets_through_what_it_allows() {
    let (p, mut info) = found("1.0", "release-3.1.0-stable");
    let rule = PkgRule {
        ignore_regex: vec![r"^1\..*".to_string(), "(".to_string()],
        min_version: Some("3.0.0".to_string()),
        max_version: Some("4.0.0".to_string()),
        strip_prefix: Some("release-".to_string()),
        strip_suffix: Some("-stable".to_string()),
        ..PkgRule::default()
    };
    apply_rule(&mut info, &rule, &p);
    assert_eq!(info.latest_version.as_deref(), Some("3.1.0"));
    assert_eq!(info.is_outdated, Some(true));
    assert_eq!(info.check_error, None);
}

#[test]
fn filters_give_their_reasons() {
    let reason = |latest: &str, rule: &PkgRule| {
        let (p, mut info) = found("1.0", latest);
        apply_rule(&mut info, rule, &p);
        assert_eq!(info.latest_version, None);
        assert_eq!(info.is_outdated, None);
        info.check_error.unwrap()
    };
    assert_eq!(reason("2.0-rc1", &PkgRule::default()), "filtered: pre-release version");
    let rule = PkgRule { ignore_regex: vec!["^2".to_string()], ..PkgRule::default() };
    assert_eq!(reason("2.0", &rule), "filtered by ignore_regex: ^2");
    let rule = PkgRule { min_version: Some("3.0".to_string()), ..PkgRule::default() };
    assert_eq!(reason("2.0", &rule), "filtered: version 2.0 < min 3.0");
    let rule = PkgRule { max_version: Some("1.5".to_string()), ..PkgRule::default() };
    assert_eq!(reason("2.0", &rule), "filtered: version 2.0 > max 1.5");
}

#[test]
fn ignored_versions_are_filtered_by_the_pattern_found() {
    let (p, mut info) = found("1.0", "2.0");
    apply_rule_with(&mut info, &PkgRule::default(), &p, Some("x+".to_string()));
    assert_eq!(info.check_error.as_deref(), Some("filtered by ignore_regex: x+"));
}

#[test]
fn empty_rule_keeps_stable_versions() {
    let (p, mut info) = found("1.0", "2.0");
    apply_rule(&mut info, &PkgRule::default(), &p);
    assert_eq!(info.latest_version.as_deref(), Some("2.0"));
}

#[test]
fn filtered_version_asks_fallbacks() {
    let (p, info) = found("1.0", "2.0-beta1");
    match after_answer(info, &PkgRule::default(), &p) {
        Step::Ask(i) => assert_eq!(i.check_error.as_deref(), Some("filtered: pre-release version")),
        Step::Done(_) => panic!("fallbacks are to be asked"),
    }
}

#[test]
fn fallbacks_are_not_asked_with_a_version() {
    let (p, info) = found("1.0", "2.0");
    match after_answer(info, &PkgRule::default(), &p) {
        Step::Done(i) => assert_eq!(i.latest_version.as_deref(), Some("2.0")),
        Step::Ask(_) => panic!("the version is known"),
    }
}

#[test]
fn fallback_with_a_version_is_the_result() {
    let (p, answer) = found("1.0", "2.0");
    match after_fallback(unknown_info(&p, "unknown source"), Some(answer), &PkgRule::default(), &p) {
        Step::Done(i) => assert_eq!(i.latest_version.as_deref(), Some("2.0")),
        Step::Ask(_) => panic!("the fallback told a version"),
    }
    match after_fallback(unknown_info(&p, "unknown source"), None, &PkgRule::default(), &p) {
        Step::Ask(i) => assert_eq!(settle(i, &p).check_error.as_deref(), Some("unknown source")),
        Step::Done(_) => panic!("the fallback told nothing"),
    }
}

#[test]
fn no_answer_breaks_the_rule() {
    let mut rule = PkgRule::default();
    rule.max_version = Some("3.0.0".to_string());
    let (p, answer) = found("1.0.0", "5.0.0");
    match after_fallback(unknown_info(&p, "unknown source"), Some(answer), &rule, &p) {
        Step::Ask(i) => assert_eq!(i.check_error.as_deref(), Some("unknown source")),
        Step::Done(_) => panic!("the version is above the maximum"),
    }
    let (p, answer) = found("1.0.0", "5.0.0");
    let i = after_override(answer, &rule, &p);
    assert_eq!(i.latest_version, None);
    assert_eq!(i.check_error.as_deref(), Some("filtered: version 5.0.0 > max 3.0.0"));
    let (p, answer) = found("1.0.0", "2.0.0");
    let i = after_override(answer, &rule, &p);
    assert_eq!(i.latest_version.as_deref(), Some("2.0.0"));
    assert_eq!(i.is_outdated, Some(true));
}

#[test]
fn a_fallback_with_an_older_version_makes_a_newer_package() {
    let (p, answer) = found("3.0.0", "2.9.0");
    match after_fallback(unknown_info(&p, "x"), Some(answer), &PkgRule::default(), &p) {
        Step::Done(i) => assert!(i.is_newer && i.write_pkg_version.is_none()),
        Step::Ask(_) => panic!("the fallback told a version"),
    }
}

#[test]
fn mismatched_packages_are_unwritten() {
    let (p, mut info) = found("1.2.3", "2024-01-01");
    info.write_pkg_source_version = Some("abc".to_string());
    info.write_pkg_source_date = Some("2024-01-01".to_string());
    finalize_format_mismatch(&mut info, &p);
    assert!(info.format_mismatch);
    assert_eq!(info.write_pkg_version, None);
    assert_eq!(info.write_pkg_source_version, None);
    assert_eq!(info.write_pkg_source_date, None);
    // a fallback's answer is held to the format as well
    let (p, info) = found("1.2.3", "2024-01-01");
    match after_fallback(unknown_info(&p, "x"), Some(info), &PkgRule::default(), &p) {
        Step::Done(i) => assert!(i.format_mismatch && i.write_pkg_version.is_none()),
        Step::Ask(_) => panic!("the fallback told a version"),
    }
}

#[test]
fn newer_packages_are_unwritten_and_not_outdated() {
    let (p, mut info) = found("3.0.0", "2.9.0");
    mark_newer(&mut info, &p);
    assert!(info.is_newer);
    assert_eq!(info.is_outdated, Some(false));
    assert_eq!(info.write_pkg_version, None);

    let (p, mut info) = found("3.0.0", "3.0.0");
    mark_newer(&mut info, &p);
    assert!(!info.is_newer);
    assert_eq!(info.write_pkg_version.as_deref(), Some("3.0.0"));

    let (p, mut info) = found("2.0.0", "3.0.0");
    mark_newer(&mut info, &p);
    assert!(!info.is_newer);
}

#[test]
fn rules_come_before_the_makefile() {
    let p = package("1.0");
    let mut rule = PkgRule { gitea: Some("host.org:a/b/c".to_string()), ..PkgRule::default() };
    match plan_check(&p, &rule) {
        CheckPlan::Override(s) => assert_eq!(
            s,
            SourceType::Gitea {
                host: "host.org".to_string(),
                owner: "a/b".to_string(),
                repo: "c".to_string(),
                tag_template: TagTemplate::WithV,
            }
        ),
        other => panic!("{:?}", other),
    }
    rule.gitlab = Some("lone".to_string());
    match plan_check(&p, &rule) {
        CheckPlan::Override(s) => assert_eq!(
            s,
            SourceType::GitLab {
                host: "gitlab.com".to_string(),
                owner: "".to_string(),
                repo: "lone".to_string(),
                tag_template: TagTemplate::WithV,
            }
        ),
        other => panic!("{:?}", other),
    }
    rule.github = Some("noslash".to_string());
    assert!(matches!(
        plan_check(&p, &rule),
        CheckPlan::Override(SourceType::GitLab { .. })
    ));
    rule.github = Some("o/r/x".to_string());
    match plan_check(&p, &rule) {
        CheckPlan::Override(s) => assert_eq!(
            s,
            SourceType::GitHubRelease {
                owner: "o".to_string(),
                repo: "r/x".to_string(),
                tag_template: TagTemplate::WithV,
            }
        ),
        other => panic!("{:?}", other),
    }
    rule.url_regex_url = Some("https://e.com".to_string());
    rule.url_regex_pattern = Some("x".to_string());
    assert!(matches!(
        plan_check(&p, &rule),
        CheckPlan::Override(SourceType::UrlRegex { .. })
    ));
    rule.skip = true;
    assert!(matches!(plan_check(&p, &rule), CheckPlan::Skip));
}

#[test]
fn without_rules_the_makefile_decides() {
    let mut p = package("1.0");
    match plan_check(&p, &PkgRule::default()) {
        CheckPlan::Detected(s) => assert_eq!(s, p.source_type),
        other => panic!("{:?}", other),
    }
    p.source_type = SourceType::Freedesktop { project: "gstreamer".to_string() };
    match plan_check(&p, &PkgRule::default()) {
        CheckPlan::Detected(s) => assert_eq!(
            s,
            SourceType::GitLab {
                host: "gitlab.freedesktop.org".to_string(),
                owner: "gstreamer".to_string(),
                repo: "gstreamer".to_string(),
                tag_template: TagTemplate::Plain,
            }
        ),
        other => panic!("{:?}", other),
    }
}

#[test]
fn sources_that_nobody_is_asked_about() {
    let p = package("1.0");
    let told = |s: SourceType| {
        let i = offline_info(&p, &s).unwrap();
        (i.check_error.unwrap(), i.upstream_url)
    };
    assert_eq!(
        told(SourceType::GoLang),
        ("golang-dl".to_string(), Some("https://go.dev/dl/".to_string()))
    );
    assert_eq!(told(SourceType::NoSource), ("no-source".to_string(), None));
    assert_eq!(told(SourceType::OpenWrtMirror), ("openwrt-mirror".to_string(), None));
    assert_eq!(told(SourceType::Unknown), ("unknown source".to_string(), None));
    let mirror = |m: &str| {
        told(SourceType::GnuMirror { mirror: m.to_string(), package: "p".to_string() })
    };
    assert_eq!(
        mirror("GNOME"),
        (
            "gnome-mirror".to_string(),
            Some("https://download.gnome.org/sources/p/".to_string())
        )
    );
    assert_eq!(mirror("APACHE").1.unwrap(), "https://downloads.apache.org/p/");
    assert_eq!(mirror("SAVANNAH").1.unwrap(), "https://download.savannah.gnu.org/releases/p/");
    assert_eq!(mirror("KERNEL").1.unwrap(), "https://www.kernel.org/pub/");
    assert_eq!(mirror("GNU").1.unwrap(), "https://ftpmirror.gnu.org/p/");
    assert!(offline_info(&p, &SourceType::PyPI { package: "p".to_string() }).is_none());
}

#[test]
fn waits_double() {
    assert_eq!(retry_wait("HTTP 503", 0, 3), Some(1));
    assert_eq!(retry_wait("HTTP 503", 1, 3), Some(2));
    assert_eq!(retry_wait("operation timed out", 2, 3), Some(4));
    assert_eq!(retry_wait("connection refused", 63, 100), Some(1 << 63));
    assert_eq!(retry_wait("HTTP 503", 3, 3), None);
    assert_eq!(retry_wait("HTTP 404", 0, 3), None);
    for message in ["429", "502", "503", "504", "GitHub API rate limit exceeded"] {
        assert_eq!(retry_wait(message, 0, 1), Some(1));
    }
}

#[test]
fn github_refusals() {
    assert_eq!(github_refusal(200, "rate limit", true), None);
    assert_eq!(github_refusal(404, "", false), None);
    assert_eq!(github_refusal(429, "", true).as_deref(), Some(LIMIT_WITH_TOKEN));
    assert_eq!(github_refusal(403, "rate limit", false).as_deref(), Some(LIMIT_WITHOUT_TOKEN));
    assert_eq!(github_refusal(403, "a rate_limit b", true).as_deref(), Some(LIMIT_WITH_TOKEN));
    assert_eq!(
        github_refusal(403, "no", false).as_deref(),
        Some("GitHub API HTTP 403 Forbidden: no")
    );
    let long = "x".repeat(300);
    assert_eq!(
        github_refusal(403, &long, false).unwrap(),
        format!("GitHub API HTTP 403 Forbidden: {}", "x".repeat(200))
    );
}

#[test]
fn hashes_of_tarballs() {
    let abc = "ba7816bf8f01cfea414140de5dae2223b00361a396177a9cb410ff61f20015ad";
    assert_eq!(tarball_hash(b"abc"), abc);
    assert!(!hash_differs(b"abc", &format!(" SHA256:{} ", abc.to_uppercase())));
    assert!(hash_differs(b"abd", abc));
    assert!(!digest_differs("ab", "AB"));
    assert!(digest_differs("ab", "skip"));
}

#[test]
fn current_tarballs_are_checked() {
    let (p, info) = found("1.0", "1.0");
    assert_eq!(
        hash_check(&info, &p),
        Some(("https://example.com/dl/pkg-1.0.tar.gz".to_string(), "abc".to_string()))
    );
    let (p, info) = found("1.0", "2.0");
    assert_eq!(hash_check(&info, &p), None);
    let (mut p, info) = found("1.0", "1.0");
    p.pkg_hash = None;
    assert_eq!(hash_check(&info, &p), None);
    assert_eq!(tarball_url("https://e.com/", "f"), "https://e.com/f");
}

#[test]
fn results_without_a_version() {
    let p = package("1.0");
    let i = error_info(&p, "boom");
    assert_eq!((i.check_error.as_deref(), i.source_backend.as_str()), (Some("boom"), "error"));
    assert_eq!(i.current_version, "1.0");
    let i = unknown_info_with_url(&p, "why", "u");
    assert_eq!((i.upstream_url.as_deref(), i.source_backend.as_str()), (Some("u"), "why"));
    let i = blank("n", "c");
    assert_eq!((i.pkg_name.as_str(), i.current_version.as_str()), ("n", "c"));
    assert_eq!(i.latest_version, None);
}

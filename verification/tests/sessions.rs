use makefile_checker::config::{default_jobs, default_retry_times, Config, OutputFormat, PkgRule};
use makefile_checker::i18n::{say, Lang, T};
use makefile_checker::makefile_parser::{parse_makefile, ParsedMakefile};
use makefile_checker::session::{
    add_fetched, choose_commit_source, commit_source, copy_rule, enters, is_makefile, is_skipped,
    jobs_answer, lang_at, list_items, main_action, new_tarball, outdated_action, path_answer,
    retry_answer, rule_for, rule_summary, timeout_answer, token_answer, update_for, CommitSource,
    MainAction, Tarball,
};
use makefile_checker::upstream::{blank, found_info};

fn package(lines: &str) -> ParsedMakefile {
    let content = format!("PKG_NAME:=pkg\nPKG_VERSION:=1.0\n{}", lines);
    parse_makefile("net/pkg/Makefile", &content).unwrap()
}

#[test]
fn answers_to_questions() {
    assert_eq!(list_items(" a, b ,,c "), ["a", "b", "c"]);
    assert!(list_items(" , ").is_empty());
    assert_eq!(jobs_answer(" 8 ", 4), 8);
    assert_eq!(jobs_answer("0", 4), 4);
    assert_eq!(jobs_answer("x", 4), 4);
    assert_eq!(timeout_answer("60", 30), 60);
    assert_eq!(timeout_answer("0", 30), 30);
    assert_eq!(retry_answer("0", 3), 0);
    assert_eq!(retry_answer("4294967296", 3), 3);
    assert_eq!(token_answer(""), None);
    assert_eq!(token_answer(" t").as_deref(), Some(" t"));
    assert_eq!(path_answer("  "), None);
    assert_eq!(path_answer(" d ").as_deref(), Some("d"));
    assert_eq!(lang_at(1), Lang::Zh);
    assert_eq!(lang_at(0), Lang::En);
    assert_eq!(main_action(0), MainAction::Run);
    assert_eq!(main_action(1), MainAction::Configure);
    assert_eq!(main_action(2), MainAction::Quit);
    assert_eq!(outdated_action(0), (true, false));
    assert_eq!(outdated_action(1), (false, true));
    assert_eq!(outdated_action(2), (true, true));
    assert_eq!(outdated_action(3), (false, false));
}

#[test]
fn what_is_searched() {
    let skip = vec!["host/".to_string()];
    assert!(enters("pkg", false, true, "net/pkg", &skip));
    assert!(!enters(".git", false, true, "net/.git", &skip));
    assert!(!enters("x", false, true, "host/x", &skip));
    assert!(enters("Makefile", false, false, "host/x/Makefile", &skip));
    // the directory itself is skipped, not only what it holds
    assert!(!enters("host", false, true, "/f/host", &skip));
    assert!(enters("hosts", false, true, "/f/hosts", &skip));
    // a search may start in a directory with a dot
    assert!(enters(".", true, true, ".", &skip));
    assert!(enters("..", true, true, "..", &skip));
    assert!(enters("pkg", false, true, "./pkg", &skip));
    assert!(is_makefile("Makefile", true));
    assert!(!is_makefile("Makefile", false));
    assert!(!is_makefile("makefile", true));
    assert!(is_skipped(&vec!["linux".to_string()], "linux"));
    assert!(!is_skipped(&vec!["linux".to_string()], "linu"));
}

#[test]
fn rules_of_packages() {
    let rule = PkgRule { skip: true, min_version: Some("1".to_string()), ..PkgRule::default() };
    let rules = vec![("pkg".to_string(), copy_rule(&rule))];
    let r = rule_for(&rules, "pkg", true);
    assert!(r.skip && r.include_prerelease);
    assert_eq!(r.min_version.as_deref(), Some("1"));
    assert!(!rule_for(&rules, "pkg", false).include_prerelease);
    let r = rule_for(&rules, "other", true);
    assert!(!r.skip && r.include_prerelease && r.min_version.is_none());
}

#[test]
fn rules_in_a_line() {
    let rule = PkgRule {
        ignore_regex: vec!["a".to_string(), "b".to_string()],
        min_version: Some("1".to_string()),
        max_version: Some("2".to_string()),
        strip_prefix: Some("p".to_string()),
        strip_suffix: Some("s".to_string()),
        include_prerelease: true,
        url_regex_url: Some("u".to_string()),
        ..PkgRule::default()
    };
    assert_eq!(
        rule_summary(&rule),
        "ignore_regex=[a,b]  min=1  max=2  strip_prefix=p  strip_suffix=s  \
         include_prerelease  url_regex_url=u"
    );
    assert_eq!(rule_summary(&PkgRule::default()), "");
}

#[test]
fn where_commits_are_asked_for() {
    assert!(matches!(commit_source(&package("")), CommitSource::Untracked));
    let short = "PKG_SOURCE_VERSION:=0123456789a\nPKG_SOURCE_URL:=https://github.com/o/r.git\n";
    assert!(matches!(commit_source(&package(short)), CommitSource::Untracked));
    let at = |url: &str| {
        let lines = format!("PKG_SOURCE_VERSION:=0123456789ab\nPKG_SOURCE_URL:={}\n", url);
        commit_source(&package(&lines))
    };
    match at("https://github.com/o/r.git") {
        CommitSource::GitHub { owner, repo } => {
            assert_eq!((owner.as_str(), repo.as_str()), ("o", "r"))
        }
        other => panic!("{:?}", other),
    }
    match at("https://gitlab.com/o/r.git") {
        CommitSource::GitLab { host, owner, repo } => {
            assert_eq!((host.as_str(), owner.as_str(), repo.as_str()), ("gitlab.com", "o", "r"))
        }
        other => panic!("{:?}", other),
    }
    assert!(matches!(at("https://example.com/x"), CommitSource::NoHost));
    assert!(matches!(choose_commit_source(&None, &None), CommitSource::NoHost));
}

#[test]
fn tarballs_of_the_latest_version() {
    let p = package("PKG_SOURCE:=pkg-$(PKG_VERSION).tgz\nPKG_SOURCE_URL:=https://e.com/1.0\n");
    let info = found_info(&p, "2.0", "u", "b", true);
    match new_tarball(&p, &info) {
        Tarball::At { url, fname } => {
            assert_eq!((url.as_str(), fname.as_str()), ("https://e.com/2.0", "pkg-2.0.tgz"))
        }
        other => panic!("{:?}", other),
    }
    assert!(matches!(new_tarball(&p, &blank("pkg", "1.0")), Tarball::NoVersion));
    let p = package("PKG_SOURCE_URL:=https://e.com/1.0\n");
    assert!(matches!(new_tarball(&p, &info), Tarball::NoFile));
    assert!(matches!(new_tarball(&package(""), &info), Tarball::NoUrl));
}

#[test]
fn what_is_written() {
    let p = package("");
    let mut info = found_info(&p, "2.0", "u", "b", true);
    let update = update_for(&info, &Some("h".to_string())).unwrap();
    assert_eq!(update.pkg_version.as_deref(), Some("2.0"));
    assert_eq!(update.pkg_hash.as_deref(), Some("h"));
    assert_eq!(update.pkg_source_version, None);
    info.format_mismatch = true;
    assert!(update_for(&info, &None).is_none());
    let info = found_info(&p, "2.0", "u", "b", false);
    assert!(update_for(&info, &Some("h".to_string())).is_none());
    assert!(update_for(&blank("pkg", "1.0"), &None).is_none());
}

#[test]
fn what_was_fetched_is_added() {
    let mut info = blank("pkg", "1.0");
    info.check_error = Some("old".to_string());
    add_fetched(&mut info, Some("h".to_string()), None, None);
    assert_eq!(info.latest_hash_sha256.as_deref(), Some("h"));
    assert_eq!(info.upstream_commit, None);
    assert_eq!(info.check_error.as_deref(), Some("old"));
    add_fetched(&mut info, None, Some("c".to_string()), Some("e".to_string()));
    assert_eq!(info.latest_hash_sha256.as_deref(), Some("h"));
    assert_eq!(info.upstream_commit.as_deref(), Some("c"));
    assert_eq!(info.check_error.as_deref(), Some("e"));
}

#[test]
fn configuration_of_a_first_run() {
    let c = Config::initial(Some(64), Some("t".to_string()));
    assert_eq!(c.search_paths, ["."]);
    assert_eq!(c.parallel_jobs, 16);
    assert_eq!((c.timeout_secs, c.retry_times), (30, 3));
    assert_eq!(c.output_format, OutputFormat::Xlsx);
    assert_eq!(c.github_token.as_deref(), Some("t"));
    assert_eq!(c.skip_patterns, ["host/", "toolchain/"]);
    assert!(c.skip_packages.is_empty() && c.pkg_rules.is_empty());
    assert_eq!(c.lang, Lang::default());
    assert_eq!(default_jobs(Some(2)), 2);
    assert_eq!(default_jobs(None), 4);
    assert_eq!(default_retry_times(), 3);
}

#[test]
fn names_and_places() {
    let formats =
        [OutputFormat::Xlsx, OutputFormat::Csv, OutputFormat::Both, OutputFormat::NoReport];
    for (i, f) in formats.iter().enumerate() {
        assert_eq!(OutputFormat::at(i), *f);
        assert_eq!(f.place(), i);
    }
    assert_eq!(OutputFormat::NoReport.name(), "none");
    assert_eq!((Lang::En.name(), Lang::Zh.name()), ("English", "中文"));
    assert_eq!(T("a", "b").get(Lang::Zh), "b");
    assert_eq!(say(("a", "b"), Lang::En), "a");
}

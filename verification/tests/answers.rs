use makefile_checker::forges::{
    bitbucket_api, cgit_json_url, cgit_page_url, from_bitbucket_tags, from_cgit_page,
    from_cgit_tags, from_gitea_tags, from_gitlab_tags, gitea_api, gitlab_commits_api,
    gitlab_tags_api, GitLabTag,
};
use makefile_checker::github::{
    commits_api, enough_tags, from_commit_tags, from_commits, from_releases, from_tag_path,
    from_tags, max_tag_pages, releases_api, show_commit, tags_api, GithubCommit, GithubRelease,
};
use makefile_checker::makefile_parser::{parse_makefile, ParsedMakefile, TagTemplate};
use makefile_checker::pages::{
    extract_version_from_html_index, extract_version_from_sf_rss, from_matches, from_page,
    pick_listed,
};
use makefile_checker::registries::{
    anitya_api, choose_project, cpan_api, cratesio_api, first_commit, from_anitya, from_cpan,
    from_cratesio, from_gomodule, from_hackage, from_kernel_releases, from_kernelorg, from_maven,
    from_npm, from_pecl, from_pypi, from_repology, from_rubygems, from_sourceforge, gomodule_api,
    hackage_api, is_kernel, kernelorg_index, maven_api, npm_api, pecl_api, pypi_api, repology_api,
    rubygems_api, sourceforge_api, AnityaProject, KernelRelease, RepologyPackage,
};
use makefile_checker::tags::{GithubTag, GithubTagCommit};

fn package(version: &str) -> ParsedMakefile {
    let content = format!("PKG_NAME:=My_Pkg\nPKG_VERSION:={}\n", version);
    parse_makefile("net/pkg/Makefile", &content).unwrap()
}

fn with_url(version: &str, url: &str) -> ParsedMakefile {
    let content =
        format!("PKG_NAME:=pkg\nPKG_VERSION:={}\nPKG_SOURCE_URL:={}\n", version, url);
    parse_makefile("net/pkg/Makefile", &content).unwrap()
}

fn tag(name: &str, sha: &str) -> GithubTag {
    GithubTag { name: name.to_string(), commit: GithubTagCommit { sha: sha.to_string() } }
}

fn release(name: &str, prerelease: bool, draft: bool) -> GithubRelease {
    GithubRelease { tag_name: name.to_string(), prerelease, draft }
}

fn texts(list: &[&str]) -> Vec<String> {
    list.iter().map(|s| s.to_string()).collect()
}

// ── GitHub ──

#[test]
fn github_places() {
    assert_eq!(
        releases_api("o", "r"),
        "https://api.github.com/repos/o/r/releases?per_page=20"
    );
    assert_eq!(
        tags_api("o", "r", 100, 2),
        "https://api.github.com/repos/o/r/tags?per_page=100&page=2"
    );
    assert_eq!(commits_api("o", "r"), "https://api.github.com/repos/o/r/commits?per_page=1");
}

#[test]
fn first_stable_release_is_taken() {
    let p = package("1.0");
    let releases = vec![
        release("v3.0", true, false),
        release("v2.9", false, true),
        release("v2.8-rc1", false, false),
        release("v2.7", false, false),
        release("v9.9", false, false),
    ];
    let i = from_releases(&p, &releases, &TagTemplate::WithV, "o", "r", false).unwrap();
    assert_eq!(i.latest_version.as_deref(), Some("2.7"));
    assert_eq!(i.latest_tag.as_deref(), Some("v2.7"));
    assert_eq!(i.write_pkg_version.as_deref(), Some("2.7"));
    assert_eq!(i.is_outdated, Some(true));
    assert_eq!(i.upstream_url.as_deref(), Some("https://github.com/o/r/releases"));
    assert_eq!(i.source_backend, "github-release");
    assert!(from_releases(&p, &vec![], &TagTemplate::WithV, "o", "r", false).is_none());
}

#[test]
fn pages_of_tags() {
    let custom = TagTemplate::Custom("lf-${VERSION}".to_string());
    assert_eq!(max_tag_pages(&custom), 10);
    assert_eq!(max_tag_pages(&TagTemplate::Plain), 1);
    let other = vec![tag("v1.0", "a")];
    assert!(!enough_tags(&other, &custom, 100, false));
    assert!(enough_tags(&other, &custom, 99, false));
    assert!(enough_tags(&vec![tag("lf-1.0", "a")], &custom, 100, false));
}

#[test]
fn best_tag_is_the_result() {
    let p = package("1.0");
    let tags = vec![tag("v1.5", "0123456789"), tag("v1.6-rc1", "x"), tag("v1.4", "y")];
    let i = from_tags(&p, &tags, &TagTemplate::WithV, "o", "r", false);
    assert_eq!(i.latest_version.as_deref(), Some("1.5"));
    assert_eq!(i.latest_commit.as_deref(), Some("01234567"));
    assert_eq!(i.write_pkg_version.as_deref(), Some("1.5"));
    assert_eq!(i.write_pkg_source_version, None);
    assert_eq!(i.source_backend, "github-tags");

    let mut p = package("1.0");
    p.pkg_source_version = Some("v1.0".to_string());
    let i = from_tags(&p, &tags, &TagTemplate::WithV, "o", "r", false);
    assert_eq!(i.write_pkg_version, None);
    assert_eq!(i.write_pkg_source_version.as_deref(), Some("v1.5"));

    let i = from_tags(&p, &vec![], &TagTemplate::WithV, "o", "r", false);
    assert_eq!(i.check_error.as_deref(), Some("no stable releases or tags found"));
}

#[test]
fn tags_under_a_path() {
    let p = package("8.0.4");
    let tags = vec![
        tag("other/9.0", "x"),
        tag("client_release/8.2/8.2.1-beta1", "y"),
        tag("client_release/8.2.0", "0123456789"),
    ];
    let i = from_tag_path(&p, &tags, "client_release/", "o", "r", false);
    assert_eq!(i.latest_version.as_deref(), Some("8.2.0"));
    assert_eq!(i.latest_commit.as_deref(), Some("01234567"));
    assert_eq!(i.upstream_url.as_deref(), Some("https://github.com/o/r/tags"));
    let i = from_tag_path(&p, &tags, "nothing/", "o", "r", false);
    assert_eq!(i.check_error.as_deref(), Some("no matching tags found"));
}

#[test]
fn tags_of_a_package_that_follows_commits() {
    let p = package("v4.0.10");
    let tags = vec![
        tag("v4.0.11+sama", "a"),
        tag("v4.0.13-rc1", "b"),
        tag("linux4sam-2024", "c"),
        tag("v4.0.12", "0123456789"),
        tag("2024.01", "d"),
    ];
    let i = from_commit_tags(&p, &tags, "o", "r", false).unwrap();
    assert_eq!(i.latest_version.as_deref(), Some("v4.0.12"));
    assert_eq!(i.write_pkg_version.as_deref(), Some("v4.0.12"));
    assert_eq!(i.write_pkg_source_version.as_deref(), Some("0123456789"));
    assert_eq!(i.latest_commit.as_deref(), Some("01234567"));
    assert_eq!(i.source_backend, "github-commit+tags");
    let only = vec![tag("v4.0.13-rc1", "b")];
    let i = from_commit_tags(&p, &only, "o", "r", false).unwrap();
    assert_eq!(i.latest_version.as_deref(), Some("v4.0.13-rc1"));
    assert!(from_commit_tags(&p, &vec![tag("x", "y")], "o", "r", false).is_none());
}

#[test]
fn latest_commit_is_the_result() {
    let p = package("1.0");
    let commits = vec![GithubCommit {
        sha: "abcdef0123456789".to_string(),
        date: "2024-01-15T10:30:00Z".to_string(),
    }];
    let i = from_commits(&p, &commits, "0123456789ab", "o", "r");
    assert_eq!(i.latest_version.as_deref(), Some("2024-01-15 (abcdef01)"));
    assert_eq!(i.current_version, "1.0 (01234567)");
    assert_eq!(i.is_outdated, Some(true));
    assert_eq!(i.write_pkg_version, None);
    assert_eq!(i.write_pkg_source_version.as_deref(), Some("abcdef0123456789"));
    assert_eq!(i.write_pkg_source_date.as_deref(), Some("2024-01-15"));
    let i = from_commits(&p, &commits, "abcdef0123", "o", "r");
    assert_eq!(i.is_outdated, Some(false));
    let i = from_commits(&p, &vec![], "x", "o", "r");
    assert_eq!(i.check_error.as_deref(), Some("no commits found"));
}

#[test]
fn commits_are_shown_with_a_date() {
    let date = Some("2024.01.02".to_string());
    assert_eq!(show_commit("1.0", &date, false, "abc"), "2024-01-02 (abc)");
    assert_eq!(show_commit("2024.03.04", &None, true, "abc"), "2024-03-04 (abc)");
    assert_eq!(show_commit("1.0", &None, false, "abc"), "1.0 (abc)");
    let p = package("2025.03.14");
    let commits = vec![GithubCommit { sha: "a".to_string(), date: "d".to_string() }];
    assert_eq!(from_commits(&p, &commits, "b", "o", "r").current_version, "2025-03-14 (b)");
}

// ── other forges ──

#[test]
fn gitlab_places() {
    assert_eq!(
        gitlab_tags_api("h", "a/b", "c d"),
        "https://h/api/v4/projects/a%2Fb%2Fc%20d/repository/tags\
         ?per_page=30&order_by=version&sort=desc"
    );
    assert_eq!(
        gitlab_commits_api("h", "ä", "c"),
        "https://h/api/v4/projects/%C3%A4%2Fc/repository/commits?per_page=1"
    );
}

#[test]
fn gitlab_tags_near_the_current_version() {
    let p = package("1.26.0");
    let gl = |name: &str| GitLabTag { name: name.to_string(), commit_id: "0123456789".to_string() };
    let tags = vec![gl("1.26.4"), gl("1.27.0-rc1"), gl("0.10.36"), gl("1.26.10")];
    let i = from_gitlab_tags(&p, &tags, &TagTemplate::Plain, "h", "o", "r", false);
    assert_eq!(i.latest_version.as_deref(), Some("1.26.10"));
    assert_eq!(i.latest_commit.as_deref(), Some("01234567"));
    assert_eq!(i.write_pkg_version, None);
    assert_eq!(i.source_backend, "gitlab(h)");
    assert_eq!(i.upstream_url.as_deref(), Some("https://h/o/r"));
    let i = from_gitlab_tags(&p, &vec![gl("0.9")], &TagTemplate::Plain, "h", "o", "r", false);
    assert_eq!(i.check_error.as_deref(), Some("no stable gitlab tags"));
}

#[test]
fn bitbucket_and_gitea_take_the_first_stable_tag() {
    let p = package("1.0");
    let names = texts(&["v2.0-beta", "v1.1", "v1.9"]);
    let i = from_bitbucket_tags(&p, &names, &TagTemplate::WithV, "o", "r", false);
    assert_eq!(i.latest_version.as_deref(), Some("1.1"));
    assert_eq!(i.write_pkg_version.as_deref(), Some("1.1"));
    assert_eq!(i.upstream_url.as_deref(), Some("https://bitbucket.org/o/r"));
    assert_eq!(
        bitbucket_api("o", "r"),
        "https://api.bitbucket.org/2.0/repositories/o/r/refs/tags?sort=-name&pagelen=30"
    );
    let i = from_gitea_tags(&p, &names, &TagTemplate::WithV, "h", "o", "r", false);
    assert_eq!(i.latest_version.as_deref(), Some("1.1"));
    assert_eq!(i.write_pkg_version, None);
    assert_eq!(i.source_backend, "gitea(h)");
    assert_eq!(gitea_api("h", "o", "r"), "https://h/api/v1/repos/o/r/tags?limit=30&page=1");
    let i = from_gitea_tags(&p, &vec![], &TagTemplate::WithV, "h", "o", "r", false);
    assert_eq!(i.check_error.as_deref(), Some("no stable gitea tags"));
    let i = from_bitbucket_tags(&p, &vec![], &TagTemplate::WithV, "o", "r", false);
    assert_eq!(i.check_error.as_deref(), Some("no stable bitbucket tags"));
}

#[test]
fn cgit_tags_and_pages() {
    let p = package("1.0");
    assert_eq!(cgit_json_url("https://g/x.git/"), "https://g/x.git/refs/?format=json");
    assert_eq!(cgit_page_url("https://g/x.git/"), "https://g/x.git/refs/");
    let i = from_cgit_tags(&p, &texts(&["v1.2", "start", "v1.10", "v2.0-rc1"]), "u", false).unwrap();
    assert_eq!(i.latest_version.as_deref(), Some("1.10"));
    assert_eq!(i.latest_tag.as_deref(), Some("v1.10"));
    assert!(from_cgit_tags(&p, &texts(&["start"]), "u", false).is_none());
    let i = from_cgit_page(&p, r#"<a href="x-1.3.tar.gz"> <a href="x-1.12.tar.gz">"#, "u");
    assert_eq!(i.latest_version.as_deref(), Some("1.12"));
    let i = from_cgit_page(&p, "", "u");
    assert_eq!(i.check_error.as_deref(), Some("could not parse cgit tags"));
}

// ── pages ──

#[test]
fn versions_listed_on_pages() {
    let html = r#"<a href="pkg-1.2.tar.gz"><a href="pkg-1.10.1.tar.xz"><a href="pkg-0.9.tar.gz">"#;
    assert_eq!(extract_version_from_html_index(html, "1.2").as_deref(), Some("1.10.1"));
    assert_eq!(extract_version_from_html_index(html, "1.10.1"), None);
    assert_eq!(extract_version_from_html_index("", "1.2"), None);
    let rss = "<title>/pkg/1.2/pkg.tgz</title><title>/pkg/1.11/pkg.tgz</title>";
    assert_eq!(extract_version_from_sf_rss(rss, "1.2").as_deref(), Some("1.11"));
    assert_eq!(extract_version_from_sf_rss(rss, "1.11"), None);
    let matches = vec![
        vec![Some("a".to_string()), Some("1.0".to_string())],
        vec![Some("b".to_string()), Some("2.0".to_string())],
    ];
    assert_eq!(pick_listed(&matches, "1.0").as_deref(), Some("2.0"));
    assert_eq!(pick_listed(&matches, "2.0"), None);
}

#[test]
fn versions_by_a_pattern() {
    let p = package("1.0");
    let i = from_page(&p, "v1.2 v1.11 v2.0-rc1", "u", r"v([0-9.]+(?:-rc\d+)?)", false).unwrap();
    assert_eq!(i.latest_version.as_deref(), Some("1.11"));
    assert_eq!(i.source_backend, "url-regex");
    let i = from_page(&p, "1.2 and 1.3", "u", r"[0-9.]+", false).unwrap();
    assert_eq!(i.latest_version.as_deref(), Some("1.3"));
    let i = from_page(&p, "none", "u", r"[0-9]+", false).unwrap();
    assert_eq!(i.check_error.as_deref(), Some("no version matched url-regex pattern"));
    assert!(from_page(&p, "x", "u", "(", false).is_err());
    // a group that took no part gives way to the whole match
    let i = from_matches(&p, &vec![vec![Some("1.5".to_string()), None]], "u", false);
    assert_eq!(i.latest_version.as_deref(), Some("1.5"));
}

#[test]
fn prereleases_that_count() {
    let p = package("1.0");
    let form = TagTemplate::WithV;
    let releases = vec![release("v3.0", true, true), release("v2.9", true, false)];
    assert!(from_releases(&p, &releases, &form, "o", "r", false).is_none());
    let i = from_releases(&p, &releases, &form, "o", "r", true).unwrap();
    assert_eq!(i.latest_tag.as_deref(), Some("v2.9"));
    let tags = vec![tag("v1.1", "a"), tag("v2.0-rc1", "b")];
    let i = from_tags(&p, &tags, &form, "o", "r", true);
    assert_eq!(i.latest_tag.as_deref(), Some("v2.0-rc1"));
    assert_eq!(i.latest_version.as_deref(), Some("2.0-rc1"));
    let only = vec![tag("v2.0-rc1", "b")];
    assert!(!enough_tags(&only, &form, 100, false));
    assert!(enough_tags(&only, &form, 100, true));
    let i = from_commit_tags(&p, &tags, "o", "r", true).unwrap();
    assert_eq!(i.latest_tag.as_deref(), Some("v2.0-rc1"));
    let paths = vec![tag("x/1.1-beta", "a"), tag("x/1.0", "b")];
    let i = from_tag_path(&p, &paths, "x/", "o", "r", true);
    assert_eq!(i.latest_tag.as_deref(), Some("x/1.1-beta"));
    let names = texts(&["v2.0-beta", "v1.1"]);
    let i = from_bitbucket_tags(&p, &names, &form, "o", "r", true);
    assert_eq!(i.latest_version.as_deref(), Some("2.0-beta"));
    let i = from_gitea_tags(&p, &names, &form, "h", "o", "r", true);
    assert_eq!(i.latest_version.as_deref(), Some("2.0-beta"));
    let gl = |name: &str| GitLabTag { name: name.to_string(), commit_id: "0123456789".to_string() };
    let i = from_gitlab_tags(&p, &vec![gl("v1.1"), gl("v1.2-rc1")], &form, "h", "o", "r", true);
    assert_eq!(i.latest_tag.as_deref(), Some("v1.2-rc1"));
    let i = from_cgit_tags(&p, &texts(&["v1.2", "v2.0-rc1"]), "u", true).unwrap();
    assert_eq!(i.latest_tag.as_deref(), Some("v2.0-rc1"));
    let i = from_page(&p, "v1.2 v2.0-rc1", "u", r"v([0-9.]+(?:-rc\d+)?)", true).unwrap();
    assert_eq!(i.latest_version.as_deref(), Some("2.0-rc1"));
}

// ── registries ──

#[test]
fn registry_places() {
    let p = package("1.0");
    assert_eq!(pypi_api(&p, "x"), "https://pypi.org/pypi/x/json");
    assert_eq!(pypi_api(&p, ""), "https://pypi.org/pypi/My_Pkg/json");
    assert_eq!(cratesio_api(&p, "x"), "https://crates.io/api/v1/crates/x");
    assert_eq!(rubygems_api(&p, "x"), "https://rubygems.org/api/v1/gems/x.json");
    assert_eq!(cpan_api(&p, "x"), "https://fastapi.metacpan.org/v1/release/x");
    assert_eq!(hackage_api(&p, "x"), "https://hackage.haskell.org/package/x/preferred");
    assert_eq!(pecl_api(&p, "x"), "https://pecl.php.net/rest/r/x/stable.txt");
    assert_eq!(
        maven_api("org.a", "b c"),
        "https://search.maven.org/solrsearch/select?q=g:%22org.a%22+AND+a:%22b%20c%22&rows=1&wt=json"
    );
    assert_eq!(gomodule_api("a/b"), "https://proxy.golang.org/a/b/@latest");
    assert_eq!(sourceforge_api("x"), "https://sourceforge.net/projects/x/rss?limit=20");
    assert_eq!(kernelorg_index(&p, "x"), "https://www.kernel.org/pub/linux/utils/x/");
    assert_eq!(repology_api(&p), "https://repology.org/api/v1/project/my-pkg");
    assert_eq!(
        anitya_api(&p),
        "https://release-monitoring.org/api/v2/projects/?name=My_Pkg&distribution=Fedora"
    );
}

#[test]
fn npm_mirrors() {
    let p = package("1.0");
    assert_eq!(npm_api(&p, "@a/b/c"), "https://registry.npmjs.org/@a%2Fb/c/latest");
    let p = with_url("1.0", "https://mirrors.tencent.com/npm/x/-/");
    assert_eq!(npm_api(&p, "x"), "https://mirrors.tencent.com/npm/x/latest");
    let p = with_url("1.0", "https://registry.npmmirror.com/x/-/");
    assert_eq!(npm_api(&p, "x"), "https://registry.npmmirror.com/x/latest");
    let i = from_npm(&p, "@a/b", "2.0");
    assert_eq!(i.upstream_url.as_deref(), Some("https://www.npmjs.com/package/@a/b"));
}

#[test]
fn registry_answers() {
    let p = package("1.0");
    let told = |i: makefile_checker::upstream::UpstreamInfo| {
        assert_eq!(i.write_pkg_version, i.latest_version);
        assert_eq!(i.is_outdated, Some(true));
        (i.latest_version.unwrap(), i.source_backend, i.upstream_url.unwrap())
    };
    let as_told = |v: &str, b: &str, u: &str| (v.to_string(), b.to_string(), u.to_string());
    assert_eq!(
        told(from_pypi(&p, "x", "2.0")),
        as_told("2.0", "pypi", "https://pypi.org/project/x/")
    );
    assert_eq!(
        told(from_cratesio(&p, "x", "2.0")),
        as_told("2.0", "crates.io", "https://crates.io/crates/x")
    );
    assert_eq!(
        told(from_rubygems(&p, "x", "2.0")),
        as_told("2.0", "rubygems", "https://rubygems.org/gems/x")
    );
    assert_eq!(
        told(from_cpan(&p, "x", "v2.0")),
        as_told("2.0", "cpan", "https://metacpan.org/dist/x")
    );
    assert_eq!(
        told(from_gomodule(&p, "a/b", "v2.0")),
        as_told("2.0", "go-module", "https://pkg.go.dev/a/b")
    );
    assert_eq!(
        told(from_pecl(&p, "x", " 2.0\n").unwrap()),
        as_told("2.0", "pecl", "https://pecl.php.net/package/x")
    );
    assert_eq!(
        from_pecl(&p, "x", " \n").unwrap_err(),
        "pecl returned empty version for x"
    );
    assert_eq!(
        told(from_hackage(&p, "x", &texts(&["1.2", "1.10", "1.9"]))),
        as_told("1.10", "hackage", "https://hackage.haskell.org/package/x")
    );
    assert_eq!(
        from_hackage(&p, "x", &vec![]).check_error.as_deref(),
        Some("no hackage versions")
    );
    assert_eq!(
        told(from_maven(&p, "g", "a", &texts(&["2.0", "3.0"]))),
        as_told("2.0", "maven-central", "https://search.maven.org/artifact/g/a")
    );
    assert_eq!(
        from_maven(&p, "g", "a", &vec![]).check_error.as_deref(),
        Some("maven artifact not found")
    );
    assert_eq!(
        told(from_sourceforge(&p, "x", "/2.0/")),
        as_told("2.0", "sourceforge", "https://sourceforge.net/projects/x/files/")
    );
    assert_eq!(
        from_sourceforge(&p, "x", "").check_error.as_deref(),
        Some("could not parse SF version")
    );
}

#[test]
fn kernel_org() {
    let p = package("1.0");
    assert!(is_kernel(&p, "linux") && is_kernel(&p, "kernel") && !is_kernel(&p, "ethtool"));
    let i = from_kernelorg(&p, "x", r#"<a href="x-2.0.tar.xz">"#);
    assert_eq!(i.latest_version.as_deref(), Some("2.0"));
    assert_eq!(
        from_kernelorg(&p, "x", "").check_error.as_deref(),
        Some("could not parse kernel.org version")
    );
    let rel = |v: &str, m: &str| KernelRelease { version: v.to_string(), moniker: m.to_string() };
    let releases = vec![rel("6.9-rc1", "mainline"), rel("v6.8.1", "stable"), rel("6.6", "longterm")];
    let i = from_kernel_releases(&p, &releases);
    assert_eq!(i.latest_version.as_deref(), Some("6.8.1"));
    assert_eq!(
        from_kernel_releases(&p, &vec![]).check_error.as_deref(),
        Some("no stable kernel found")
    );
}

#[test]
fn repology_takes_the_newest_sensible_version() {
    let p = package("1.0");
    let pkg = |v: &str, s: Option<&str>| RepologyPackage {
        version: v.to_string(),
        status: s.map(|s| s.to_string()),
    };
    let packages = vec![
        pkg("1.5", Some("newest")),
        pkg("9.0", Some("outdated")),
        pkg("8.0", None),
        pkg("3.0.35.4.1.0", Some("newest")),
        pkg("10000.1", Some("newest")),
        pkg("1.6", Some("unique")),
    ];
    let i = from_repology(&p, &packages).unwrap();
    assert_eq!(i.latest_version.as_deref(), Some("1.6"));
    assert_eq!(i.upstream_url.as_deref(), Some("https://repology.org/project/my-pkg/versions"));
    assert_eq!(
        from_repology(&p, &vec![]).unwrap_err(),
        "no newest version in repology for My_Pkg"
    );
}

#[test]
fn anitya_prefers_the_project_of_the_host() {
    let p = with_url("1.0", "https://www.Example.com/dl");
    let project = |l: Option<&str>, v: Option<&str>, h: Option<&str>| AnityaProject {
        latest_version: l.map(|s| s.to_string()),
        version: v.map(|s| s.to_string()),
        homepage: h.map(|s| s.to_string()),
    };
    let items = vec![
        project(Some("9.0"), None, Some("https://other.org/")),
        project(None, Some("2.0"), Some("https://EXAMPLE.com/home")),
    ];
    let i = from_anitya(&p, &items).unwrap();
    assert_eq!(i.latest_version.as_deref(), Some("2.0"));
    assert_eq!(i.source_backend, "anitya");
    // without a match, the first one
    let i = from_anitya(&package("1.0"), &items).unwrap();
    assert_eq!(i.latest_version.as_deref(), Some("9.0"));
    assert_eq!(from_anitya(&p, &vec![]).unwrap_err(), "not found in anitya: pkg");
    assert_eq!(
        from_anitya(&p, &vec![project(None, None, None)]).unwrap_err(),
        "not found in anitya: pkg"
    );
    let hosts = vec![None, Some("b.org".to_string()), Some("x.b.org".to_string())];
    assert_eq!(choose_project(&hosts, &Some("b.org".to_string())), Some(1));
    assert_eq!(choose_project(&hosts, &Some("q".to_string())), Some(0));
    assert_eq!(choose_project(&vec![], &None), None);
}

#[test]
fn first_commit_of_a_list() {
    assert_eq!(first_commit(&texts(&["a", "b"])).unwrap(), "a");
    assert_eq!(first_commit(&vec![]).unwrap_err(), "no commits found");
}

use makefile_checker::makefile_parser::{
    classify_codeload, cpan_module, detect_source_type, parse_makefile, read_vars, SourceType,
    TagTemplate,
};
use makefile_checker::vars::VarMap;

fn at(url: &str) -> SourceType {
    detect_source_type(url, "1.0", "pkg", &VarMap::new())
}

#[test]
fn first_known_url_decides() {
    let p = parse_makefile(
        "p/Makefile",
        "PKG_NAME:=pkg\nPKG_VERSION:=1.0\n\
         PKG_SOURCE_URL:=ftp://nowhere/x https://static.crates.io/crates/foo/ \
         https://pypi.org/packages/source/b/bar/\n",
    )
    .unwrap();
    assert_eq!(p.source_type, SourceType::CratesIo { package: "foo".to_string() });
    // only web addresses count
    assert_eq!(p.source_urls.len(), 2);
    assert_eq!(p.source_url.as_deref(), Some("https://static.crates.io/crates/foo/"));
}

#[test]
fn blocks_under_a_condition_are_ignored() {
    let vars = read_vars("A:=1\nifdef X\nA:=2\nifeq (a,b)\nB:=3\nendif\nendif\nC:=4\n");
    assert_eq!(vars.get("A").unwrap(), "1");
    assert_eq!(vars.get("B"), None);
    assert_eq!(vars.get("C").unwrap(), "4");
}

#[test]
fn last_assignment_wins() {
    let vars = read_vars("A:=1\nA=2\nA ?= 3\nB ?=  x y \n# B:=z\n");
    assert_eq!(vars.get("A").unwrap(), "2");
    assert_eq!(vars.get("B").unwrap(), "x y");
}

#[test]
fn tags_and_hashes_are_no_versions() {
    let effective = |version: &str, source: &str| {
        let text = format!(
            "PKG_NAME:=pkg\nPKG_VERSION:={}\nPKG_SOURCE_VERSION:={}\n",
            version, source
        );
        parse_makefile("p/Makefile", &text).unwrap().effective_version()
    };
    assert_eq!(effective("1.0", "0123456789abcdef0123456789abcdef01234567"), "1.0");
    assert_eq!(effective("1.0", "v1.0"), "1.0");
    // a tag of another release is none either
    assert_eq!(effective("2.2.1", "v2.2.2"), "2.2.1");
    assert_eq!(effective("2.2.1", "V2.2.2"), "2.2.1");
    assert_eq!(effective("2.2.1", "rel_2_2_2"), "2.2.1");
    assert_eq!(effective("2.2.1", "2_2_2"), "2.2.1");
    assert_eq!(effective("2.2.1", "2.2.2"), "2.2.2");
}

#[test]
fn sourceforge_projects() {
    let project = |name: &str| SourceType::SourceForge { project: name.to_string() };
    assert_eq!(
        at("https://downloads.sourceforge.net/project/foo/foo/1.0/foo-1.0.tar.gz"),
        project("foo")
    );
    assert_eq!(at("https://downloads.sourceforge.net/foo/foo-1.0.tar.gz"), project("foo"));
    assert_eq!(at("https://downloads.sourceforge.net/foo"), project("foo"));
    assert_eq!(at("https://sourceforge.net/projects/foo/files/foo-1.0.tar.gz"), project("foo"));
    assert_eq!(at("https://downloads.sourceforge.net/project/"), project("project"));
    // only the download host has the word in front
    assert_eq!(at("https://sourceforge.net/projects/project/x"), project("project"));
    assert_eq!(at("https://sourceforge.net/project/foo/x"), project("foo"));
}

#[test]
fn hosts_of_cpan() {
    for host in ["www.cpan.org", "cpan.org", "cpan.metacpan.org", "metacpan.org", "search.cpan.org"] {
        let url = format!("https://{}/authors/id/G/GB/GBARR/Authen-SASL-2.16.tar.gz", host);
        assert_eq!(at(&url), SourceType::Cpan { module: "Authen-SASL".to_string() });
    }
    let url = "https://mycpan.org/authors/id/G/GB/GBARR/Authen-SASL-2.16.tar.gz";
    assert!(!matches!(at(url), SourceType::Cpan { .. }));
}

#[test]
fn cgit_snapshots_on_any_host() {
    let cgit = |url: &str| SourceType::Cgit { repo_url: url.to_string() };
    assert_eq!(
        at("https://cgit.example.org/foo.git/snapshot/foo-1.2.3.tar.gz"),
        cgit("https://cgit.example.org/foo.git")
    );
    assert_eq!(
        at("https://code.example.org/a/b.git/snapshot"),
        cgit("https://code.example.org/a/b.git")
    );
    assert_eq!(
        at("https://git.example.org/foo.git/snapshot/foo-1.2.3.tar.gz"),
        cgit("https://git.example.org/foo.git")
    );
    assert_ne!(
        at("https://code.example.org/a/b.git/log/"),
        cgit("https://code.example.org/a/b.git")
    );
}

#[test]
fn makefiles_of_no_package() {
    assert!(parse_makefile("Makefile", "all:\n\techo\n").is_none());
    assert!(parse_makefile("Makefile", "PKG_NAME:=x\n").is_none());
}

#[test]
fn archives_by_ref() {
    let part = |r: &str| {
        classify_codeload("o".to_string(), "r".to_string(), r.to_string(), "1.0")
    };
    let hash = "0123456789abcdef0123456789abcdef01234567";
    assert_eq!(
        part(hash),
        SourceType::GitHubCommit {
            owner: "o".to_string(),
            repo: "r".to_string(),
            commit: hash.to_string(),
        }
    );
    assert_eq!(
        part("v1.0"),
        SourceType::GitHubRelease {
            owner: "o".to_string(),
            repo: "r".to_string(),
            tag_template: TagTemplate::WithV,
        }
    );
}

#[test]
fn hosts_of_sources() {
    assert_eq!(
        at("https://rubygems.org/downloads/foo-1.0.gem"),
        SourceType::RubyGems { gem: "foo".to_string() }
    );
    assert_eq!(
        at("https://hackage.haskell.org/package/foo/bar"),
        SourceType::Hackage { package: "foo".to_string() }
    );
    assert_eq!(
        at("https://proxy.golang.org/github.com/a/b/@v/"),
        SourceType::GoModule { module: "github.com/a/b".to_string() }
    );
    assert_eq!(at("https://sources.openwrt.org/"), SourceType::OpenWrtMirror);
    assert_eq!(at("https://go.dev/dl/"), SourceType::GoLang);
    assert_eq!(
        at("https://cdn.kernel.org/pub/linux/utils/util-linux/"),
        SourceType::KernelOrg { package: "util-linux".to_string() }
    );
}

#[test]
fn modules_of_perl_packages() {
    let mut vars = VarMap::new();
    assert_eq!(cpan_module(&vars, "perl-foo-bar", "1.0"), "Foo-Bar");
    assert_eq!(cpan_module(&vars, "perl-ß-x", "1.0"), "SS-X");
    vars.insert("PKG_SOURCE".to_string(), "Foo-Baz-v1.0.tar.gz".to_string());
    assert_eq!(cpan_module(&vars, "perl-foo-bar", "1.0"), "Foo-Baz");
    vars.insert("PKG_SOURCE_NAME".to_string(), "Qux".to_string());
    assert_eq!(cpan_module(&vars, "perl-foo-bar", "1.0"), "Qux");
    vars.insert("PKG_SOURCE_NAME".to_string(), "$(NOPE)".to_string());
    assert_eq!(cpan_module(&vars, "perl-foo-bar", "1.0"), "Foo-Baz");
}

use makefile_checker::expand::expand_vars;
use makefile_checker::makefile_parser::{
    detect_source_type, detect_tag_template, parse_makefile, read_vars, SourceType, TagTemplate,
};
use makefile_checker::vars::VarMap;

fn detect(url: &str) -> SourceType {
    detect_source_type(url, "1.2.3", "mypkg", &VarMap::new())
}

// ── detect_source_type ────────────────────────────────────────────────

#[test]
fn test_github_release_v_prefix() {
    let st = detect("https://codeload.github.com/nicowillis/foo/tar.gz/v1.2.3");
    assert!(matches!(st, SourceType::GitHubRelease { .. }));
}

#[test]
fn test_github_release_plain() {
    let st = detect("https://codeload.github.com/nicowillis/foo/tar.gz/1.2.3");
    assert!(matches!(st, SourceType::GitHubRelease { .. }));
}

#[test]
fn test_github_commit() {
    let st = detect(
        "https://codeload.github.com/owner/repo/tar.gz/a1b2c3d4e5f6a1b2c3d4e5f6a1b2c3d4e5f6a1b2",
    );
    assert!(matches!(st, SourceType::GitHubCommit { .. }));
}

#[test]
fn test_tini_tag_not_overridden_by_pkg_source_version() {
    // tini: URL ref is "v0.19.0" (a tag), but PKG_SOURCE_VERSION is a commit hash.
    // Must be detected as GitHubRelease, not GitHubCommit.
    let mut vars = VarMap::new();
    vars.insert(
        "PKG_SOURCE_VERSION".to_string(),
        "de40ad007797e0dcd8b7126f27bb87401d224240".to_string(),
    );
    let st = detect_source_type(
        "https://codeload.github.com/krallin/tini/tar.gz/v0.19.0",
        "0.19.0",
        "tini",
        &vars,
    );
    assert!(
        matches!(st, SourceType::GitHubRelease { .. }),
        "expected GitHubRelease but got {:?}", st
    );
    if let SourceType::GitHubRelease { owner, repo, tag_template } = st {
        assert_eq!(owner, "krallin");
        assert_eq!(repo, "tini");
        assert!(matches!(tag_template, TagTemplate::WithV));
    }
}

#[test]
fn test_csshnpd_c_prefix_tag_template() {
    // csshnpd: PKG_SOURCE_URL=.../releases/download/c$(PKG_VERSION)
    // After expansion tag_ref = "c1.0.17", PKG_VERSION = "1.0.17"
    // Should be Custom("c${VERSION}") so that only c-prefixed releases are matched.
    let tmpl = detect_tag_template("c1.0.17", "1.0.17");
    assert!(
        matches!(&tmpl, TagTemplate::Custom(p) if p == "c${VERSION}"),
        "expected Custom(\"c${{VERSION}}\") but got {:?}", tmpl
    );
}

#[test]
fn test_boinc_path_tag_detected_as_tag_path() {
    // boinc: PKG_SOURCE_URL=https://github.com/BOINC/boinc (bare, no .git)
    //        PKG_SOURCE_VERSION=client_release/8.0/8.0.4
    //        PKG_VERSION=8.0.4
    // Should be GitHubTagPath with tag_path="client_release/"
    // so that client_release/8.2/8.2.9 is found as latest.
    let content = "\
PKG_NAME:=boinc\n\
PKG_VERSION:=8.0.4\n\
PKG_RELEASE:=1\n\
PKG_SOURCE_PROTO:=git\n\
PKG_SOURCE_URL:=https://github.com/BOINC/boinc\n\
PKG_SOURCE_VERSION:=client_release/8.0/8.0.4\n\
PKG_MIRROR_HASH:=abc123\n";
    let parsed = parse_makefile("boinc/Makefile", content).unwrap();
    assert!(
        matches!(&parsed.source_type, SourceType::GitHubTagPath { owner, repo, tag_path }
            if owner == "BOINC" && repo == "boinc" && tag_path == "client_release/"),
        "expected GitHubTagPath with tag_path=client_release/, got {:?}", parsed.source_type
    );
}

#[test]
fn test_lua_openssl_hyphen_version_tag() {
    // lua-openssl: PKG_SOURCE_VERSION=0.10.0-0, PKG_VERSION=$(subst -,.,$(PKG_SOURCE_VERSION))=0.10.0.0
    // Tag is "0.10.0-0" which is PKG_VERSION with last dot replaced by hyphen.
    // detect_tag_template must return Plain so find_best_tag matches "0.11.0-3" etc.
    let tmpl = detect_tag_template("0.10.0-0", "0.10.0.0");
    assert!(
        matches!(tmpl, TagTemplate::Plain),
        "expected Plain but got {:?}", tmpl
    );
}

#[test]
fn test_detect_tag_template_no_placeholder_falls_back_to_plain() {
    // When pkg_version does not appear inside ref_part, the last-resort Custom()
    // would produce a template without ${VERSION} which is useless.  Should be Plain.
    let tmpl = detect_tag_template("some-unrelated-tag", "1.2.3");
    assert!(
        matches!(tmpl, TagTemplate::Plain),
        "expected Plain fallback but got {:?}", tmpl
    );
}

#[test]
fn test_commit_hash_url_still_detected_as_commit() {
    // fft-eval / tac_plus pattern: URL ref IS the 40-char commit hash
    let mut vars = VarMap::new();
    vars.insert(
        "PKG_SOURCE_VERSION".to_string(),
        "4d3b6faee428e3bd9f44ab6a3d70585ec50484a1".to_string(),
    );
    let st = detect_source_type(
        "https://codeload.github.com/simonwunderlich/FFT_eval/tar.gz/4d3b6faee428e3bd9f44ab6a3d70585ec50484a1",
        "2019-11-27",
        "fft-eval",
        &vars,
    );
    assert!(
        matches!(st, SourceType::GitHubCommit { .. }),
        "expected GitHubCommit but got {:?}", st
    );
}

#[test]
fn test_gitlab() {
    let st = detect("https://gitlab.com/user/project/-/archive/v1.2.3/project-v1.2.3.tar.gz");
    assert!(matches!(st, SourceType::GitLab { .. }));
}

#[test]
fn test_bitbucket() {
    let st = detect("https://bitbucket.org/user/repo/get/v1.2.3.tar.gz");
    assert!(matches!(st, SourceType::BitBucket { .. }));
}

#[test]
fn test_gitea() {
    // Gitea archive URL: host must not be github/gitlab/bitbucket
    let st = detect("https://codeberg.org/owner/repo/archive/v1.2.3.tar.gz");
    assert!(matches!(st, SourceType::Gitea { .. }));
}

#[test]
fn test_sourceforge() {
    let st = detect("https://downloads.sourceforge.net/project/myproject/myproject-1.2.3.tar.gz");
    assert!(matches!(st, SourceType::SourceForge { .. }));
}

#[test]
fn test_pypi() {
    // Real pythonhosted URL structure: /packages/<py_ver>/<initial>/<pkg_name>/<file>
    let st = detect("https://files.pythonhosted.org/packages/source/r/requests/requests-1.2.3.tar.gz");
    assert!(matches!(st, SourceType::PyPI { .. }));
}

#[test]
fn test_cratesio() {
    let st = detect("https://static.crates.io/crates/serde/serde-1.2.3.crate");
    assert!(matches!(st, SourceType::CratesIo { .. }));
}

#[test]
fn test_npm() {
    let st = detect("https://registry.npmjs.org/lodash/-/lodash-1.2.3.tgz");
    assert!(matches!(st, SourceType::Npm { .. }));
}

#[test]
fn test_npm_tencent_mirror() {
    // mirrors.tencent.com/npm/<pkg>/-/ is a common CN mirror used by OpenWrt node packages
    let st = detect("https://mirrors.tencent.com/npm/argon2/-/argon2-0.44.0.tgz");
    assert!(matches!(st, SourceType::Npm { package } if package == "argon2"),
        "Tencent npm mirror should be detected as Npm source type");
}

#[test]
fn test_npm_npmmirror() {
    let st = detect("https://registry.npmmirror.com/alexa-app/-/alexa-app-4.2.3.tgz");
    assert!(matches!(st, SourceType::Npm { package } if package == "alexa-app"));
}

#[test]
fn test_npm_multi_url_tencent_first() {
    // Simulates the actual node-argon2 pattern: tencent mirror first, npmjs second.
    // The parser iterates source_urls and should find Npm from the first URL.
    let url = "https://mirrors.tencent.com/npm/argon2/-/ https://registry.npmjs.org/argon2/-/";
    let source_urls: Vec<String> = url.split_whitespace()
        .filter(|u| u.starts_with("http"))
        .map(|u| u.to_string())
        .collect();
    let source_type = source_urls
        .iter()
        .map(|u| detect_source_type(u, "0.44.0", "node-argon2", &VarMap::new()))
        .find(|t| !matches!(t, SourceType::Unknown))
        .unwrap_or(SourceType::Unknown);
    assert!(matches!(source_type, SourceType::Npm { package } if package == "argon2"),
        "Should detect Npm from tencent mirror (first URL) without needing npmjs.org");
}

#[test]
fn test_rubygems() {
    let st = detect("https://rubygems.org/gems/rails-1.2.3.gem");
    assert!(matches!(st, SourceType::RubyGems { .. }));
}

#[test]
fn test_hackage() {
    let st = detect("https://hackage.haskell.org/package/aeson-1.2.3/aeson-1.2.3.tar.gz");
    assert!(matches!(st, SourceType::Hackage { .. }));
}

#[test]
fn test_kernelorg() {
    let st = detect("https://www.kernel.org/pub/linux/utils/util-linux/v2.38/util-linux-2.38.tar.gz");
    assert!(matches!(st, SourceType::KernelOrg { .. }));
}

#[test]
fn test_cgit() {
    let st = detect("https://git.kernel.org/pub/scm/utils/dtc/dtc.git/snapshot/dtc-1.6.1.tar.gz");
    assert!(matches!(st, SourceType::Cgit { .. }));
}

#[test]
fn test_gomodule() {
    let st = detect("https://proxy.golang.org/github.com/foo/bar/@v/v1.2.3.zip");
    assert!(matches!(st, SourceType::GoModule { .. }));
}

#[test]
fn test_unknown() {
    let st = detect("https://example.com/some/random/url/file.tar.gz");
    assert!(matches!(st, SourceType::Unknown));
}

// ── multi-URL parsing ─────────────────────────────────────────────────

#[test]
fn test_multi_url_first_wins() {
    // First URL is GitHub, second is SourceForge
    let url = "https://codeload.github.com/owner/repo/tar.gz/v1.2.3 https://downloads.sourceforge.net/project/foo/foo-1.2.3.tar.gz";
    let mut vars = VarMap::new();
    vars.insert("PKG_SOURCE_URL".to_string(), url.to_string());
    // Simulate what parse_makefile does
    let source_urls: Vec<String> = url
        .split_whitespace()
        .map(|u| u.to_string())
        .collect();
    let source_type = source_urls
        .iter()
        .map(|u| detect_source_type(u, "1.2.3", "repo", &vars))
        .find(|t| !matches!(t, SourceType::Unknown))
        .unwrap_or(SourceType::Unknown);
    assert!(matches!(source_type, SourceType::GitHubRelease { .. }));
}

#[test]
fn test_multi_url_fallback_to_second() {
    // First URL is unrecognised, second is PyPI with correct path structure
    let url = "https://example.com/random.tar.gz https://files.pythonhosted.org/packages/source/r/requests/requests-1.2.3.tar.gz";
    let vars = VarMap::new();
    let source_urls: Vec<String> = url.split_whitespace().map(|u| u.to_string()).collect();
    let source_type = source_urls
        .iter()
        .map(|u| detect_source_type(u, "1.2.3", "requests", &vars))
        .find(|t| !matches!(t, SourceType::Unknown))
        .unwrap_or(SourceType::Unknown);
    assert!(matches!(source_type, SourceType::PyPI { .. }));
}

// ── expand_vars ───────────────────────────────────────────────────────

#[test]
fn test_expand_vars_simple() {
    let mut vars = VarMap::new();
    vars.insert("PKG_VERSION".to_string(), "1.2.3".to_string());
    let result = expand_vars("https://example.com/pkg-$(PKG_VERSION).tar.gz", &vars);
    assert_eq!(result, "https://example.com/pkg-1.2.3.tar.gz");
}

#[test]
fn test_expand_vars_curly() {
    let mut vars = VarMap::new();
    vars.insert("PKG_NAME".to_string(), "myapp".to_string());
    let result = expand_vars("https://example.com/${PKG_NAME}/", &vars);
    assert_eq!(result, "https://example.com/myapp/");
}

#[test]
fn test_expand_vars_missing() {
    let vars = VarMap::new();
    let result = expand_vars("https://example.com/$(MISSING)/file.tar.gz", &vars);
    assert_eq!(result, "https://example.com/$(MISSING)/file.tar.gz");
}

// ── Make function: subst ──────────────────────────────────────────────

#[test]
fn test_make_subst_basic() {
    let vars = VarMap::new();
    // $(subst ee,EE,feet on the street) -> fEEt on the strEEt
    let r = expand_vars("$(subst ee,EE,feet on the street)", &vars);
    assert_eq!(r, "fEEt on the strEEt");
}

#[test]
fn test_make_subst_remove() {
    // $(subst linux,,3.2p4linux) -> 3.2p4   (hfsprogs pattern)
    let vars = VarMap::new();
    let r = expand_vars("$(subst linux,,3.2p4linux)", &vars);
    assert_eq!(r, "3.2p4");
}

#[test]
fn test_make_subst_char_replace() {
    // $(subst p,.,3p2p4) -> 3.2.4  (owfs pattern)
    let vars = VarMap::new();
    let r = expand_vars("$(subst p,.,3p2p4)", &vars);
    assert_eq!(r, "3.2.4");
}

#[test]
fn test_make_subst_with_var() {
    // $(subst p,.,$(PKG_REAL_VERSION))  ->  3.2.4
    let mut vars = VarMap::new();
    vars.insert("PKG_REAL_VERSION".to_string(), "3p2p4".to_string());
    let r = expand_vars("$(subst p,.,$(PKG_REAL_VERSION))", &vars);
    assert_eq!(r, "3.2.4");
}

// ── Make function: word ───────────────────────────────────────────────

#[test]
fn test_make_word() {
    let vars = VarMap::new();
    let r = expand_vars("$(word 2,foo bar baz)", &vars);
    assert_eq!(r, "bar");
}

#[test]
fn test_make_word_with_subst() {
    // softethervpn pattern: $(word 1,$(subst -, ,v4.44-9807))
    let vars = VarMap::new();
    let r = expand_vars("$(word 1,$(subst -, ,v4.44-9807))", &vars);
    assert_eq!(r, "v4.44");
}

#[test]
fn test_make_firstword() {
    let vars = VarMap::new();
    let r = expand_vars("$(firstword alpha beta gamma)", &vars);
    assert_eq!(r, "alpha");
}

#[test]
fn test_make_lastword() {
    let vars = VarMap::new();
    let r = expand_vars("$(lastword alpha beta gamma)", &vars);
    assert_eq!(r, "gamma");
}

#[test]
fn test_make_words_count() {
    let vars = VarMap::new();
    let r = expand_vars("$(words one two three)", &vars);
    assert_eq!(r, "3");
}

// ── Make function: patsubst ───────────────────────────────────────────

#[test]
fn test_make_patsubst_percent() {
    let vars = VarMap::new();
    // $(patsubst %.c,%.o,foo.c bar.c) -> foo.o bar.o
    let r = expand_vars("$(patsubst %.c,%.o,foo.c bar.c)", &vars);
    assert_eq!(r, "foo.o bar.o");
}

#[test]
fn test_make_patsubst_no_match() {
    let vars = VarMap::new();
    let r = expand_vars("$(patsubst %.c,%.o,foo.h)", &vars);
    assert_eq!(r, "foo.h");
}

// ── Make function: strip ──────────────────────────────────────────────

#[test]
fn test_make_strip() {
    let vars = VarMap::new();
    let r = expand_vars("$(strip  a  b   c  )", &vars);
    assert_eq!(r, "a b c");
}

// ── Make function: filter / filter-out ───────────────────────────────

#[test]
fn test_make_filter() {
    let vars = VarMap::new();
    let r = expand_vars("$(filter %.c,foo.c bar.h baz.c)", &vars);
    assert_eq!(r, "foo.c baz.c");
}

#[test]
fn test_make_filter_out() {
    let vars = VarMap::new();
    let r = expand_vars("$(filter-out %.c,foo.c bar.h baz.c)", &vars);
    assert_eq!(r, "bar.h");
}

// ── Make function: addsuffix / addprefix ─────────────────────────────

#[test]
fn test_make_addsuffix() {
    let vars = VarMap::new();
    let r = expand_vars("$(addsuffix .c,foo bar)", &vars);
    assert_eq!(r, "foo.c bar.c");
}

#[test]
fn test_make_addprefix() {
    let vars = VarMap::new();
    let r = expand_vars("$(addprefix src/,foo.c bar.c)", &vars);
    assert_eq!(r, "src/foo.c src/bar.c");
}

// ── Substitution reference $(VAR:pat=rep) ─────────────────────────────

#[test]
fn test_subst_ref() {
    let mut vars = VarMap::new();
    vars.insert("SRCS".to_string(), "foo.c bar.c".to_string());
    let r = expand_vars("$(SRCS:.c=.o)", &vars);
    assert_eq!(r, "foo.o bar.o");
}

// ── ?= and += assignment ──────────────────────────────────────────────

#[test]
fn test_conditional_assign() {
    // ?= should NOT overwrite existing value
    let vars = read_vars("FOO:=original\nFOO?=new\n");
    assert_eq!(vars.get("FOO").unwrap(), "original");
}

#[test]
fn test_append_assign() {
    let vars = read_vars("LIST:=a\nLIST+=b\n");
    assert_eq!(vars.get("LIST").unwrap(), "a b");
}

// ── Real OpenWrt patterns ─────────────────────────────────────────────

#[test]
fn test_owfs_version() {
    // owfs: PKG_REAL_VERSION = 3p2p4
    //       PKG_VERSION = $(subst p,.,$(PKG_REAL_VERSION))  -> 3.2.4
    let mut vars = VarMap::new();
    vars.insert("PKG_REAL_VERSION".to_string(), "3p2p4".to_string());
    vars.insert("PKG_VERSION".to_string(), "$(subst p,.,$(PKG_REAL_VERSION))".to_string());
    let ver = expand_vars(&vars.get("PKG_VERSION").unwrap(), &vars);
    assert_eq!(ver, "3.2.4");
}

#[test]
fn test_hfsprogs_version() {
    // hfsprogs: PKG_REAL_VERSION = 627.40.1-linux
    //           PKG_VERSION = $(subst linux,,$(PKG_REAL_VERSION)) -> 627.40.1-
    let mut vars = VarMap::new();
    vars.insert("PKG_REAL_VERSION".to_string(), "627.40.1-linux".to_string());
    vars.insert("PKG_VERSION".to_string(), "$(subst linux,,$(PKG_REAL_VERSION))".to_string());
    let ver = expand_vars(&vars.get("PKG_VERSION").unwrap(), &vars);
    assert_eq!(ver, "627.40.1-");
}

#[test]
fn test_softethervpn_version() {
    // PKG_REALVERSION = v4.44-9807
    // PKG_VERSION = $(word 1,$(subst -, ,$(PKG_REALVERSION))) -> v4.44
    let mut vars = VarMap::new();
    vars.insert("PKG_REALVERSION".to_string(), "v4.44-9807".to_string());
    vars.insert("PKG_VERSION".to_string(),
        "$(word 1,$(subst -, ,$(PKG_REALVERSION)))".to_string());
    let ver = expand_vars(&vars.get("PKG_VERSION").unwrap(), &vars);
    assert_eq!(ver, "v4.44");
}

#[test]
fn test_multivar_version() {
    // qt6tools pattern: PKG_BASE = 6.11  PKG_BUGFIX = 0
    // PKG_VERSION = $(PKG_BASE).$(PKG_BUGFIX)  -> 6.11.0
    let mut vars = VarMap::new();
    vars.insert("PKG_BASE".to_string(), "6.11".to_string());
    vars.insert("PKG_BUGFIX".to_string(), "0".to_string());
    vars.insert("PKG_VERSION".to_string(), "$(PKG_BASE).$(PKG_BUGFIX)".to_string());
    let ver = expand_vars(&vars.get("PKG_VERSION").unwrap(), &vars);
    assert_eq!(ver, "6.11.0");
}

#[test]
fn test_modclean_version() {
    // node-modclean: PKG_REALVERSION = 3.0.0-beta.1
    // PKG_VERSION = $(subst -beta.,_beta,$(PKG_REALVERSION)) -> 3.0.0_beta1
    let mut vars = VarMap::new();
    vars.insert("PKG_NPM_NAME".to_string(), "modclean".to_string());
    vars.insert("PKG_NAME".to_string(), "node-$(PKG_NPM_NAME)".to_string());
    vars.insert("PKG_REALVERSION".to_string(), "3.0.0-beta.1".to_string());
    vars.insert("PKG_VERSION".to_string(),
        "$(subst -beta.,_beta,$(PKG_REALVERSION))".to_string());
    vars.insert("PKG_SOURCE".to_string(),
        "$(PKG_NPM_NAME)-$(PKG_REALVERSION).tgz".to_string());

    let name = expand_vars(&vars.get("PKG_NAME").unwrap(), &vars);
    let ver  = expand_vars(&vars.get("PKG_VERSION").unwrap(), &vars);
    let src  = expand_vars(&vars.get("PKG_SOURCE").unwrap(), &vars);

    assert_eq!(name, "node-modclean");
    assert_eq!(ver,  "3.0.0_beta1");
    assert_eq!(src,  "modclean-3.0.0-beta.1.tgz");
}

// ── Variable-based fallback source type detection ─────────────────────

fn parse_fake(extra_vars: &[(&str, &str)]) -> SourceType {
    let mut content = String::from("PKG_NAME:=test-pkg\nPKG_VERSION:=1.0.0\n");
    for (k, v) in extra_vars {
        content.push_str(&format!("{}:={}\n", k, v));
    }
    parse_makefile("test/Makefile", &content).unwrap().source_type
}

#[test]
fn test_fallback_pypi_name() {
    let st = parse_fake(&[("PYPI_NAME", "cryptography")]);
    assert!(matches!(st, SourceType::PyPI { package } if package == "cryptography"),
        "PYPI_NAME should trigger PyPI source type");
}

#[test]
fn test_fallback_metacpan_name() {
    let st = parse_fake(&[("METACPAN_NAME", "URI"), ("METACPAN_AUTHOR", "OALDERS")]);
    assert!(matches!(st, SourceType::Cpan { module } if module == "URI"),
        "METACPAN_NAME should trigger Cpan source type");
}

#[test]
fn test_fallback_pecl_name() {
    let st = parse_fake(&[("PECL_NAME", "redis")]);
    assert!(matches!(st, SourceType::Pecl { package } if package == "redis"),
        "PECL_NAME should trigger Pecl source type");
}

#[test]
fn test_fallback_scoped_npm() {
    let st = parse_fake(&[("PKG_NPM_SCOPE", "azure"), ("PKG_NPM_NAME", "event-hubs")]);
    assert!(matches!(st, SourceType::Npm { package } if package == "@azure/event-hubs"),
        "PKG_NPM_SCOPE + PKG_NPM_NAME should produce @scope/name");
}

#[test]
fn test_fallback_unscoped_npm() {
    let st = parse_fake(&[("PKG_NPM_NAME", "lodash")]);
    assert!(matches!(st, SourceType::Npm { package } if package == "lodash"),
        "PKG_NPM_NAME alone should trigger Npm source type");
}

// ── GitHub releases/download and bare .git URL ────────────────────────

#[test]
fn test_github_releases_download_with_v_prefix() {
    // mac80211: releases/download/backports-v6.18.7 (custom prefix)
    let st = detect_source_type(
        "https://github.com/openwrt/backports/releases/download/backports-v6.18.7",
        "6.18.7", "mac80211", &VarMap::new(),
    );
    assert!(matches!(st, SourceType::GitHubRelease { owner, repo, tag_template }
        if owner == "openwrt" && repo == "backports"
        && matches!(tag_template, TagTemplate::Custom(_))),
        "releases/download with custom prefix should be GitHubRelease Custom");
}

#[test]
fn test_github_releases_download_plain_v() {
    // pcapplusplus: releases/download/v21.11
    let st = detect_source_type(
        "https://github.com/seladb/PcapPlusPlus/releases/download/v21.11/",
        "21.11", "pcapplusplus", &VarMap::new(),
    );
    assert!(matches!(st, SourceType::GitHubRelease { owner, repo, tag_template }
        if owner == "seladb" && repo == "PcapPlusPlus"
        && matches!(tag_template, TagTemplate::WithV)),
        "releases/download with v prefix should be GitHubRelease WithV");
}

#[test]
fn test_fallback_github_git_commit() {
    // lua-md5: PKG_SOURCE_URL ends in .git, PKG_SOURCE_VERSION is commit hash
    let st = parse_fake(&[
        ("PKG_SOURCE_URL", "https://github.com/keplerproject/md5.git"),
        ("PKG_SOURCE_VERSION", "2a98633d7587a4900cfa7cbed340f377f4acd930"),
    ]);
    assert!(matches!(st, SourceType::GitHubCommit { owner, repo, .. }
        if owner == "keplerproject" && repo == "md5"),
        "github.com/*.git + commit hash should be GitHubCommit");
}

#[test]
fn test_fallback_github_git_tag() {
    // ls-mc: PKG_SOURCE_URL ends in .git, PKG_SOURCE_VERSION is tag
    let st = parse_fake(&[
        ("PKG_SOURCE_URL", "https://github.com/NXP/qoriq-mc-binary.git"),
        ("PKG_SOURCE_VERSION", "mc_release_10.39.0"),
    ]);
    assert!(matches!(st, SourceType::GitHubRelease { owner, repo, .. }
        if owner == "NXP" && repo == "qoriq-mc-binary"),
        "github.com/*.git + tag string should be GitHubRelease");
}

#[test]
fn test_fallback_cpan_dir_url_with_source_name() {
    // perl-authen-sasl: URL is author directory, module name in PKG_SOURCE_NAME
    let st = parse_fake(&[
        ("PKG_SOURCE_URL", "https://www.cpan.org/authors/id/G/GB/GBARR/"),
        ("PKG_SOURCE_NAME", "Authen-SASL"),
    ]);
    assert!(matches!(st, SourceType::Cpan { module } if module == "Authen-SASL"),
        "cpan.org directory URL + PKG_SOURCE_NAME should give Cpan");
}

#[test]
fn test_fallback_cpan_metacpan_dir_url() {
    // perl-future: cpan.metacpan.org directory URL
    let st = parse_fake(&[
        ("PKG_SOURCE_URL", "https://cpan.metacpan.org/authors/id/P/PE/PEVANS"),
        ("PKG_SOURCE_NAME", "Future"),
    ]);
    assert!(matches!(st, SourceType::Cpan { module } if module == "Future"),
        "cpan.metacpan.org directory URL + PKG_SOURCE_NAME should give Cpan");
}

#[test]
fn test_fallback_github_bare_url_with_pkg_source_version_commit() {
    // fman-ucode: github.com/nxp-qoriq/qoriq-fm-ucode (no .git, no path)
    let st = parse_fake(&[
        ("PKG_SOURCE_URL", "https://github.com/nxp-qoriq/qoriq-fm-ucode"),
        ("PKG_SOURCE_VERSION", "1a2b3c4d5e6f7890abcdef1234567890abcdef12"),
    ]);
    assert!(matches!(st, SourceType::GitHubCommit { owner, repo, .. }
        if owner == "nxp-qoriq" && repo == "qoriq-fm-ucode"),
        "github.com bare URL + commit hash should be GitHubCommit");
}

// ── CPAN PKG_SOURCE extraction ─────────────────────────────────────────

#[test]
fn test_cpan_from_pkg_source() {
    // perl-cgi: PKG_SOURCE:=CGI-$(PKG_VERSION).tar.gz, URL is cpan.org dir
    let st = parse_fake(&[
        ("PKG_SOURCE_URL", "https://www.cpan.org/authors/id/L/LE/LEEJO"),
        ("PKG_SOURCE", "CGI-5.1.tar.gz"),
        ("PKG_VERSION", "5.1"),
    ]);
    assert!(matches!(st, SourceType::Cpan { module } if module == "CGI"),
        "PKG_SOURCE should yield module name CGI");
}

#[test]
fn test_cpan_from_pkg_source_v_prefix() {
    // perl-ack: PKG_SOURCE:=ack-v$(PKG_VERSION).tar.gz
    let st = parse_fake(&[
        ("PKG_SOURCE_URL", "https://www.cpan.org/authors/id/P/PE/PETDANCE/"),
        ("PKG_SOURCE", "ack-v3.7.0.tar.gz"),
        ("PKG_VERSION", "3.7.0"),
    ]);
    assert!(matches!(st, SourceType::Cpan { module } if module == "ack"),
        "PKG_SOURCE with v-prefix should yield module name ack");
}

#[test]
fn test_cpan_search_cpan_org() {
    // perl-file-rsyncp: search.cpan.org/CPAN/authors/id/.../
    let st = parse_fake(&[
        ("PKG_SOURCE_URL", "https://search.cpan.org/CPAN/authors/id/C/CB/CBARRATT/"),
        ("PKG_SOURCE", "File-RsyncP-0.70.tar.gz"),
        ("PKG_VERSION", "0.70"),
    ]);
    assert!(matches!(st, SourceType::Cpan { module } if module == "File-RsyncP"),
        "search.cpan.org/CPAN/authors/ should match RE_CPAN_DIR");
}

// ── GitLab bare .git URL ───────────────────────────────────────────────

#[test]
fn test_gitlab_bare_git_url_with_tag() {
    // mox-pkcs11: https://gitlab.nic.cz/turris/mox-pkcs11.git, PKG_SOURCE_VERSION=v2.0
    let st = parse_fake(&[
        ("PKG_SOURCE_URL", "https://gitlab.nic.cz/turris/mox-pkcs11.git"),
        ("PKG_SOURCE_VERSION", "v2.0"),
        ("PKG_VERSION", "2.0"),
    ]);
    assert!(matches!(st, SourceType::GitLab { host, owner: _, repo, tag_template }
        if host == "gitlab.nic.cz" && repo == "mox-pkcs11"
        && matches!(tag_template, TagTemplate::WithV)),
        "gitlab.<host>/*.git + v-prefixed version should be GitLab WithV");
}

#[test]
fn test_gitlab_com_bare_git_url() {
    // vrx518: https://gitlab.com/prpl-foundation/intel/vrx518_aca_fw.git
    let st = parse_fake(&[
        ("PKG_SOURCE_URL", "https://gitlab.com/prpl-foundation/intel/vrx518_aca_fw.git"),
        ("PKG_SOURCE_VERSION", "abc1234567890abcdef1234567890abcdef123456"),
    ]);
    // Should be GitLab (commit case uses Plain tag template as fallback)
    assert!(matches!(st, SourceType::GitLab { host, repo, .. }
        if host == "gitlab.com" && repo == "vrx518_aca_fw"),
        "gitlab.com/group/subgroup/repo.git should be GitLab with correct repo name");
}

// ── GitHub /archive/VERSION (no extension) ────────────────────────────

#[test]
fn test_github_archive_no_extension() {
    // checksec: https://github.com/slimm609/checksec.sh/archive/2.5.0
    let st = detect_source_type(
        "https://github.com/slimm609/checksec.sh/archive/2.5.0",
        "2.5.0", "checksec", &VarMap::new(),
    );
    assert!(matches!(st, SourceType::GitHubRelease { owner, repo, tag_template }
        if owner == "slimm609" && repo == "checksec.sh"
        && matches!(tag_template, TagTemplate::Plain)),
        "github.com/archive/<version> without extension should be GitHubRelease");
}

// ── golang go.dev/dl/ ─────────────────────────────────────────────────

#[test]
fn test_golang_dl_url() {
    let st = detect_source_type(
        "https://go.dev/dl/",
        "1.26.1", "golang1.26", &VarMap::new(),
    );
    assert!(matches!(st, SourceType::GoLang),
        "go.dev/dl/ should be GoLang");
}

#[test]
fn test_golang_cn_dl_url() {
    let st = detect_source_type(
        "https://golang.google.cn/dl/",
        "1.26.1", "golang1.26", &VarMap::new(),
    );
    assert!(matches!(st, SourceType::GoLang),
        "golang.google.cn/dl/ should be GoLang");
}

// ── freedesktop.org ───────────────────────────────────────────────────

#[test]
fn test_freedesktop_gstreamer() {
    let st = detect_source_type(
        "https://gstreamer.freedesktop.org/src/gst-plugins-base",
        "1.24.0", "gst1-plugins-base", &VarMap::new(),
    );
    assert!(matches!(st, SourceType::Freedesktop { project } if project == "gst-plugins-base"),
        "freedesktop.org/src/<name> should capture last segment as project");
}

// ── sources.openwrt.org → OpenWrtMirror ───────────────────────────────

#[test]
fn test_openwrt_sources_url() {
    // ltq-adsl-fw: https://sources.openwrt.org/
    let st = detect_source_type(
        "https://sources.openwrt.org/",
        "1.0", "ltq-adsl-fw", &VarMap::new(),
    );
    assert!(matches!(st, SourceType::OpenWrtMirror),
        "sources.openwrt.org should map to OpenWrtMirror");
}

// ── googlesource.com → GoogleSource ───────────────────────────────────

#[test]
fn test_googlesource_adb() {
    // adb: https://android.googlesource.com/platform/system/core
    let st = detect_source_type(
        "https://android.googlesource.com/platform/system/core",
        "5.0.2", "adb", &VarMap::new(),
    );
    assert!(matches!(st, SourceType::GoogleSource { repo_url }
        if repo_url.contains("googlesource.com")),
        "googlesource.com URL should be GoogleSource");
}

// ── obfs4proxy: expand $(PKG_NAME) in gitlab URL ───────────────────────

// ── codeberg.org /archive/ref (no extension) ─────────────────────────

#[test]
fn test_codeberg_archive_no_ext() {
    // schroot: https://codeberg.org/shelter/reschroot/archive/release
    let st = detect_source_type(
        "https://codeberg.org/shelter/reschroot/archive/release",
        "1.6.13", "schroot", &VarMap::new(),
    );
    assert!(matches!(st, SourceType::Gitea { host, owner, repo, .. }
        if host == "codeberg.org" && owner == "shelter" && repo == "reschroot"),
        "codeberg.org /archive/<ref> without .tar should be Gitea");
}

#[test]
fn test_ltq_ifxos_gitlab_ugw_version() {
    // ltq-ifxos: PKG_SOURCE_URL uses $(PKG_NAME) and $(UGW_VERSION) which both expand
    // UGW_VERSION=8.5.2.10 → URL: gitlab.com/.../ifxos/-/archive/ugw_8.5.2.10/
    let st = parse_fake(&[
        ("PKG_NAME", "ifxos"),
        ("PKG_SOURCE_URL", "https://gitlab.com/prpl-foundation/intel/$(PKG_NAME)/-/archive/ugw_$(UGW_VERSION)/"),
        ("UGW_VERSION", "8.5.2.10"),
        ("PKG_VERSION", "8.5.2.10"),
    ]);
    assert!(matches!(st, SourceType::GitLab { host, repo, .. }
        if host == "gitlab.com" && repo == "ifxos"),
        "gitlab.com /-/archive/ with UGW_VERSION should expand and match GitLab");
}

#[test]
fn test_obfs4proxy_gitlab_with_pkg_name() {
    // PKG_SOURCE_URL:=https://gitlab.com/yawning/obfs4/-/archive/$(PKG_NAME)-$(PKG_VERSION)/
    // After expansion: .../archive/obfs4proxy-0.0.14/
    let st = parse_fake(&[
        ("PKG_SOURCE_URL", "https://gitlab.com/yawning/obfs4/-/archive/$(PKG_NAME)-$(PKG_VERSION)/"),
        ("PKG_VERSION", "0.0.14"),
    ]);
    // parse_fake sets PKG_NAME from the map; here pkg_name comes from the fake filename
    // The URL still has unexpanded $(PKG_NAME) but expand_vars should resolve it from vars
    assert!(matches!(st, SourceType::GitLab { host, owner, repo, .. }
        if host == "gitlab.com" && owner == "yawning" && repo == "obfs4"),
        "gitlab.com /-/archive/ should be GitLab even when tag contains pkg_name");
}

#[test]
fn test_no_source() {
    // mwan3, travelmate: no PKG_SOURCE_URL at all
    let st = parse_fake(&[]);
    assert!(matches!(st, SourceType::NoSource),
        "empty PKG_SOURCE_URL should give NoSource");
}

#[test]
fn test_openwrt_mirror() {
    // ltq-adsl, fibocom: @OPENWRT private mirror
    let st = parse_fake(&[("PKG_SOURCE_URL", "@OPENWRT")]);
    assert!(matches!(st, SourceType::OpenWrtMirror),
        "@OPENWRT should give OpenWrtMirror");
}

#[test]
fn test_immortalwrt_mirror() {
    let st = parse_fake(&[("PKG_SOURCE_URL", "@IMMORTALWRT")]);
    assert!(matches!(st, SourceType::OpenWrtMirror),
        "@IMMORTALWRT should give OpenWrtMirror");
}

#[test]
fn test_gnu_mirror() {
    // libtool: @GNU/libtool
    let st = parse_fake(&[("PKG_SOURCE_URL", "@GNU/libtool")]);
    assert!(matches!(st, SourceType::GnuMirror { mirror, package }
        if mirror == "GNU" && package == "libtool"),
        "@GNU/<name> should give GnuMirror");
}

#[test]
fn test_gnome_mirror() {
    // libsoup3: @GNOME/libsoup/3.6
    let st = parse_fake(&[("PKG_SOURCE_URL", "@GNOME/libsoup/3.6")]);
    assert!(matches!(st, SourceType::GnuMirror { mirror, package }
        if mirror == "GNOME" && package == "libsoup"),
        "@GNOME/<name>/... should give GnuMirror with first segment");
}

#[test]
fn test_apache_mirror() {
    // apr: @APACHE/apr/
    let st = parse_fake(&[("PKG_SOURCE_URL", "@APACHE/apr/")]);
    assert!(matches!(st, SourceType::GnuMirror { mirror, package }
        if mirror == "APACHE" && package == "apr"),
        "@APACHE/<name>/ should give GnuMirror");
}

#[test]
fn test_custom_url() {
    // bird2: https://bird.nic.cz/download/
    let st = parse_fake(&[("PKG_SOURCE_URL", "https://bird.nic.cz/download/")]);
    assert!(matches!(st, SourceType::CustomUrl { url } if url.contains("bird.nic.cz")),
        "unrecognised HTTP URL should give CustomUrl");
}

#[test]
fn test_at_sf_macro_sourceforge() {
    // dejavu-fonts-ttf: PKG_SOURCE_URL:=@SF/dejavu
    let st = parse_fake(&[("PKG_SOURCE_URL", "@SF/dejavu")]);
    assert!(matches!(st, SourceType::SourceForge { project } if project == "dejavu"),
        "@SF/<project> should map to SourceForge");
}

#[test]
fn test_at_sf_macro_with_subpath() {
    // emailrelay: PKG_SOURCE_URL:=@SF/emailrelay/1.9.2
    let st = parse_fake(&[("PKG_SOURCE_URL", "@SF/emailrelay/1.9.2")]);
    assert!(matches!(st, SourceType::SourceForge { project } if project == "emailrelay"),
        "@SF/<project>/<subpath> should use first segment as project");
}

#[test]
fn test_at_sf_project_prefix() {
    // libsoxr: PKG_SOURCE_URL:=@SF/project/soxr/
    let st = parse_fake(&[("PKG_SOURCE_URL", "@SF/project/soxr/")]);
    assert!(matches!(st, SourceType::SourceForge { project } if project == "soxr"),
        "@SF/project/<name> should skip 'project' and use second segment");
}

#[test]
fn test_codeload_zip_url() {
    // nlohmannjson: codeload.github.com/.../zip/v1.0.0?
    let st = detect_source_type(
        "https://codeload.github.com/nlohmann/json/zip/v1.0.0",
        "1.0.0", "nlohmannjson", &VarMap::new(),
    );
    assert!(matches!(st, SourceType::GitHubRelease { owner, repo, tag_template }
        if owner == "nlohmann" && repo == "json"
        && matches!(tag_template, TagTemplate::WithV)),
        "codeload zip URL should be detected as GitHubRelease");
}

#[test]
fn test_bitbucket_downloads_dir() {
    // lua-bencode: bitbucket.org/wilhelmy/lua-bencode/downloads/
    let st = detect_source_type(
        "https://bitbucket.org/wilhelmy/lua-bencode/downloads/",
        "2.2.0", "lua-bencode", &VarMap::new(),
    );
    assert!(matches!(st, SourceType::BitBucket { owner, repo, .. }
        if owner == "wilhelmy" && repo == "lua-bencode"),
        "bitbucket.org/.../downloads/ should be detected as BitBucket");
}

#[test]
fn test_fallback_github_bare_url_with_tag() {
    // ls-rcw: github.com/nxp-qoriq/rcw (no .git, no path), tag-like version
    let st = parse_fake(&[
        ("PKG_SOURCE_URL", "https://github.com/nxp-qoriq/rcw"),
        ("PKG_SOURCE_VERSION", "LSDK-21.08"),
    ]);
    assert!(matches!(st, SourceType::GitHubRelease { owner, repo, .. }
        if owner == "nxp-qoriq" && repo == "rcw"),
        "github.com bare URL + tag string should be GitHubRelease");
}

#[test]
fn test_bcm27xx_gpu_fw_nodot_version() {
    // bcm27xx-gpu-fw: PKG_VERSION=2025.04.30
    // PKG_VERSION_REAL = 1.$(subst .,,$(PKG_VERSION)) = 1.20250430
    // PKG_SOURCE_URL = https://github.com/raspberrypi/firmware/releases/download/1.20250430
    // Expected: GitHubRelease with Custom("1.${VERSION_NODOT}") template
    let st = detect_source_type(
        "https://github.com/raspberrypi/firmware/releases/download/1.20250430",
        "2025.04.30", "bcm27xx-gpu-fw", &VarMap::new(),
    );
    assert!(
        matches!(&st, SourceType::GitHubRelease { owner, repo, tag_template }
            if owner == "raspberrypi" && repo == "firmware"
            && matches!(tag_template, TagTemplate::Custom(p) if p.contains("${VERSION_NODOT}"))),
        "bcm27xx-gpu-fw nodot URL should produce Custom(VERSION_NODOT) template, got {:?}", st
    );
}

// ── detect_tag_template: prefixed-tag family (tfa-layerscape / uboot-layerscape) ──

#[test]
fn test_detect_tag_template_lf_prefix() {
    // PKG_VERSION=6.12.20.2.0.0  PKG_SOURCE_VERSION=lf-6.12.20-2.0.0
    // numeric segments are equal → should produce Custom("lf-${VERSION}")
    let tmpl = detect_tag_template("lf-6.12.20-2.0.0", "6.12.20.2.0.0");
    assert!(
        matches!(&tmpl, TagTemplate::Custom(s) if s == "lf-${VERSION}"),
        "expected Custom(\"lf-${{VERSION}}\"), got {:?}", tmpl
    );
}

//! What a package makefile says: its variables, its version and where its
//! source comes from.

use crate::expand;
use crate::outside;
use crate::outside::{captures, is_match};
use crate::patterns;
use crate::text;
use crate::text::Class;
use crate::vars;
use crate::vars::VarMap;
use vstd::prelude::*;

verus! {

// ──────────────────────────────────── types ──────────────────────────────────

/// How the tags of a repository are made from a version.
#[derive(Debug, Clone, PartialEq)]
pub enum TagTemplate {
    /// `v${VERSION}`
    WithV,
    /// `${VERSION}`
    Plain,
    /// a text that holds a placeholder, such as `release-${VERSION}`
    Custom(String),
}

/// What a tag template says.
pub enum TagForm {
    /// `v${VERSION}`
    WithV,
    /// `${VERSION}`
    Plain,
    /// a text that holds a placeholder
    Custom(Seq<char>),
}

impl View for TagTemplate {
    type V = TagForm;

    open spec fn view(&self) -> TagForm {
        match self {
            TagTemplate::WithV => TagForm::WithV,
            TagTemplate::Plain => TagForm::Plain,
            TagTemplate::Custom(s) => TagForm::Custom(s@),
        }
    }
}

/// Where the source of a package comes from.
#[derive(Debug, Clone, PartialEq)]
pub enum SourceType {
    /// A repository on GitHub whose releases or tags are versions.
    GitHubRelease { owner: String, repo: String, tag_template: TagTemplate },
    /// A repository on GitHub at a commit.
    GitHubCommit { owner: String, repo: String, commit: String },
    /// A repository on GitHub whose version tags stand under a path.
    GitHubTagPath { owner: String, repo: String, tag_path: String },
    /// A repository on a GitLab host.
    GitLab { host: String, owner: String, repo: String, tag_template: TagTemplate },
    /// A repository on BitBucket.
    BitBucket { owner: String, repo: String, tag_template: TagTemplate },
    /// A repository on a Gitea or Forgejo host.
    Gitea { host: String, owner: String, repo: String, tag_template: TagTemplate },
    /// A project on SourceForge.
    SourceForge { project: String },
    /// A package on PyPI.
    PyPI { package: String },
    /// A package on crates.io.
    CratesIo { package: String },
    /// A package on npm.
    Npm { package: String },
    /// A gem on RubyGems.
    RubyGems { gem: String },
    /// A package on Hackage.
    Hackage { package: String },
    /// A module on CPAN.
    Cpan { module: String },
    /// A PHP extension on PECL.
    Pecl { package: String },
    /// A package on kernel.org.
    KernelOrg { package: String },
    /// A cgit repository, by the URL of the repository.
    Cgit { repo_url: String },
    /// An artifact on Maven Central.
    Maven { group_id: String, artifact_id: String },
    /// A module of the Go module proxy.
    GoModule { module: String },
    /// A page from which a regular expression takes the version.
    UrlRegex { url: String, regex: String },
    /// The release tarballs of the Go toolchain.
    GoLang,
    /// A repository on googlesource.com.
    GoogleSource { repo_url: String },
    /// A tarball download from freedesktop.org.
    Freedesktop { project: String },
    /// No PKG_SOURCE_URL: the package is maintained in the feed itself.
    NoSource,
    /// The private mirror of OpenWrt or ImmortalWrt.
    OpenWrtMirror,
    /// A mirror macro such as `@GNU`, `@GNOME` or `@APACHE`.
    GnuMirror { mirror: String, package: String },
    /// A plain download URL of no known host.
    CustomUrl { url: String },
    /// Anything else.
    Unknown,
}

/// What a source type says.
pub enum Source {
    /// A repository on GitHub whose releases or tags are versions.
    GitHubRelease { owner: Seq<char>, repo: Seq<char>, tag_template: TagForm },
    /// A repository on GitHub at a commit.
    GitHubCommit { owner: Seq<char>, repo: Seq<char>, commit: Seq<char> },
    /// A repository on GitHub whose version tags stand under a path.
    GitHubTagPath { owner: Seq<char>, repo: Seq<char>, tag_path: Seq<char> },
    /// A repository on a GitLab host.
    GitLab { host: Seq<char>, owner: Seq<char>, repo: Seq<char>, tag_template: TagForm },
    /// A repository on BitBucket.
    BitBucket { owner: Seq<char>, repo: Seq<char>, tag_template: TagForm },
    /// A repository on a Gitea or Forgejo host.
    Gitea { host: Seq<char>, owner: Seq<char>, repo: Seq<char>, tag_template: TagForm },
    /// A project on SourceForge.
    SourceForge { project: Seq<char> },
    /// A package on PyPI.
    PyPI { package: Seq<char> },
    /// A package on crates.io.
    CratesIo { package: Seq<char> },
    /// A package on npm.
    Npm { package: Seq<char> },
    /// A gem on RubyGems.
    RubyGems { gem: Seq<char> },
    /// A package on Hackage.
    Hackage { package: Seq<char> },
    /// A module on CPAN.
    Cpan { module: Seq<char> },
    /// A PHP extension on PECL.
    Pecl { package: Seq<char> },
    /// A package on kernel.org.
    KernelOrg { package: Seq<char> },
    /// A cgit repository, by the URL of the repository.
    Cgit { repo_url: Seq<char> },
    /// An artifact on Maven Central.
    Maven { group_id: Seq<char>, artifact_id: Seq<char> },
    /// A module of the Go module proxy.
    GoModule { module: Seq<char> },
    /// A page from which a regular expression takes the version.
    UrlRegex { url: Seq<char>, regex: Seq<char> },
    /// The release tarballs of the Go toolchain.
    GoLang,
    /// A repository on googlesource.com.
    GoogleSource { repo_url: Seq<char> },
    /// A tarball download from freedesktop.org.
    Freedesktop { project: Seq<char> },
    /// No PKG_SOURCE_URL: the package is maintained in the feed itself.
    NoSource,
    /// The private mirror of OpenWrt or ImmortalWrt.
    OpenWrtMirror,
    /// A mirror macro such as `@GNU`, `@GNOME` or `@APACHE`.
    GnuMirror { mirror: Seq<char>, package: Seq<char> },
    /// A plain download URL of no known host.
    CustomUrl { url: Seq<char> },
    /// Anything else.
    Unknown,
}

impl View for SourceType {
    type V = Source;

    open spec fn view(&self) -> Source {
        match self {
            SourceType::GitHubRelease { owner, repo, tag_template } => Source::GitHubRelease {
                owner: owner@,
                repo: repo@,
                tag_template: tag_template@,
            },
            SourceType::GitHubCommit { owner, repo, commit } => Source::GitHubCommit {
                owner: owner@,
                repo: repo@,
                commit: commit@,
            },
            SourceType::GitHubTagPath { owner, repo, tag_path } => Source::GitHubTagPath {
                owner: owner@,
                repo: repo@,
                tag_path: tag_path@,
            },
            SourceType::GitLab { host, owner, repo, tag_template } => Source::GitLab {
                host: host@,
                owner: owner@,
                repo: repo@,
                tag_template: tag_template@,
            },
            SourceType::BitBucket { owner, repo, tag_template } => Source::BitBucket {
                owner: owner@,
                repo: repo@,
                tag_template: tag_template@,
            },
            SourceType::Gitea { host, owner, repo, tag_template } => Source::Gitea {
                host: host@,
                owner: owner@,
                repo: repo@,
                tag_template: tag_template@,
            },
            SourceType::SourceForge { project } => Source::SourceForge { project: project@ },
            SourceType::PyPI { package } => Source::PyPI { package: package@ },
            SourceType::CratesIo { package } => Source::CratesIo { package: package@ },
            SourceType::Npm { package } => Source::Npm { package: package@ },
            SourceType::RubyGems { gem } => Source::RubyGems { gem: gem@ },
            SourceType::Hackage { package } => Source::Hackage { package: package@ },
            SourceType::Cpan { module } => Source::Cpan { module: module@ },
            SourceType::Pecl { package } => Source::Pecl { package: package@ },
            SourceType::KernelOrg { package } => Source::KernelOrg { package: package@ },
            SourceType::Cgit { repo_url } => Source::Cgit { repo_url: repo_url@ },
            SourceType::Maven { group_id, artifact_id } => Source::Maven {
                group_id: group_id@,
                artifact_id: artifact_id@,
            },
            SourceType::GoModule { module } => Source::GoModule { module: module@ },
            SourceType::UrlRegex { url, regex } => Source::UrlRegex { url: url@, regex: regex@ },
            SourceType::GoLang => Source::GoLang,
            SourceType::GoogleSource { repo_url } => Source::GoogleSource { repo_url: repo_url@ },
            SourceType::Freedesktop { project } => Source::Freedesktop { project: project@ },
            SourceType::NoSource => Source::NoSource,
            SourceType::OpenWrtMirror => Source::OpenWrtMirror,
            SourceType::GnuMirror { mirror, package } => Source::GnuMirror {
                mirror: mirror@,
                package: package@,
            },
            SourceType::CustomUrl { url } => Source::CustomUrl { url: url@ },
            SourceType::Unknown => Source::Unknown,
        }
    }
}

/// A package makefile.
#[derive(Debug, Clone)]
pub struct ParsedMakefile {
    pub path: String,
    pub pkg_name: String,
    pub pkg_version: String,
    pub pkg_release: Option<String>,
    /// the first of the source URLs
    pub source_url: Option<String>,
    /// the URLs of PKG_SOURCE_URL
    pub source_urls: Vec<String>,
    pub source_file: Option<String>,
    pub pkg_hash: Option<String>,
    pub pkg_source_date: Option<String>,
    pub pkg_source_version: Option<String>,
    pub source_type: SourceType,
    pub raw_vars: VarMap,
}

// ────────────────────────────────── tag forms ────────────────────────────────

/// The placeholder for the version in a tag template.
pub const VERSION_MARK: &'static str = "${VERSION}";

/// The placeholder for the version without its dots in a tag template.
pub const NODOT_MARK: &'static str = "${VERSION_NODOT}";

/// The template of a tag whose numbers are those of the version.
pub open spec fn numbered_template(tag: Seq<char>, version: Seq<char>) -> Option<Seq<char>> {
    let n = text::span(tag, Class::NotDigit) as int;
    if text::digit_runs(tag).len() > 0 && text::digit_runs(tag) == text::digit_runs(version) && n
        > 0 && n < tag.len() {
        Some(tag.take(n) + VERSION_MARK@)
    } else {
        None
    }
}

/// The template that makes a tag from a version.
pub open spec fn template_of(tag: Seq<char>, version: Seq<char>) -> TagForm {
    let underscored = text::replace(version, "."@, "_"@);
    let dotless = text::replace(version, "."@, ""@);
    if tag == "v"@ + version {
        TagForm::WithV
    } else if tag == version {
        TagForm::Plain
    } else if text::contains(tag, underscored) {
        TagForm::Custom(text::replace(tag, underscored, VERSION_MARK@))
    } else if text::contains(tag, dotless) && dotless.len() > 0 {
        TagForm::Custom(text::replace(tag, dotless, NODOT_MARK@))
    } else if let Some(t) = numbered_template(tag, version) {
        TagForm::Custom(t)
    } else if text::replace(tag, "-"@, "."@) == version || tag == text::replace(
        version,
        "."@,
        "-"@,
    ) {
        TagForm::Plain
    } else if text::contains(text::replace(tag, version, VERSION_MARK@), VERSION_MARK@) {
        TagForm::Custom(text::replace(tag, version, VERSION_MARK@))
    } else {
        TagForm::Plain
    }
}

/// The template that makes a tag from a version.
pub fn detect_tag_template(ref_part: &str, pkg_version: &str) -> (r: TagTemplate)
    ensures
        r@ == template_of(ref_part@, pkg_version@),
{
    let with_v = text::concat("v", pkg_version);
    if text::same(ref_part, &with_v) {
        return TagTemplate::WithV;
    }
    if text::same(ref_part, pkg_version) {
        return TagTemplate::Plain;
    }
    let underscored = text::replaced(pkg_version, ".", "_");
    if text::has(ref_part, &underscored) {
        return TagTemplate::Custom(text::replaced(ref_part, &underscored, VERSION_MARK));
    }
    let dotless = text::replaced(pkg_version, ".", "");
    if text::has(ref_part, &dotless) && text::length(&dotless) > 0 {
        return TagTemplate::Custom(text::replaced(ref_part, &dotless, NODOT_MARK));
    }
    let nums_ref = text::runs_of(ref_part, Class::Digit, Class::NotDigit);
    let nums_ver = text::runs_of(pkg_version, Class::Digit, Class::NotDigit);
    if nums_ref.len() > 0 && text::same_all(&nums_ref, &nums_ver) {
        if let Some(n) = text::find_class(ref_part, Class::Digit, Class::NotDigit) {
            if n > 0 {
                let prefix = text::take(ref_part, n);
                return TagTemplate::Custom(text::concat(&prefix, VERSION_MARK));
            }
        }
    }
    assert(numbered_template(ref_part@, pkg_version@) is None);
    let dotted = text::replaced(ref_part, "-", ".");
    let hyphened = text::replaced(pkg_version, ".", "-");
    if text::same(&dotted, pkg_version) || text::same(ref_part, &hyphened) {
        return TagTemplate::Plain;
    }
    let marked = text::replaced(ref_part, pkg_version, VERSION_MARK);
    if text::has(&marked, VERSION_MARK) {
        TagTemplate::Custom(marked)
    } else {
        TagTemplate::Plain
    }
}

/// The stable prefix of a tag path such as `client_release/8.0/8.0.4`: what
/// stands before the version, without a numeric segment at its end, and with a
/// slash.  None if the last segment of the tag is not the version.
pub open spec fn path_prefix(tag: Seq<char>, version: Seq<char>) -> Option<Seq<char>> {
    match text::rfind(tag, "/"@) {
        Some(i) => if tag.skip(i + 1) == version {
            let front = text::trim_end_matches(tag.take(i + 1), "/"@);
            let stable = match text::rfind(front, "/"@) {
                Some(p) => if text::all_in(front.skip(p + 1), Class::DigitOrDot) {
                    front.take(p)
                } else {
                    front
                },
                None => front,
            };
            Some(stable + "/"@)
        } else {
            None
        },
        None => None,
    }
}

/// The stable prefix of a tag path.
pub fn detect_path_tag_prefix(ref_part: &str, pkg_version: &str) -> (r: Option<String>)
    ensures
        text::opt_text(r) == path_prefix(ref_part@, pkg_version@),
{
    proof {
        reveal_strlit("/");
    }
    match text::rfind_str(ref_part, "/") {
        Some(i) => {
            let last = text::skip(ref_part, i + 1);
            if !text::same(&last, pkg_version) {
                return None;
            }
            let front = text::strip_end_matches(&text::take(ref_part, i + 1), "/");
            let stable = match text::rfind_str(&front, "/") {
                Some(p) => {
                    let mid = text::skip(&front, p + 1);
                    if text::all_of(&mid, Class::DigitOrDot) {
                        text::take(&front, p)
                    } else {
                        front
                    }
                },
                None => front,
            };
            Some(text::concat(&stable, "/"))
        },
        None => None,
    }
}

// ──────────────────────────────── source URLs ────────────────────────────────

/// The groups of a match, or none where there was no match.
pub open spec fn match_of(m: Option<Vec<Option<String>>>) -> Option<Seq<Option<Seq<char>>>> {
    match m {
        Some(v) => Some(outside::groups(v@)),
        None => None,
    }
}

/// What the patterns of known hosts find in a URL.
#[derive(Debug, Clone)]
pub struct UrlMatches {
    /// an archive download from GitHub
    pub codeload: Option<Vec<Option<String>>>,
    /// an archive page of GitHub
    pub github_archive: Option<Vec<Option<String>>>,
    /// an archive of a GitLab host
    pub gitlab: Option<Vec<Option<String>>>,
    /// an archive of BitBucket
    pub bitbucket: Option<Vec<Option<String>>>,
    /// a downloads directory of BitBucket
    pub bitbucket_downloads: Option<Vec<Option<String>>>,
    /// an archive of any host
    pub gitea: Option<Vec<Option<String>>>,
    /// a release download of GitHub
    pub github_releases_download: Option<Vec<Option<String>>>,
    /// a SourceForge download
    pub sourceforge: Option<Vec<Option<String>>>,
    /// a PyPI download
    pub pypi: Option<Vec<Option<String>>>,
    /// a crates.io download
    pub cratesio: Option<Vec<Option<String>>>,
    /// an npm download
    pub npm: Option<Vec<Option<String>>>,
    /// a RubyGems download
    pub rubygems: Option<Vec<Option<String>>>,
    /// a Hackage download
    pub hackage: Option<Vec<Option<String>>>,
    /// a CPAN download
    pub cpan: Option<Vec<Option<String>>>,
    /// a kernel.org download
    pub kernelorg: Option<Vec<Option<String>>>,
    /// a cgit snapshot
    pub cgit: Option<Vec<Option<String>>>,
    /// a Maven Central download
    pub maven: Option<Vec<Option<String>>>,
    /// a Go module download
    pub gomodule: Option<Vec<Option<String>>>,
    /// a freedesktop.org download
    pub freedesktop: Option<Vec<Option<String>>>,
    /// a googlesource.com repository
    pub googlesource: Option<Vec<Option<String>>>,
    /// a Go toolchain download
    pub golang_dl: bool,
    /// an OpenWrt source mirror
    pub openwrt_sources: bool,
}

/// What the matches of a URL say.
pub struct UrlFacts {
    /// an archive download from GitHub
    pub codeload: Option<Seq<Option<Seq<char>>>>,
    /// an archive page of GitHub
    pub github_archive: Option<Seq<Option<Seq<char>>>>,
    /// an archive of a GitLab host
    pub gitlab: Option<Seq<Option<Seq<char>>>>,
    /// an archive of BitBucket
    pub bitbucket: Option<Seq<Option<Seq<char>>>>,
    /// a downloads directory of BitBucket
    pub bitbucket_downloads: Option<Seq<Option<Seq<char>>>>,
    /// an archive of any host
    pub gitea: Option<Seq<Option<Seq<char>>>>,
    /// a release download of GitHub
    pub github_releases_download: Option<Seq<Option<Seq<char>>>>,
    /// a SourceForge download
    pub sourceforge: Option<Seq<Option<Seq<char>>>>,
    /// a PyPI download
    pub pypi: Option<Seq<Option<Seq<char>>>>,
    /// a crates.io download
    pub cratesio: Option<Seq<Option<Seq<char>>>>,
    /// an npm download
    pub npm: Option<Seq<Option<Seq<char>>>>,
    /// a RubyGems download
    pub rubygems: Option<Seq<Option<Seq<char>>>>,
    /// a Hackage download
    pub hackage: Option<Seq<Option<Seq<char>>>>,
    /// a CPAN download
    pub cpan: Option<Seq<Option<Seq<char>>>>,
    /// a kernel.org download
    pub kernelorg: Option<Seq<Option<Seq<char>>>>,
    /// a cgit snapshot
    pub cgit: Option<Seq<Option<Seq<char>>>>,
    /// a Maven Central download
    pub maven: Option<Seq<Option<Seq<char>>>>,
    /// a Go module download
    pub gomodule: Option<Seq<Option<Seq<char>>>>,
    /// a freedesktop.org download
    pub freedesktop: Option<Seq<Option<Seq<char>>>>,
    /// a googlesource.com repository
    pub googlesource: Option<Seq<Option<Seq<char>>>>,
    /// a Go toolchain download
    pub golang_dl: bool,
    /// an OpenWrt source mirror
    pub openwrt_sources: bool,
}

impl View for UrlMatches {
    type V = UrlFacts;

    open spec fn view(&self) -> UrlFacts {
        UrlFacts {
            codeload: match_of(self.codeload),
            github_archive: match_of(self.github_archive),
            gitlab: match_of(self.gitlab),
            bitbucket: match_of(self.bitbucket),
            bitbucket_downloads: match_of(self.bitbucket_downloads),
            gitea: match_of(self.gitea),
            github_releases_download: match_of(self.github_releases_download),
            sourceforge: match_of(self.sourceforge),
            pypi: match_of(self.pypi),
            cratesio: match_of(self.cratesio),
            npm: match_of(self.npm),
            rubygems: match_of(self.rubygems),
            hackage: match_of(self.hackage),
            cpan: match_of(self.cpan),
            kernelorg: match_of(self.kernelorg),
            cgit: match_of(self.cgit),
            maven: match_of(self.maven),
            gomodule: match_of(self.gomodule),
            freedesktop: match_of(self.freedesktop),
            googlesource: match_of(self.googlesource),
            golang_dl: self.golang_dl,
            openwrt_sources: self.openwrt_sources,
        }
    }
}

/// What the patterns of known hosts find in a URL.
pub open spec fn url_facts(url: Seq<char>) -> UrlFacts {
    UrlFacts {
        codeload: outside::regex_captures(patterns::CODELOAD@, url),
        github_archive: outside::regex_captures(patterns::GITHUB_ARCHIVE@, url),
        gitlab: outside::regex_captures(patterns::GITLAB@, url),
        bitbucket: outside::regex_captures(patterns::BITBUCKET@, url),
        bitbucket_downloads: outside::regex_captures(patterns::BITBUCKET_DOWNLOADS@, url),
        gitea: outside::regex_captures(patterns::GITEA@, url),
        github_releases_download: outside::regex_captures(patterns::GITHUB_RELEASES_DOWNLOAD@, url),
        sourceforge: outside::regex_captures(patterns::SOURCEFORGE@, url),
        pypi: outside::regex_captures(patterns::PYPI@, url),
        cratesio: outside::regex_captures(patterns::CRATESIO@, url),
        npm: outside::regex_captures(patterns::NPM@, url),
        rubygems: outside::regex_captures(patterns::RUBYGEMS@, url),
        hackage: outside::regex_captures(patterns::HACKAGE@, url),
        cpan: outside::regex_captures(patterns::CPAN@, url),
        kernelorg: outside::regex_captures(patterns::KERNELORG@, url),
        cgit: outside::regex_captures(patterns::CGIT@, url),
        maven: outside::regex_captures(patterns::MAVEN@, url),
        gomodule: outside::regex_captures(patterns::GOMODULE@, url),
        freedesktop: outside::regex_captures(patterns::FREEDESKTOP@, url),
        googlesource: outside::regex_captures(patterns::GOOGLESOURCE@, url),
        golang_dl: outside::regex_is_match(patterns::GOLANG_DL@, url),
        openwrt_sources: outside::regex_is_match(patterns::OPENWRT_SOURCES@, url),
    }
}

/// Holds a URL to the patterns of known hosts.
pub fn match_url(url: &str) -> (r: UrlMatches)
    ensures
        r@ == url_facts(url@),
{
    UrlMatches {
        codeload: captures(patterns::CODELOAD, url),
        github_archive: captures(patterns::GITHUB_ARCHIVE, url),
        gitlab: captures(patterns::GITLAB, url),
        bitbucket: captures(patterns::BITBUCKET, url),
        bitbucket_downloads: captures(patterns::BITBUCKET_DOWNLOADS, url),
        gitea: captures(patterns::GITEA, url),
        github_releases_download: captures(patterns::GITHUB_RELEASES_DOWNLOAD, url),
        sourceforge: captures(patterns::SOURCEFORGE, url),
        pypi: captures(patterns::PYPI, url),
        cratesio: captures(patterns::CRATESIO, url),
        npm: captures(patterns::NPM, url),
        rubygems: captures(patterns::RUBYGEMS, url),
        hackage: captures(patterns::HACKAGE, url),
        cpan: captures(patterns::CPAN, url),
        kernelorg: captures(patterns::KERNELORG, url),
        cgit: captures(patterns::CGIT, url),
        maven: captures(patterns::MAVEN, url),
        gomodule: captures(patterns::GOMODULE, url),
        freedesktop: captures(patterns::FREEDESKTOP, url),
        googlesource: captures(patterns::GOOGLESOURCE, url),
        golang_dl: is_match(patterns::GOLANG_DL, url),
        openwrt_sources: is_match(patterns::OPENWRT_SOURCES, url),
    }
}

/// The text of a group.
pub fn group_text(m: &Vec<Option<String>>, i: usize) -> (r: String)
    ensures
        r@ == outside::group(outside::groups(m@), i as int),
{
    if i < m.len() {
        if let Some(s) = &m[i] {
            return s.clone();
        }
    }
    text::empty()
}

/// The source of a ref that a GitHub archive is made of.
pub open spec fn codeload_source(
    owner: Seq<char>,
    repo: Seq<char>,
    ref_part: Seq<char>,
    version: Seq<char>,
) -> Source {
    let tags = "refs/tags/"@;
    if outside::is_commit_hash(ref_part) {
        Source::GitHubCommit { owner, repo, commit: ref_part }
    } else if tags.is_prefix_of(ref_part) {
        let path = text::trim_start_matches(ref_part, tags);
        if version.is_suffix_of(path) {
            let prefix = text::trim_end_matches(path.take(path.len() - version.len()), "/"@);
            if prefix.len() == 0 {
                Source::GitHubRelease { owner, repo, tag_template: TagForm::Plain }
            } else {
                Source::GitHubTagPath { owner, repo, tag_path: prefix + "/"@ }
            }
        } else {
            Source::GitHubTagPath { owner, repo, tag_path: path }
        }
    } else {
        tagged_source(owner, repo, ref_part, version)
    }
}

/// The source of a tag on GitHub: under a path, or made by a template.
pub open spec fn tagged_source(
    owner: Seq<char>,
    repo: Seq<char>,
    tag: Seq<char>,
    version: Seq<char>,
) -> Source {
    match path_prefix(tag, version) {
        Some(tag_path) => Source::GitHubTagPath { owner, repo, tag_path },
        None => Source::GitHubRelease { owner, repo, tag_template: template_of(tag, version) },
    }
}

/// Whether a host has patterns of its own, so that its archives are none of
/// Gitea.
pub open spec fn is_known_host(host: Seq<char>) -> bool {
    host == "github.com"@ || host == "codeload.github.com"@ || "gitlab."@.is_prefix_of(host) || host
        == "bitbucket.org"@
}

/// The source that the matches of a URL tell, the first pattern that matches
/// first.
pub open spec fn source_by(
    m: UrlFacts,
    url: Seq<char>,
    version: Seq<char>,
    name: Seq<char>,
) -> Source {
    if let Some(g) = m.codeload {
        codeload_source(
            outside::group(g, 1),
            outside::group(g, 2),
            outside::group(g, 3),
            version,
        )
    } else if let Some(g) = m.github_archive {
        Source::GitHubRelease {
            owner: outside::group(g, 1),
            repo: outside::group(g, 2),
            tag_template: template_of(outside::group(g, 3), version),
        }
    } else if let Some(g) = m.gitlab {
        Source::GitLab {
            host: outside::group(g, 1),
            owner: outside::group(g, 2),
            repo: outside::group(g, 3),
            tag_template: template_of(outside::group(g, 4), version),
        }
    } else if let Some(g) = m.bitbucket {
        Source::BitBucket {
            owner: outside::group(g, 1),
            repo: outside::group(g, 2),
            tag_template: template_of(outside::group(g, 3), version),
        }
    } else if let Some(g) = m.bitbucket_downloads {
        Source::BitBucket {
            owner: outside::group(g, 1),
            repo: outside::group(g, 2),
            tag_template: TagForm::WithV,
        }
    } else if m.gitea is Some && !is_known_host(outside::group(m.gitea->0, 1)) {
        let g = m.gitea->0;
        Source::Gitea {
            host: outside::group(g, 1),
            owner: outside::group(g, 2),
            repo: outside::group(g, 3),
            tag_template: template_of(outside::group(g, 4), version),
        }
    } else if let Some(g) = m.github_releases_download {
        Source::GitHubRelease {
            owner: outside::group(g, 1),
            repo: outside::group(g, 2),
            tag_template: template_of(outside::group(g, 3), version),
        }
    } else {
        registry_by(m, url, name)
    }
}

/// The source that the matches of a URL of no forge tell.  On the download host of
/// SourceForge the word `project` may stand before the project.
pub open spec fn registry_by(m: UrlFacts, url: Seq<char>, name: Seq<char>) -> Source {
    if let Some(g) = m.sourceforge {
        Source::SourceForge {
            project: if g.len() > 3 && g[3] is Some {
                outside::group(g, 3)
            } else if outside::group(g, 1) == "project"@ && g.len() > 2 && g[2] is Some {
                outside::group(g, 2)
            } else {
                outside::group(g, 1)
            },
        }
    } else if let Some(g) = m.pypi {
        Source::PyPI {
            package: if g.len() > 1 && g[1] is Some {
                outside::group(g, 1)
            } else if g.len() > 2 && g[2] is Some {
                outside::group(g, 2)
            } else {
                name
            },
        }
    } else if let Some(g) = m.cratesio {
        Source::CratesIo { package: outside::group(g, 1) }
    } else if let Some(g) = m.npm {
        Source::Npm { package: outside::group(g, 1) }
    } else if let Some(g) = m.rubygems {
        Source::RubyGems { gem: outside::group(g, 1) }
    } else if let Some(g) = m.hackage {
        Source::Hackage { package: outside::group(g, 1) }
    } else if let Some(g) = m.cpan {
        Source::Cpan { module: outside::group(g, 1) }
    } else if let Some(g) = m.kernelorg {
        Source::KernelOrg { package: outside::group(g, 1) }
    } else if let Some(g) = m.cgit {
        Source::Cgit {
            repo_url: if g.len() > 1 && g[1] is Some {
                outside::group(g, 1)
            } else {
                outside::group(g, 2)
            },
        }
    } else if let Some(g) = m.maven {
        Source::Maven {
            group_id: text::replace(outside::group(g, 1), "/"@, "."@),
            artifact_id: outside::group(g, 2),
        }
    } else if let Some(g) = m.gomodule {
        Source::GoModule { module: outside::group(g, 1) }
    } else if m.golang_dl {
        Source::GoLang
    } else if m.freedesktop is Some && outside::group(m.freedesktop->0, 1).len() > 0 {
        Source::Freedesktop { project: outside::group(m.freedesktop->0, 1) }
    } else if m.openwrt_sources {
        Source::OpenWrtMirror
    } else if let Some(g) = m.googlesource {
        Source::GoogleSource { repo_url: outside::group(g, 1) }
    } else if text::contains(url, "denx.de"@) && text::contains(url, "u-boot"@) {
        Source::UrlRegex {
            url: "https://ftp.denx.de/pub/u-boot/"@,
            regex: patterns::UBOOT_TARBALL@,
        }
    } else {
        Source::Unknown
    }
}

/// The source that a URL tells.
pub open spec fn source_of_url(url: Seq<char>, version: Seq<char>, name: Seq<char>) -> Source {
    source_by(url_facts(url), url, version, name)
}

/// The source of a tag on GitHub.
fn tagged(owner: String, repo: String, tag: &str, version: &str) -> (r: SourceType)
    ensures
        r@ == tagged_source(owner@, repo@, tag@, version@),
{
    match detect_path_tag_prefix(tag, version) {
        Some(tag_path) => SourceType::GitHubTagPath { owner, repo, tag_path },
        None => SourceType::GitHubRelease {
            owner,
            repo,
            tag_template: detect_tag_template(tag, version),
        },
    }
}

/// The source of a ref that a GitHub archive is made of.
pub fn classify_codeload(owner: String, repo: String, ref_part: String, version: &str) -> (r:
    SourceType)
    ensures
        r@ == codeload_source(owner@, repo@, ref_part@, version@),
{
    if is_match(patterns::COMMIT_HASH, &ref_part) {
        return SourceType::GitHubCommit { owner, repo, commit: ref_part };
    }
    if text::starts_with(&ref_part, "refs/tags/") {
        let path = text::strip_start_matches(&ref_part, "refs/tags/");
        if text::ends_with(&path, version) {
            let front = text::take(&path, text::length(&path) - text::length(version));
            let prefix = text::strip_end_matches(&front, "/");
            if text::length(&prefix) == 0 {
                return SourceType::GitHubRelease { owner, repo, tag_template: TagTemplate::Plain };
            }
            return SourceType::GitHubTagPath { owner, repo, tag_path: text::concat(&prefix, "/") };
        }
        return SourceType::GitHubTagPath { owner, repo, tag_path: path };
    }
    tagged(owner, repo, &ref_part, version)
}

/// The source that the matches of a URL tell.
pub fn classify_url(m: &UrlMatches, url: &str, pkg_version: &str, pkg_name: &str) -> (r:
    SourceType)
    ensures
        r@ == source_by(m@, url@, pkg_version@, pkg_name@),
{
    if let Some(g) = &m.codeload {
        return classify_codeload(
            group_text(g, 1),
            group_text(g, 2),
            group_text(g, 3),
            pkg_version,
        );
    }
    if let Some(g) = &m.github_archive {
        return SourceType::GitHubRelease {
            owner: group_text(g, 1),
            repo: group_text(g, 2),
            tag_template: detect_tag_template(&group_text(g, 3), pkg_version),
        };
    }
    if let Some(g) = &m.gitlab {
        return SourceType::GitLab {
            host: group_text(g, 1),
            owner: group_text(g, 2),
            repo: group_text(g, 3),
            tag_template: detect_tag_template(&group_text(g, 4), pkg_version),
        };
    }
    if let Some(g) = &m.bitbucket {
        return SourceType::BitBucket {
            owner: group_text(g, 1),
            repo: group_text(g, 2),
            tag_template: detect_tag_template(&group_text(g, 3), pkg_version),
        };
    }
    if let Some(g) = &m.bitbucket_downloads {
        return SourceType::BitBucket {
            owner: group_text(g, 1),
            repo: group_text(g, 2),
            tag_template: TagTemplate::WithV,
        };
    }
    if let Some(g) = &m.gitea {
        let host = group_text(g, 1);
        let known = text::same(&host, "github.com") || text::same(&host, "codeload.github.com")
            || text::starts_with(&host, "gitlab.") || text::same(&host, "bitbucket.org");
        if !known {
            return SourceType::Gitea {
                host,
                owner: group_text(g, 2),
                repo: group_text(g, 3),
                tag_template: detect_tag_template(&group_text(g, 4), pkg_version),
            };
        }
    }
    if let Some(g) = &m.github_releases_download {
        return SourceType::GitHubRelease {
            owner: group_text(g, 1),
            repo: group_text(g, 2),
            tag_template: detect_tag_template(&group_text(g, 3), pkg_version),
        };
    }
    classify_registry(m, url, pkg_name)
}

/// The source that the matches of a URL of no forge tell.
fn classify_registry(m: &UrlMatches, url: &str, pkg_name: &str) -> (r: SourceType)
    ensures
        r@ == registry_by(m@, url@, pkg_name@),
{
    if let Some(g) = &m.sourceforge {
        let first = group_text(g, 1);
        let project = if g.len() > 3 && g[3].is_some() {
            group_text(g, 3)
        } else if text::same(&first, "project") && g.len() > 2 && g[2].is_some() {
            group_text(g, 2)
        } else {
            first
        };
        return SourceType::SourceForge { project };
    }
    if let Some(g) = &m.pypi {
        let package = if g.len() > 1 && g[1].is_some() {
            group_text(g, 1)
        } else if g.len() > 2 && g[2].is_some() {
            group_text(g, 2)
        } else {
            text::own(pkg_name)
        };
        return SourceType::PyPI { package };
    }
    if let Some(g) = &m.cratesio {
        return SourceType::CratesIo { package: group_text(g, 1) };
    }
    if let Some(g) = &m.npm {
        return SourceType::Npm { package: group_text(g, 1) };
    }
    if let Some(g) = &m.rubygems {
        return SourceType::RubyGems { gem: group_text(g, 1) };
    }
    if let Some(g) = &m.hackage {
        return SourceType::Hackage { package: group_text(g, 1) };
    }
    if let Some(g) = &m.cpan {
        return SourceType::Cpan { module: group_text(g, 1) };
    }
    if let Some(g) = &m.kernelorg {
        return SourceType::KernelOrg { package: group_text(g, 1) };
    }
    if let Some(g) = &m.cgit {
        let repo_url = if g.len() > 1 && g[1].is_some() {
            group_text(g, 1)
        } else {
            group_text(g, 2)
        };
        return SourceType::Cgit { repo_url };
    }
    if let Some(g) = &m.maven {
        return SourceType::Maven {
            group_id: text::replaced(&group_text(g, 1), "/", "."),
            artifact_id: group_text(g, 2),
        };
    }
    if let Some(g) = &m.gomodule {
        return SourceType::GoModule { module: group_text(g, 1) };
    }
    if m.golang_dl {
        return SourceType::GoLang;
    }
    if let Some(g) = &m.freedesktop {
        let project = group_text(g, 1);
        if text::length(&project) > 0 {
            return SourceType::Freedesktop { project };
        }
    }
    if m.openwrt_sources {
        return SourceType::OpenWrtMirror;
    }
    if let Some(g) = &m.googlesource {
        return SourceType::GoogleSource { repo_url: group_text(g, 1) };
    }
    if text::has(url, "denx.de") && text::has(url, "u-boot") {
        return SourceType::UrlRegex {
            url: text::own("https://ftp.denx.de/pub/u-boot/"),
            regex: text::own(patterns::UBOOT_TARBALL),
        };
    }
    SourceType::Unknown
}

/// The source that a URL tells, whatever the variables of the makefile say.
pub fn detect_source_type(url: &str, pkg_version: &str, pkg_name: &str, _vars: &VarMap) -> (r:
    SourceType)
    ensures
        r@ == source_of_url(url@, pkg_version@, pkg_name@),
{
    let m = match_url(url);
    classify_url(&m, url, pkg_version, pkg_name)
}

// ───────────────────────────── variables of a file ───────────────────────────

/// The logical lines of a makefile, without the white space round them: a line
/// that ends in a backslash goes on in the next one.  A line that the file ends
/// in the middle of is dropped.
pub open spec fn logical_lines(ls: Seq<Seq<char>>, open: Seq<char>) -> Seq<Seq<char>>
    decreases ls.len(),
{
    if ls.len() == 0 {
        Seq::empty()
    } else if "\\"@.is_suffix_of(ls[0]) {
        logical_lines(ls.skip(1), open + text::trim_end_matches(ls[0], "\\"@) + " "@)
    } else {
        seq![text::trim(open + ls[0])] + logical_lines(ls.skip(1), Seq::empty())
    }
}

/// What has been read of a makefile: its variables, and how many conditional
/// blocks are open.
pub struct Reading {
    pub vars: Map<Seq<char>, Seq<char>>,
    pub depth: nat,
}

/// The first word of a line.
pub open spec fn first_word(line: Seq<char>) -> Seq<char> {
    expand::word_at(text::words(line), 0)
}

/// Whether a word opens a conditional block.
pub open spec fn opens_block(w: Seq<char>) -> bool {
    w == "ifeq"@ || w == "ifneq"@ || w == "ifdef"@ || w == "ifndef"@
}

/// The variables after an assignment: `?=` keeps a value that is there, `+=`
/// puts a blank between the old value and the new one, the others replace.
pub open spec fn assigned(
    m: Map<Seq<char>, Seq<char>>,
    key: Seq<char>,
    op: Seq<char>,
    val: Seq<char>,
) -> Map<Seq<char>, Seq<char>> {
    if op == "?="@ {
        if m.dom().contains(key) {
            m
        } else {
            m.insert(key, val)
        }
    } else if op == "+="@ {
        let was = vars::value_of(m, key);
        m.insert(
            key,
            if was.len() > 0 {
                was + " "@ + val
            } else {
                val
            },
        )
    } else {
        m.insert(key, val)
    }
}

/// What has been read after one more logical line.  An assignment counts only
/// outside conditional blocks.
pub open spec fn read_line(r: Reading, line: Seq<char>) -> Reading {
    let w = first_word(line);
    if line.len() == 0 || line[0] == '#' {
        r
    } else if opens_block(w) {
        Reading { depth: r.depth + 1, ..r }
    } else if w == "endif"@ {
        Reading {
            depth: if r.depth > 0 {
                (r.depth - 1) as nat
            } else {
                0
            },
            ..r
        }
    } else if w == "else"@ || r.depth > 0 {
        r
    } else {
        match outside::assignment(line) {
            Some(g) => Reading {
                vars: assigned(
                    r.vars,
                    outside::group(g, 1),
                    outside::group(g, 2),
                    text::trim(outside::group(g, 3)),
                ),
                ..r
            },
            None => r,
        }
    }
}

/// What has been read after some logical lines.
pub open spec fn read_lines(ls: Seq<Seq<char>>) -> Reading
    decreases ls.len(),
{
    if ls.len() == 0 {
        Reading { vars: Map::empty(), depth: 0 }
    } else {
        read_line(read_lines(ls.drop_last()), ls.last())
    }
}

/// Whether a makefile takes in the rules for u-boot packages.
pub open spec fn uses_uboot_rules(content: Seq<char>) -> bool {
    text::contains(content, "$(INCLUDE_DIR)/u-boot.mk"@) || text::contains(
        content,
        "include/u-boot.mk"@,
    )
}

/// The variables that a makefile assigns.
pub open spec fn assigned_vars(content: Seq<char>) -> Map<Seq<char>, Seq<char>> {
    read_lines(logical_lines(text::lines(content), Seq::empty())).vars
}

/// The variables of a makefile: those that it assigns, and the defaults of the
/// rules for u-boot packages where it takes them in.
pub open spec fn makefile_vars(content: Seq<char>) -> Map<Seq<char>, Seq<char>> {
    let m = assigned_vars(content);
    if uses_uboot_rules(content) {
        assigned(
            assigned(m, "PKG_SOURCE_URL"@, "?="@, "https://ftp.denx.de/pub/u-boot"@),
            "PKG_SOURCE"@,
            "?="@,
            "$(PKG_NAME)-$(PKG_VERSION).tar.bz2"@,
        )
    } else {
        m
    }
}

/// A text without line feeds.
pub open spec fn one_line(s: Seq<char>) -> bool {
    text::all_in(s, Class::Not('\n'))
}

/// No line of a text holds a line feed.
pub proof fn lemma_lines_hold_no_feed(s: Seq<char>)
    ensures
        forall|i: int| 0 <= i < text::lines(s).len() ==> one_line(#[trigger] text::lines(s)[i]),
    decreases s.len(),
{
    let k = Class::Not('\n');
    text::lemma_span(s, k);
    let n = text::span(s, k) as int;
    if s.len() > 0 {
        if n >= s.len() {
            assert(one_line(s));
        } else {
            let rest = text::lines(s.skip(n + 1));
            lemma_lines_hold_no_feed(s.skip(n + 1));
            let first = text::strip_cr(s.take(n));
            assert(one_line(first)) by {
                assert forall|i: int| 0 <= i < first.len() implies k.has(#[trigger] first[i]) by {
                    assert(first[i] == s[i]);
                }
            }
            assert forall|i: int| 0 <= i < text::lines(s).len() implies one_line(
                #[trigger] text::lines(s)[i],
            ) by {
                if i > 0 {
                    assert(text::lines(s)[i] == rest[i - 1]);
                }
            }
        }
    }
}

proof fn lemma_trim_one_line(s: Seq<char>)
    requires
        one_line(s),
    ensures
        one_line(text::trim(s)),
{
    text::lemma_span(s, Class::Space);
    let t = text::trim_start_of(s, Class::Space);
    text::lemma_span_back(t, Class::Space);
    let n = text::span(s, Class::Space) as int;
    assert forall|i: int| 0 <= i < text::trim(s).len() implies Class::Not('\n').has(
        #[trigger] text::trim(s)[i],
    ) by {
        assert(text::trim(s)[i] == s[n + i]);
    }
}

proof fn lemma_trim_end_one_line(s: Seq<char>, pat: Seq<char>)
    requires
        one_line(s),
    ensures
        one_line(text::trim_end_matches(s, pat)),
    decreases s.len(),
{
    if pat.len() > 0 && pat.is_suffix_of(s) {
        let t = s.take(s.len() - pat.len());
        assert forall|i: int| 0 <= i < t.len() implies Class::Not('\n').has(#[trigger] t[i]) by {
            assert(t[i] == s[i]);
        }
        lemma_trim_end_one_line(t, pat);
    }
}

/// Gives a variable a value as its operator says.
fn assign(vars: &mut VarMap, key: String, op: &str, val: String)
    ensures
        final(vars)@ == assigned(old(vars)@, key@, op@, val@),
{
    if text::same(op, "?=") {
        if vars.get(&key).is_none() {
            vars.insert(key, val);
        }
    } else if text::same(op, "+=") {
        let was = vars.get_or_empty(&key);
        if text::length(&was) > 0 {
            let both = text::concat3(&was, " ", &val);
            vars.insert(key, both);
        } else {
            vars.insert(key, val);
        }
    } else {
        vars.insert(key, val);
    }
}

/// The first word of a line.
fn word_first(line: &str) -> (r: String)
    ensures
        r@ == first_word(line@),
{
    let ws = text::words_of(line);
    if ws.len() > 0 {
        ws[0].clone()
    } else {
        text::empty()
    }
}

/// Reads one more logical line.
fn take_line(vars: &mut VarMap, depth: usize, line: &str) -> (r: usize)
    requires
        one_line(line@),
        depth < usize::MAX,
    ensures
        read_line(Reading { vars: old(vars)@, depth: depth as nat }, line@) == (Reading {
            vars: final(vars)@,
            depth: r as nat,
        }),
        r <= depth + 1,
{
    if text::length(line) == 0 || text::first_in(line, Class::Is('#')) {
        return depth;
    }
    let w = word_first(line);
    if text::same(&w, "ifeq") || text::same(&w, "ifneq") || text::same(&w, "ifdef") || text::same(
        &w,
        "ifndef",
    ) {
        return depth + 1;
    }
    if text::same(&w, "endif") {
        return if depth > 0 {
            depth - 1
        } else {
            0
        };
    }
    if text::same(&w, "else") || depth > 0 {
        return depth;
    }
    if let Some(g) = captures(patterns::VAR_ASSIGN, line) {
        let key = group_text(&g, 1);
        let op = group_text(&g, 2);
        let val = text::trimmed(&group_text(&g, 3));
        assign(vars, key, &op, val);
    }
    depth
}

/// The variables of a makefile.
pub fn read_vars(content: &str) -> (r: VarMap)
    ensures
        r@ == makefile_vars(content@),
{
    let ls = text::lines_of(content);
    let mut vars = VarMap::new();
    let mut depth: usize = 0;
    let mut logical = text::empty();
    let ghost all = text::lines(content@);
    let ghost want = logical_lines(all, Seq::empty());
    let ghost mut done: Seq<Seq<char>> = Seq::empty();
    proof {
        lemma_lines_hold_no_feed(content@);
        assert(all.skip(0) =~= all);
        assert(done + want =~= want);
    }
    for i in 0..ls.len()
        invariant
            all == text::texts(ls@),
            all == text::lines(content@),
            want == logical_lines(all, Seq::empty()),
            forall|j: int| 0 <= j < all.len() ==> one_line(#[trigger] all[j]),
            one_line(logical@),
            depth <= i,
            done + logical_lines(all.skip(i as int), logical@) == want,
            read_lines(done) == (Reading { vars: vars@, depth: depth as nat }),
    {
        let raw = ls[i].as_str();
        proof {
            assert(all.skip(i as int).skip(1) =~= all.skip(i + 1));
            assert(raw@ == all[i as int]);
            reveal_strlit(" ");
            lemma_trim_end_one_line(raw@, "\\"@);
        }
        if text::ends_with(raw, "\\") {
            let head = text::strip_end_matches(raw, "\\");
            let ghost was = logical@;
            logical.append(head.as_str());
            logical.append(" ");
            proof {
                assert forall|j: int| 0 <= j < logical@.len() implies Class::Not('\n').has(
                    #[trigger] logical@[j],
                ) by {
                    if j < was.len() {
                        assert(logical@[j] == was[j]);
                    } else if j < was.len() + head@.len() {
                        assert(logical@[j] == head@[j - was.len()]);
                    }
                }
            }
        } else {
            let ghost was = logical@;
            let whole = text::concat(&logical, raw);
            let line = text::trimmed(&whole);
            proof {
                assert forall|j: int| 0 <= j < whole@.len() implies Class::Not('\n').has(
                    #[trigger] whole@[j],
                ) by {
                    if j < was.len() {
                        assert(whole@[j] == was[j]);
                    } else {
                        assert(whole@[j] == raw@[j - was.len()]);
                    }
                }
                lemma_trim_one_line(whole@);
            }
            logical = text::empty();
            depth = take_line(&mut vars, depth, &line);
            proof {
                let rest = logical_lines(all.skip(i + 1), Seq::empty());
                assert(done + (seq![line@] + rest) =~= done.push(line@) + rest);
                assert(done.push(line@).drop_last() =~= done);
                done = done.push(line@);
            }
        }
    }
    proof {
        assert(all.skip(all.len() as int) =~= Seq::<Seq<char>>::empty());
        assert(done + Seq::<Seq<char>>::empty() =~= done);
    }
    if text::has(content, "$(INCLUDE_DIR)/u-boot.mk") || text::has(content, "include/u-boot.mk") {
        assign(
            &mut vars,
            text::own("PKG_SOURCE_URL"),
            "?=",
            text::own("https://ftp.denx.de/pub/u-boot"),
        );
        assign(
            &mut vars,
            text::own("PKG_SOURCE"),
            "?=",
            text::own("$(PKG_NAME)-$(PKG_VERSION).tar.bz2"),
        );
    }
    vars
}

// ───────────────────────────────── the package ───────────────────────────────

/// Whether a text is empty or holds an expression that was not worked out.
pub open spec fn is_unresolved(s: Seq<char>) -> bool {
    s.len() == 0 || text::contains(s, "$("@)
}

/// Whether a text is empty or holds an expression that was not worked out.
fn unresolved(s: &str) -> (r: bool)
    ensures
        r == is_unresolved(s@),
{
    text::length(s) == 0 || text::has(s, "$(")
}

/// The expansion of a variable, if it is there.
pub open spec fn expanded_var(m: Map<Seq<char>, Seq<char>>, name: Seq<char>) -> Option<Seq<char>> {
    match vars::lookup(m, name) {
        Some(v) => Some(expand::expand(v, m)),
        None => None,
    }
}

/// The expansion of a variable, if it is there and resolved.
pub open spec fn resolved_var(m: Map<Seq<char>, Seq<char>>, name: Seq<char>) -> Option<Seq<char>> {
    match expanded_var(m, name) {
        Some(v) => if is_unresolved(v) {
            None
        } else {
            Some(v)
        },
        None => None,
    }
}

/// The expansion of a variable, or nothing where it is not there.
pub open spec fn expanded_or_empty(m: Map<Seq<char>, Seq<char>>, name: Seq<char>) -> Seq<char> {
    expand::expand(vars::value_of(m, name), m)
}

/// The expansion of a variable, if it is there.
fn get_expanded(vars: &VarMap, name: &str) -> (r: Option<String>)
    ensures
        text::opt_text(r) == expanded_var(vars@, name@),
{
    match vars.get(name) {
        Some(v) => Some(expand::expand_vars(&v, vars)),
        None => None,
    }
}

/// The expansion of a variable, if it is there and resolved.
fn get_resolved(vars: &VarMap, name: &str) -> (r: Option<String>)
    ensures
        text::opt_text(r) == resolved_var(vars@, name@),
{
    match get_expanded(vars, name) {
        Some(v) => if unresolved(&v) {
            None
        } else {
            Some(v)
        },
        None => None,
    }
}

/// The URLs among the words of PKG_SOURCE_URL, without question marks at the
/// end.
pub open spec fn urls_among(ws: Seq<Seq<char>>) -> Seq<Seq<char>>
    decreases ws.len(),
{
    if ws.len() == 0 {
        Seq::empty()
    } else if "http://"@.is_prefix_of(ws.last()) || "https://"@.is_prefix_of(ws.last()) {
        urls_among(ws.drop_last()).push(text::trim_end_matches(ws.last(), "?"@))
    } else {
        urls_among(ws.drop_last())
    }
}

/// The URLs among the words of PKG_SOURCE_URL.
fn pick_urls(ws: &Vec<String>) -> (r: Vec<String>)
    ensures
        text::texts(r@) == urls_among(text::texts(ws@)),
{
    broadcast use text::lemma_texts_push;

    let ghost all = text::texts(ws@);
    let mut out: Vec<String> = Vec::new();
    proof {
        assert(text::texts(out@) =~= Seq::<Seq<char>>::empty());
    }
    for i in 0..ws.len()
        invariant
            all == text::texts(ws@),
            text::texts(out@) == urls_among(all.take(i as int)),
    {
        proof {
            assert(all.take(i + 1).drop_last() =~= all.take(i as int));
        }
        let w = ws[i].as_str();
        if text::starts_with(w, "http://") || text::starts_with(w, "https://") {
            out.push(text::strip_end_matches(w, "?"));
        }
    }
    proof {
        assert(all.take(ws@.len() as int) =~= all);
    }
    out
}

/// The source that a mirror macro such as `@SF/project` names.
pub open spec fn macro_source(
    token: Seq<char>,
    m: Map<Seq<char>, Seq<char>>,
    name: Seq<char>,
) -> Option<Source> {
    if "@SF/"@.is_prefix_of(token) {
        let rest = token.skip("@SF/"@.len() as int);
        let project = expand::expand(sf_project(rest), m);
        if is_unresolved(project) {
            None
        } else {
            Some(Source::SourceForge { project })
        }
    } else if "@OPENWRT"@.is_prefix_of(token) || "@IMMORTALWRT"@.is_prefix_of(token) {
        Some(Source::OpenWrtMirror)
    } else if "@GNU/"@.is_prefix_of(token) {
        Some(mirror_source("GNU"@, token.skip("@GNU/"@.len() as int), m, name))
    } else if "@GNOME/"@.is_prefix_of(token) {
        Some(mirror_source("GNOME"@, token.skip("@GNOME/"@.len() as int), m, name))
    } else if "@APACHE/"@.is_prefix_of(token) {
        Some(mirror_source("APACHE"@, token.skip("@APACHE/"@.len() as int), m, name))
    } else if "@SAVANNAH/"@.is_prefix_of(token) {
        Some(mirror_source("SAVANNAH"@, token.skip("@SAVANNAH/"@.len() as int), m, name))
    } else if "@KERNEL/"@.is_prefix_of(token) {
        Some(mirror_source("KERNEL"@, token.skip("@KERNEL/"@.len() as int), m, name))
    } else {
        None
    }
}

/// The project that the argument of a SourceForge macro names: its first
/// segment, or the second where the first is the word `project`.
pub open spec fn sf_project(rest: Seq<char>) -> Seq<char> {
    if text::before(rest, "/"@) == "project"@ {
        if text::contains(rest, "/"@) {
            text::between(rest, "/"@)
        } else {
            rest
        }
    } else {
        text::before(rest, "/"@)
    }
}

/// The source of a mirror macro: its first segment names the package, else the
/// makefile does.
pub open spec fn mirror_source(
    mirror: Seq<char>,
    rest: Seq<char>,
    m: Map<Seq<char>, Seq<char>>,
    name: Seq<char>,
) -> Source {
    let package = expand::expand(text::before(rest, "/"@), m);
    Source::GnuMirror {
        mirror,
        package: if is_unresolved(package) {
            name
        } else {
            package
        },
    }
}

/// The source of the first word that is a mirror macro.
pub open spec fn first_macro(
    ws: Seq<Seq<char>>,
    m: Map<Seq<char>, Seq<char>>,
    name: Seq<char>,
) -> Option<Source>
    decreases ws.len(),
{
    if ws.len() == 0 {
        None
    } else {
        match macro_source(ws[0], m, name) {
            Some(t) => Some(t),
            None => first_macro(ws.skip(1), m, name),
        }
    }
}

/// What an optional source type says.
pub open spec fn opt_source(o: Option<SourceType>) -> Option<Source> {
    match o {
        Some(t) => Some(t@),
        None => None,
    }
}

/// The source of a mirror macro.
fn mirror_type(mirror: &str, rest: &str, vars: &VarMap, name: &str) -> (r: SourceType)
    ensures
        r@ == mirror_source(mirror@, rest@, vars@, name@),
{
    let first = text::text_before(rest, "/");
    let package = expand::expand_vars(&first, vars);
    SourceType::GnuMirror {
        mirror: text::own(mirror),
        package: if unresolved(&package) {
            text::own(name)
        } else {
            package
        },
    }
}

/// The source that a mirror macro names.
fn macro_type(token: &str, vars: &VarMap, name: &str) -> (r: Option<SourceType>)
    ensures
        opt_source(r) == macro_source(token@, vars@, name@),
{
    if let Some(rest) = text::strip_prefix(token, "@SF/") {
        let first = text::text_before(&rest, "/");
        let project = if text::same(&first, "project") {
            if text::has(&rest, "/") {
                text::text_between(&rest, "/")
            } else {
                rest
            }
        } else {
            first
        };
        let project = expand::expand_vars(&project, vars);
        return if unresolved(&project) {
            None
        } else {
            Some(SourceType::SourceForge { project })
        };
    }
    if text::starts_with(token, "@OPENWRT") || text::starts_with(token, "@IMMORTALWRT") {
        return Some(SourceType::OpenWrtMirror);
    }
    if let Some(rest) = text::strip_prefix(token, "@GNU/") {
        return Some(mirror_type("GNU", &rest, vars, name));
    }
    if let Some(rest) = text::strip_prefix(token, "@GNOME/") {
        return Some(mirror_type("GNOME", &rest, vars, name));
    }
    if let Some(rest) = text::strip_prefix(token, "@APACHE/") {
        return Some(mirror_type("APACHE", &rest, vars, name));
    }
    if let Some(rest) = text::strip_prefix(token, "@SAVANNAH/") {
        return Some(mirror_type("SAVANNAH", &rest, vars, name));
    }
    if let Some(rest) = text::strip_prefix(token, "@KERNEL/") {
        return Some(mirror_type("KERNEL", &rest, vars, name));
    }
    None
}

/// The source of the first word that is a mirror macro.
fn find_macro(ws: &Vec<String>, vars: &VarMap, name: &str) -> (r: Option<SourceType>)
    ensures
        opt_source(r) == first_macro(text::texts(ws@), vars@, name@),
{
    let ghost all = text::texts(ws@);
    proof {
        assert(all.skip(0) =~= all);
    }
    for i in 0..ws.len()
        invariant
            all == text::texts(ws@),
            first_macro(all.skip(i as int), vars@, name@) == first_macro(all, vars@, name@),
    {
        proof {
            assert(all.skip(i as int).skip(1) =~= all.skip(i + 1));
        }
        if let Some(t) = macro_type(ws[i].as_str(), vars, name) {
            return Some(t);
        }
    }
    None
}

/// The source of the first URL that tells one.
pub open spec fn first_known(
    urls: Seq<Seq<char>>,
    version: Seq<char>,
    name: Seq<char>,
) -> Option<Source>
    decreases urls.len(),
{
    if urls.len() == 0 {
        None
    } else if source_of_url(urls[0], version, name) is Unknown {
        first_known(urls.skip(1), version, name)
    } else {
        Some(source_of_url(urls[0], version, name))
    }
}

/// The source of the first URL that tells one.
fn find_known(urls: &Vec<String>, version: &str, name: &str, vars: &VarMap) -> (r: Option<
    SourceType,
>)
    ensures
        opt_source(r) == first_known(text::texts(urls@), version@, name@),
{
    let ghost all = text::texts(urls@);
    proof {
        assert(all.skip(0) =~= all);
    }
    for i in 0..urls.len()
        invariant
            all == text::texts(urls@),
            first_known(all.skip(i as int), version@, name@) == first_known(all, version@, name@),
    {
        proof {
            assert(all.skip(i as int).skip(1) =~= all.skip(i + 1));
        }
        let t = detect_source_type(urls[i].as_str(), version, name, vars);
        match t {
            SourceType::Unknown => {},
            t => {
                return Some(t);
            },
        }
    }
    None
}

// ────────────────────────── sources told by variables ────────────────────────

/// The source of a GitHub repository: the commit or the tag that
/// PKG_SOURCE_VERSION holds, else its releases.
pub open spec fn github_source(
    owner: Seq<char>,
    repo: Seq<char>,
    source_version: Option<Seq<char>>,
    version: Seq<char>,
) -> Source {
    match source_version {
        Some(v) => if outside::is_commit_hash(v) {
            Source::GitHubCommit { owner, repo, commit: v }
        } else {
            tagged_source(owner, repo, v, version)
        },
        None => Source::GitHubRelease { owner, repo, tag_template: TagForm::WithV },
    }
}

/// The source of a GitLab repository.
pub open spec fn gitlab_source(
    host: Seq<char>,
    owner: Seq<char>,
    repo: Seq<char>,
    source_version: Option<Seq<char>>,
    version: Seq<char>,
) -> Source {
    Source::GitLab {
        host,
        owner,
        repo,
        tag_template: match source_version {
            Some(v) => if outside::is_commit_hash(v) {
                TagForm::Plain
            } else {
                template_of(v, version)
            },
            None => TagForm::WithV,
        },
    }
}

/// The source of a GitHub repository.
pub fn github_repository(
    owner: String,
    repo: String,
    source_version: &Option<String>,
    version: &str,
) -> (r: SourceType)
    ensures
        r@ == github_source(owner@, repo@, text::opt_text(*source_version), version@),
{
    match source_version {
        Some(v) => if is_match(patterns::COMMIT_HASH, v) {
            SourceType::GitHubCommit { owner, repo, commit: v.clone() }
        } else {
            tagged(owner, repo, v, version)
        },
        None => SourceType::GitHubRelease { owner, repo, tag_template: TagTemplate::WithV },
    }
}

/// The source of a GitLab repository.
pub fn gitlab_repository(
    host: String,
    owner: String,
    repo: String,
    source_version: &Option<String>,
    version: &str,
) -> (r: SourceType)
    ensures
        r@ == gitlab_source(host@, owner@, repo@, text::opt_text(*source_version), version@),
{
    let tag_template = match source_version {
        Some(v) => if is_match(patterns::COMMIT_HASH, v) {
            TagTemplate::Plain
        } else {
            detect_tag_template(v, version)
        },
        None => TagTemplate::WithV,
    };
    SourceType::GitLab { host, owner, repo, tag_template }
}

/// A file name without its archive extension and the version before it.
pub open spec fn unversioned(file: Seq<char>, version: Seq<char>) -> Seq<char> {
    let s = text::trim_end_matches(
        text::trim_end_matches(text::trim_end_matches(file, ".tar.gz"@), ".tar.bz2"@),
        ".tgz"@,
    );
    match text::rfind(s, "-"@ + version) {
        Some(p) => s.take(p),
        None => match text::rfind(s, "-v"@ + version) {
            Some(p) => s.take(p),
            None => s,
        },
    }
}

/// A word with its first letter in upper case.
pub open spec fn capitalised(w: Seq<char>) -> Seq<char> {
    if w.len() == 0 {
        w
    } else {
        outside::upper(w[0]) + w.skip(1)
    }
}

/// Every word with its first letter in upper case.
pub open spec fn all_capitalised(ws: Seq<Seq<char>>) -> Seq<Seq<char>> {
    Seq::new(ws.len(), |i: int| capitalised(ws[i]))
}

/// The CPAN module of a package: PKG_SOURCE_NAME, else PKG_SOURCE without
/// version and extension, else the name of the package without `perl-`, its
/// parts in title case.
pub open spec fn cpan_module_name(
    m: Map<Seq<char>, Seq<char>>,
    name: Seq<char>,
    version: Seq<char>,
) -> Seq<char> {
    let by_file = match expanded_var(m, "PKG_SOURCE"@) {
        Some(f) => unversioned(f, version),
        None => Seq::empty(),
    };
    match resolved_var(m, "PKG_SOURCE_NAME"@) {
        Some(v) => v,
        None => if !is_unresolved(by_file) {
            by_file
        } else {
            text::join(
                all_capitalised(text::split_on(text::trim_start_matches(name, "perl-"@), '-')),
                "-"@,
            )
        },
    }
}

/// A file name without its archive extension and the version before it.
fn strip_version(file: &str, version: &str) -> (r: String)
    ensures
        r@ == unversioned(file@, version@),
{
    let a = text::strip_end_matches(file, ".tar.gz");
    let b = text::strip_end_matches(&a, ".tar.bz2");
    let s = text::strip_end_matches(&b, ".tgz");
    let plain = text::concat("-", version);
    let with_v = text::concat("-v", version);
    match text::rfind_str(&s, &plain) {
        Some(p) => text::take(&s, p),
        None => match text::rfind_str(&s, &with_v) {
            Some(p) => text::take(&s, p),
            None => s,
        },
    }
}

/// A word with its first letter in upper case.
fn capitalise(w: &str) -> (r: String)
    ensures
        r@ == capitalised(w@),
{
    let x = text::to_chars(w);
    if x.len() == 0 {
        return text::own(w);
    }
    let head = outside::to_uppercase(x[0]);
    let tail = text::skip(w, 1);
    text::concat(&head, &tail)
}

/// The CPAN module of a package.
pub fn cpan_module(vars: &VarMap, name: &str, version: &str) -> (r: String)
    ensures
        r@ == cpan_module_name(vars@, name@, version@),
{
    if let Some(v) = get_resolved(vars, "PKG_SOURCE_NAME") {
        return v;
    }
    if let Some(f) = get_expanded(vars, "PKG_SOURCE") {
        let by_file = strip_version(&f, version);
        if !unresolved(&by_file) {
            return by_file;
        }
    }
    let bare = text::strip_start_matches(name, "perl-");
    let ws = text::parts_of(&bare, '-');
    let mut out: Vec<String> = Vec::new();
    for i in 0..ws.len()
        invariant
            out@.len() == i,
            forall|j: int| 0 <= j < i ==> (#[trigger] out@[j])@ == capitalised(ws@[j]@),
    {
        out.push(capitalise(ws[i].as_str()));
    }
    assert(text::texts(out@) =~= all_capitalised(text::texts(ws@)));
    text::joined(&out, "-")
}

/// What the patterns of bare repositories find in a URL.
#[derive(Debug, Clone)]
pub struct RepoMatches {
    /// a GitHub clone URL
    pub github_git: Option<Vec<Option<String>>>,
    /// a CPAN author's directory
    pub cpan_dir: bool,
    /// a GitLab clone URL
    pub gitlab_git: Option<Vec<Option<String>>>,
    /// a GitHub repository page
    pub github_bare: Option<Vec<Option<String>>>,
}

/// What the repository matches of a URL say.
pub struct RepoFacts {
    /// a GitHub clone URL
    pub github_git: Option<Seq<Option<Seq<char>>>>,
    /// a CPAN author's directory
    pub cpan_dir: bool,
    /// a GitLab clone URL
    pub gitlab_git: Option<Seq<Option<Seq<char>>>>,
    /// a GitHub repository page
    pub github_bare: Option<Seq<Option<Seq<char>>>>,
}

impl View for RepoMatches {
    type V = RepoFacts;

    open spec fn view(&self) -> RepoFacts {
        RepoFacts {
            github_git: match_of(self.github_git),
            cpan_dir: self.cpan_dir,
            gitlab_git: match_of(self.gitlab_git),
            github_bare: match_of(self.github_bare),
        }
    }
}

/// What the patterns of bare repositories find in a URL.
pub open spec fn repo_facts(url: Seq<char>) -> RepoFacts {
    RepoFacts {
        github_git: outside::regex_captures(patterns::GITHUB_GIT@, url),
        cpan_dir: outside::regex_is_match(patterns::CPAN_DIR@, url),
        gitlab_git: outside::regex_captures(patterns::GITLAB_GIT@, url),
        github_bare: outside::regex_captures(patterns::GITHUB_BARE@, url),
    }
}

/// What the patterns of bare repositories find in some URLs.
pub open spec fn all_repo_facts(urls: Seq<Seq<char>>) -> Seq<RepoFacts> {
    Seq::new(urls.len(), |i: int| repo_facts(urls[i]))
}

/// What some repository matches say.
pub open spec fn facts_of(v: Seq<RepoMatches>) -> Seq<RepoFacts> {
    Seq::new(v.len(), |i: int| v[i]@)
}

/// Holds URLs to the patterns of bare repositories.
pub fn match_repos(urls: &Vec<String>) -> (r: Vec<RepoMatches>)
    ensures
        facts_of(r@) == all_repo_facts(text::texts(urls@)),
{
    let mut out: Vec<RepoMatches> = Vec::new();
    for i in 0..urls.len()
        invariant
            out@.len() == i,
            forall|j: int| 0 <= j < i ==> (#[trigger] out@[j])@ == repo_facts(urls@[j]@),
    {
        let url = urls[i].as_str();
        out.push(
            RepoMatches {
                github_git: captures(patterns::GITHUB_GIT, url),
                cpan_dir: is_match(patterns::CPAN_DIR, url),
                gitlab_git: captures(patterns::GITLAB_GIT, url),
                github_bare: captures(patterns::GITHUB_BARE, url),
            },
        );
    }
    assert(facts_of(out@) =~= all_repo_facts(text::texts(urls@)));
    out
}

/// The first GitHub clone URL.
pub open spec fn first_github_git(f: Seq<RepoFacts>) -> Option<Seq<Option<Seq<char>>>>
    decreases f.len(),
{
    if f.len() == 0 {
        None
    } else if f[0].github_git is Some {
        f[0].github_git
    } else {
        first_github_git(f.skip(1))
    }
}

/// The first GitLab clone URL.
pub open spec fn first_gitlab_git(f: Seq<RepoFacts>) -> Option<Seq<Option<Seq<char>>>>
    decreases f.len(),
{
    if f.len() == 0 {
        None
    } else if f[0].gitlab_git is Some {
        f[0].gitlab_git
    } else {
        first_gitlab_git(f.skip(1))
    }
}

/// The first GitHub repository page.
pub open spec fn first_github_bare(f: Seq<RepoFacts>) -> Option<Seq<Option<Seq<char>>>>
    decreases f.len(),
{
    if f.len() == 0 {
        None
    } else if f[0].github_bare is Some {
        f[0].github_bare
    } else {
        first_github_bare(f.skip(1))
    }
}

/// Whether a URL is a CPAN author's directory.
pub open spec fn any_cpan_dir(f: Seq<RepoFacts>) -> bool {
    exists|i: int| 0 <= i < f.len() && (#[trigger] f[i]).cpan_dir
}

/// The source of a package none of whose URLs tells one: bare repositories and
/// CPAN directories first, then the variables of language ecosystems, then a
/// plain URL.
pub open spec fn fallback_source(
    f: Seq<RepoFacts>,
    urls: Seq<Seq<char>>,
    m: Map<Seq<char>, Seq<char>>,
    name: Seq<char>,
    version: Seq<char>,
) -> Source {
    let source_version = expanded_var(m, "PKG_SOURCE_VERSION"@);
    let module = cpan_module_name(m, name, version);
    if let Some(g) = first_github_git(f) {
        github_source(outside::group(g, 1), outside::group(g, 2), source_version, version)
    } else if any_cpan_dir(f) && module.len() > 0 {
        Source::Cpan { module }
    } else if let Some(g) = first_gitlab_git(f) {
        gitlab_source(
            outside::group(g, 1),
            outside::group(g, 2),
            outside::group(g, 3),
            source_version,
            version,
        )
    } else if let Some(g) = first_github_bare(f) {
        github_source(outside::group(g, 1), outside::group(g, 2), source_version, version)
    } else {
        ecosystem_source(urls, m)
    }
}

/// The source that the variables of language ecosystems tell, else a plain URL.
pub open spec fn ecosystem_source(
    urls: Seq<Seq<char>>,
    m: Map<Seq<char>, Seq<char>>,
) -> Source {
    let npm = resolved_var(m, "PKG_NPM_NAME"@);
    if let Some(package) = resolved_var(m, "PYPI_NAME"@) {
        Source::PyPI { package }
    } else if let Some(module) = resolved_var(m, "METACPAN_NAME"@) {
        Source::Cpan { module }
    } else if let Some(package) = resolved_var(m, "PECL_NAME"@) {
        Source::Pecl { package }
    } else if npm is Some {
        match resolved_var(m, "PKG_NPM_SCOPE"@) {
            Some(scope) => Source::Npm { package: "@"@ + scope + "/"@ + npm->0 },
            None => Source::Npm { package: npm->0 },
        }
    } else if urls.len() > 0 {
        Source::CustomUrl { url: urls[0] }
    } else if vars::value_of(m, "PKG_SOURCE_URL"@).len() == 0 {
        Source::NoSource
    } else {
        Source::Unknown
    }
}

/// The first GitHub clone URL.
fn find_github_git(ms: &Vec<RepoMatches>) -> (r: Option<usize>)
    ensures
        match r {
            Some(i) => i < ms@.len() && ms@[i as int].github_git is Some && first_github_git(
                facts_of(ms@),
            ) == match_of(ms@[i as int].github_git),
            None => first_github_git(facts_of(ms@)) is None,
        },
{
    let ghost all = facts_of(ms@);
    proof {
        assert(all.skip(0) =~= all);
    }
    for i in 0..ms.len()
        invariant
            all == facts_of(ms@),
            first_github_git(all.skip(i as int)) == first_github_git(all),
    {
        proof {
            assert(all.skip(i as int).skip(1) =~= all.skip(i + 1));
        }
        if ms[i].github_git.is_some() {
            return Some(i);
        }
    }
    None
}

/// The first GitLab clone URL.
fn find_gitlab_git(ms: &Vec<RepoMatches>) -> (r: Option<usize>)
    ensures
        match r {
            Some(i) => i < ms@.len() && ms@[i as int].gitlab_git is Some && first_gitlab_git(
                facts_of(ms@),
            ) == match_of(ms@[i as int].gitlab_git),
            None => first_gitlab_git(facts_of(ms@)) is None,
        },
{
    let ghost all = facts_of(ms@);
    proof {
        assert(all.skip(0) =~= all);
    }
    for i in 0..ms.len()
        invariant
            all == facts_of(ms@),
            first_gitlab_git(all.skip(i as int)) == first_gitlab_git(all),
    {
        proof {
            assert(all.skip(i as int).skip(1) =~= all.skip(i + 1));
        }
        if ms[i].gitlab_git.is_some() {
            return Some(i);
        }
    }
    None
}

/// The first GitHub repository page.
fn find_github_bare(ms: &Vec<RepoMatches>) -> (r: Option<usize>)
    ensures
        match r {
            Some(i) => i < ms@.len() && ms@[i as int].github_bare is Some && first_github_bare(
                facts_of(ms@),
            ) == match_of(ms@[i as int].github_bare),
            None => first_github_bare(facts_of(ms@)) is None,
        },
{
    let ghost all = facts_of(ms@);
    proof {
        assert(all.skip(0) =~= all);
    }
    for i in 0..ms.len()
        invariant
            all == facts_of(ms@),
            first_github_bare(all.skip(i as int)) == first_github_bare(all),
    {
        proof {
            assert(all.skip(i as int).skip(1) =~= all.skip(i + 1));
        }
        if ms[i].github_bare.is_some() {
            return Some(i);
        }
    }
    None
}

/// Whether a URL is a CPAN author's directory.
fn has_cpan_dir(ms: &Vec<RepoMatches>) -> (r: bool)
    ensures
        r == any_cpan_dir(facts_of(ms@)),
{
    for i in 0..ms.len()
        invariant
            forall|j: int| 0 <= j < i ==> !(#[trigger] ms@[j]).cpan_dir,
    {
        if ms[i].cpan_dir {
            assert(facts_of(ms@)[i as int].cpan_dir);
            return true;
        }
    }
    assert forall|i: int| 0 <= i < facts_of(ms@).len() implies !(#[trigger] facts_of(
        ms@,
    )[i]).cpan_dir by {
        assert(!ms@[i].cpan_dir);
    }
    false
}

/// The source of a package none of whose URLs tells one.
pub fn classify_fallback(
    ms: &Vec<RepoMatches>,
    urls: &Vec<String>,
    vars: &VarMap,
    name: &str,
    version: &str,
) -> (r: SourceType)
    ensures
        r@ == fallback_source(facts_of(ms@), text::texts(urls@), vars@, name@, version@),
{
    let source_version = get_expanded(vars, "PKG_SOURCE_VERSION");
    if let Some(i) = find_github_git(ms) {
        if let Some(g) = &ms[i].github_git {
            return github_repository(group_text(g, 1), group_text(g, 2), &source_version, version);
        }
    }
    if has_cpan_dir(ms) {
        let module = cpan_module(vars, name, version);
        if text::length(&module) > 0 {
            return SourceType::Cpan { module };
        }
    }
    if let Some(i) = find_gitlab_git(ms) {
        if let Some(g) = &ms[i].gitlab_git {
            return gitlab_repository(
                group_text(g, 1),
                group_text(g, 2),
                group_text(g, 3),
                &source_version,
                version,
            );
        }
    }
    if let Some(i) = find_github_bare(ms) {
        if let Some(g) = &ms[i].github_bare {
            return github_repository(group_text(g, 1), group_text(g, 2), &source_version, version);
        }
    }
    classify_ecosystem(urls, vars)
}

/// The source that the variables of language ecosystems tell, else a plain URL.
fn classify_ecosystem(urls: &Vec<String>, vars: &VarMap) -> (r: SourceType)
    ensures
        r@ == ecosystem_source(text::texts(urls@), vars@),
{
    if let Some(package) = get_resolved(vars, "PYPI_NAME") {
        return SourceType::PyPI { package };
    }
    if let Some(module) = get_resolved(vars, "METACPAN_NAME") {
        return SourceType::Cpan { module };
    }
    if let Some(package) = get_resolved(vars, "PECL_NAME") {
        return SourceType::Pecl { package };
    }
    if let Some(npm) = get_resolved(vars, "PKG_NPM_NAME") {
        return match get_resolved(vars, "PKG_NPM_SCOPE") {
            Some(scope) => {
                let mut package = text::concat3("@", &scope, "/");
                package.append(npm.as_str());
                SourceType::Npm { package }
            },
            None => SourceType::Npm { package: npm },
        };
    }
    if urls.len() > 0 {
        return SourceType::CustomUrl { url: urls[0].clone() };
    }
    if text::length(&vars.get_or_empty("PKG_SOURCE_URL")) == 0 {
        SourceType::NoSource
    } else {
        SourceType::Unknown
    }
}

/// The URLs that a makefile names.
pub open spec fn source_urls_of(m: Map<Seq<char>, Seq<char>>) -> Seq<Seq<char>> {
    urls_among(text::words(expanded_or_empty(m, "PKG_SOURCE_URL"@)))
}

/// The source of a package: what the first URL that tells one says, else a
/// mirror macro, else the fallback.
pub open spec fn package_source(
    m: Map<Seq<char>, Seq<char>>,
    name: Seq<char>,
    version: Seq<char>,
) -> Source {
    let urls = source_urls_of(m);
    let tokens = text::words(expanded_or_empty(m, "PKG_SOURCE_URL"@));
    if let Some(t) = first_known(urls, version, name) {
        t
    } else if let Some(t) = first_macro(tokens, m, name) {
        t
    } else {
        fallback_source(all_repo_facts(urls), urls, m, name, version)
    }
}

/// Whether a makefile describes a package: its name and its version are there
/// and can be worked out.
pub open spec fn is_package(m: Map<Seq<char>, Seq<char>>) -> bool {
    !is_unresolved(expanded_or_empty(m, "PKG_NAME"@)) && !is_unresolved(
        expanded_or_empty(m, "PKG_VERSION"@),
    )
}

/// The first of some texts.
pub open spec fn first_text(ts: Seq<Seq<char>>) -> Option<Seq<char>> {
    if ts.len() > 0 {
        Some(ts[0])
    } else {
        None
    }
}

/// Whether a parsed makefile says what its variables say.
pub open spec fn says(p: ParsedMakefile, m: Map<Seq<char>, Seq<char>>) -> bool {
    let urls = source_urls_of(m);
    &&& p.raw_vars@ == m
    &&& p.pkg_name@ == expanded_or_empty(m, "PKG_NAME"@)
    &&& p.pkg_version@ == expanded_or_empty(m, "PKG_VERSION"@)
    &&& text::opt_text(p.pkg_release) == expanded_var(m, "PKG_RELEASE"@)
    &&& text::opt_text(p.pkg_hash) == expanded_var(m, "PKG_HASH"@)
    &&& text::opt_text(p.pkg_source_date) == expanded_var(m, "PKG_SOURCE_DATE"@)
    &&& text::opt_text(p.pkg_source_version) == expanded_var(m, "PKG_SOURCE_VERSION"@)
    &&& text::texts(p.source_urls@) == urls
    &&& text::opt_text(p.source_url) == first_text(urls)
    &&& text::opt_text(p.source_file) == (if vars::value_of(m, "PKG_SOURCE"@).len() == 0 {
        None
    } else {
        Some(expanded_or_empty(m, "PKG_SOURCE"@))
    })
    &&& p.source_type@ == package_source(m, p.pkg_name@, p.pkg_version@)
}

/// Reads a package makefile.  None where it describes no package.
pub fn parse_makefile(path: &str, content: &str) -> (r: Option<ParsedMakefile>)
    ensures
        match r {
            Some(p) => is_package(makefile_vars(content@)) && p.path@ == path@ && says(
                p,
                makefile_vars(content@),
            ),
            None => !is_package(makefile_vars(content@)),
        },
{
    let vars = read_vars(content);
    let pkg_name = expand::expand_vars(&vars.get_or_empty("PKG_NAME"), &vars);
    if unresolved(&pkg_name) {
        return None;
    }
    let pkg_version = expand::expand_vars(&vars.get_or_empty("PKG_VERSION"), &vars);
    if unresolved(&pkg_version) {
        return None;
    }
    let urls_text = expand::expand_vars(&vars.get_or_empty("PKG_SOURCE_URL"), &vars);
    let tokens = text::words_of(&urls_text);
    let source_urls = pick_urls(&tokens);
    let raw_source = vars.get_or_empty("PKG_SOURCE");
    let source_file = if text::length(&raw_source) == 0 {
        None
    } else {
        Some(expand::expand_vars(&raw_source, &vars))
    };
    let source_type = match find_known(&source_urls, &pkg_version, &pkg_name, &vars) {
        Some(t) => t,
        None => match find_macro(&tokens, &vars, &pkg_name) {
            Some(t) => t,
            None => {
                let ms = match_repos(&source_urls);
                classify_fallback(&ms, &source_urls, &vars, &pkg_name, &pkg_version)
            },
        },
    };
    let source_url = if source_urls.len() > 0 {
        Some(source_urls[0].clone())
    } else {
        None
    };
    Some(
        ParsedMakefile {
            path: text::own(path),
            pkg_name,
            pkg_version,
            pkg_release: get_expanded(&vars, "PKG_RELEASE"),
            source_url,
            source_urls,
            source_file,
            pkg_hash: get_expanded(&vars, "PKG_HASH"),
            pkg_source_date: get_expanded(&vars, "PKG_SOURCE_DATE"),
            pkg_source_version: get_expanded(&vars, "PKG_SOURCE_VERSION"),
            source_type,
            raw_vars: vars,
        },
    )
}

// ─────────────────────────────── effective version ───────────────────────────

/// The version to compare with upstream: PKG_VERSION, unless PKG_SOURCE_VERSION
/// holds a plain version that differs from it.  A commit hash is none, nor is a
/// tag that PKG_VERSION stands in, nor one that does not start with a digit, such
/// as `v2.2.2`, nor one with an underscore.
pub open spec fn version_in_effect(
    version: Seq<char>,
    source_version: Option<Seq<char>>,
) -> Seq<char> {
    match source_version {
        None => version,
        Some(raw) => {
            let sv = text::trim(raw);
            if !text::starts_in(sv, Class::Digit) || text::contains(sv, "_"@) || (12 <= sv.len()
                <= 40 && text::all_in(sv, Class::Hex)) || text::contains(sv, version) {
                version
            } else {
                sv
            }
        },
    }
}

impl ParsedMakefile {
    /// What `effective_version` gives.
    pub open spec fn in_effect(&self) -> Seq<char> {
        version_in_effect(self.pkg_version@, text::opt_text(self.pkg_source_version))
    }

    /// The version to compare with upstream.
    pub fn effective_version(&self) -> (r: String)
        ensures
            r@ == self.in_effect(),
    {
        if let Some(raw) = &self.pkg_source_version {
            let sv = text::trimmed(raw);
            let n = text::length(&sv);
            let hash = 12 <= n && n <= 40 && text::all_of(&sv, Class::Hex);
            if text::first_in(&sv, Class::Digit) && !text::has(&sv, "_") && !hash && !text::has(
                &sv,
                &self.pkg_version,
            ) {
                return sv;
            }
        }
        self.pkg_version.clone()
    }
}

// ──────────────────────────────────── laws ───────────────────────────────────

proof fn lemma_first_known(urls: Seq<Seq<char>>, version: Seq<char>, name: Seq<char>, i: int)
    requires
        0 <= i < urls.len(),
        !(source_of_url(urls[i], version, name) is Unknown),
        forall|j: int| 0 <= j < i ==> source_of_url(#[trigger] urls[j], version, name) is Unknown,
    ensures
        first_known(urls, version, name) == Some(source_of_url(urls[i], version, name)),
    decreases i,
{
    if i > 0 {
        assert(source_of_url(urls[0], version, name) is Unknown);
        let rest = urls.skip(1);
        assert forall|j: int| 0 <= j < i - 1 implies source_of_url(
            #[trigger] rest[j],
            version,
            name,
        ) is Unknown by {
            assert(rest[j] == urls[j + 1]);
        }
        assert(rest[i - 1] == urls[i]);
        lemma_first_known(rest, version, name, i - 1);
    }
}

/// The URLs of a package are tried in turn: the first one whose source is known
/// tells the source of the package.
pub proof fn law_first_known_url_decides(
    m: Map<Seq<char>, Seq<char>>,
    name: Seq<char>,
    version: Seq<char>,
    i: int,
)
    requires
        0 <= i < source_urls_of(m).len(),
        !(source_of_url(source_urls_of(m)[i], version, name) is Unknown),
        forall|j: int|
            0 <= j < i ==> source_of_url(
                #[trigger] source_urls_of(m)[j],
                version,
                name,
            ) is Unknown,
    ensures
        package_source(m, name, version) == source_of_url(source_urls_of(m)[i], version, name),
{
    lemma_first_known(source_urls_of(m), version, name, i);
}

/// No line changes a variable inside a conditional block: while the block that
/// `open` opens is not closed, the variables stay what they were before it.
pub proof fn law_conditional_block_ignored(
    before: Seq<Seq<char>>,
    open: Seq<char>,
    body: Seq<Seq<char>>,
)
    requires
        open.len() > 0,
        open[0] != '#',
        opens_block(first_word(open)),
        forall|k: int|
            0 <= k < body.len() ==> read_lines(
                before.push(open) + #[trigger] body.take(k),
            ).depth > 0,
    ensures
        read_lines(before.push(open) + body).vars == read_lines(before).vars,
    decreases body.len(),
{
    let all = before.push(open) + body;
    if body.len() == 0 {
        assert(all =~= before.push(open));
        assert(all.drop_last() =~= before);
    } else {
        let front = body.drop_last();
        assert forall|k: int| 0 <= k < front.len() implies read_lines(
            before.push(open) + #[trigger] front.take(k),
        ).depth > 0 by {
            assert(front.take(k) =~= body.take(k));
        }
        law_conditional_block_ignored(before, open, front);
        assert(all.drop_last() =~= before.push(open) + front);
        assert(front =~= body.take(body.len() - 1));
        assert(all.last() == body.last());
    }
}

/// Outside conditional blocks the last plain assignment of a variable gives it
/// its value, and no other variable changes.
pub proof fn law_last_assignment_wins(before: Seq<Seq<char>>, line: Seq<char>)
    requires
        read_lines(before).depth == 0,
        line.len() > 0,
        line[0] != '#',
        !opens_block(first_word(line)),
        first_word(line) != "endif"@,
        first_word(line) != "else"@,
        outside::assignment(line) is Some,
        outside::group(outside::assignment(line)->0, 2) != "?="@,
        outside::group(outside::assignment(line)->0, 2) != "+="@,
    ensures
        ({
            let g = outside::assignment(line)->0;
            let after = read_lines(before.push(line)).vars;
            &&& vars::lookup(after, outside::group(g, 1)) == Some(
                text::trim(outside::group(g, 3)),
            )
            &&& forall|k: Seq<char>|
                k != outside::group(g, 1) ==> #[trigger] vars::lookup(after, k) == vars::lookup(
                    read_lines(before).vars,
                    k,
                )
        }),
{
    assert(before.push(line).drop_last() =~= before);
}

/// A commit hash in PKG_SOURCE_VERSION, a tag that PKG_VERSION stands in, or one
/// that starts with anything but a digit leaves PKG_VERSION in effect.
pub proof fn law_tags_and_hashes_not_versions(version: Seq<char>, source_version: Seq<char>)
    requires
        outside::is_commit_hash(text::trim(source_version)) || text::contains(
            text::trim(source_version),
            version,
        ) || !text::starts_in(text::trim(source_version), Class::Digit),
    ensures
        version_in_effect(version, Some(source_version)) == version,
{
    let sv = text::trim(source_version);
    if outside::is_commit_hash(sv) {
        assert forall|i: int| 0 <= i < sv.len() implies Class::Hex.has(#[trigger] sv[i]) by {
            assert(Class::LowerHex.has(sv[i]));
        }
    }
}

} // verus!

//! The regular expressions that URLs, version texts and pages are held to.

use vstd::prelude::*;

verus! {

/// `VAR := value`, `VAR = value`, `VAR ?= value` or `VAR += value`: name, operator, value.
pub const VAR_ASSIGN: &'static str = r"^([A-Za-z_][A-Za-z0-9_]*)\s*([:?+]?=)\s*(.*)$";

/// A download of a GitHub ref as an archive: owner, repository, ref.
pub const CODELOAD: &'static str = r"https://codeload\.github\.com/([^/]+)/([^/]+)/(?:tar\.gz|zip)/([^?]+)";

/// A GitHub archive of a ref, with or without extension: owner, repository, ref.
pub const GITHUB_ARCHIVE: &'static str = r"https://github\.com/([^/]+)/([^/]+)/archive/([^/?]+?)(?:\.tar\.gz|\.zip|$)";

/// The download directory of a GitHub release: owner, repository, tag.
pub const GITHUB_RELEASES_DOWNLOAD: &'static str = r"https://github\.com/([^/]+)/([^/]+)/releases/download/([^/]+)/?$";

/// A GitHub clone URL: owner, repository.
pub const GITHUB_GIT: &'static str = r"https://github\.com/([^/]+)/([^/]+)\.git$";

/// A full git commit hash.
pub const COMMIT_HASH: &'static str = r"^[0-9a-f]{40}$";

/// An archive on a GitLab host: host, owner path, repository, ref.
pub const GITLAB: &'static str = r"https://(gitlab\.[^/]+)/(.+)/([^/]+)/-/archive/([^/]+)/";

/// A clone URL on a GitLab host: host, owner path, repository.
pub const GITLAB_GIT: &'static str = r"https://(gitlab\.[^/]+|gitlab\.com)/(.+)/([^/]+)\.git$";

/// A BitBucket archive of a ref: owner, repository, ref.
pub const BITBUCKET: &'static str = r"https://bitbucket\.org/([^/]+)/([^/]+)/get/([^/]+)\.tar";

/// The downloads directory of a BitBucket repository: owner, repository.
pub const BITBUCKET_DOWNLOADS: &'static str = r"https://bitbucket\.org/([^/]+)/([^/]+)/downloads/?$";

/// An archive on any host with the layout of Gitea: host, owner, repository, ref.
pub const GITEA: &'static str = r"https://([^/]+)/([^/]+)/([^/]+)/archive/([^/?]+?)(?:\.tar.*)?$";

/// A SourceForge download: on the download host the first and the second path
/// segment, elsewhere the project in the third group.
pub const SOURCEFORGE: &'static str = r"https?://(?:downloads\.sourceforge\.net/([^/]+)(?:/([^/]+))?|sourceforge\.net/projects?/([^/]+))";

/// A PyPI download: package, in the first or the second group.
pub const PYPI: &'static str = r"https?://(?:files\.pythonhosted\.org/packages/[^/]+/[^/]+/([^/]+)/|pypi\.org/packages/[^/]+/[^/]+/([^/]+)/)";

/// A crates.io download: package.
pub const CRATESIO: &'static str = r"https?://(?:static\.crates\.io|crates\.io)/crates/([^/]+)/";

/// A download from the npm registry or one of its mirrors: package.
pub const NPM: &'static str = r"https?://(?:registry\.npmjs\.org|mirrors\.tencent\.com/npm|registry\.npmmirror\.com|mirrors\.huaweicloud\.com/repository/npm|registry\.npmjs\.cf)/([^/]+)/-/";

/// A RubyGems download: gem.
pub const RUBYGEMS: &'static str = r"https?://(?:rubygems\.org/gems/|rubygems\.org/downloads/)([^/\-]+)";

/// A Hackage download: package.
pub const HACKAGE: &'static str = r"https?://hackage\.haskell\.org/package/([^/]+)/";

/// A download from a host of CPAN or MetaCPAN: module.
pub const CPAN: &'static str = r"https?://(?:[^/]+\.)?(?:cpan|metacpan)\.org/(?:[^/]+/)*([A-Za-z][A-Za-z0-9:_-]+)-";

/// An author's directory on CPAN or MetaCPAN.
pub const CPAN_DIR: &'static str = r"https?://(?:[^/]+\.)?(?:cpan|metacpan)\.org/(?:CPAN/)?authors/";

/// The page of a GitHub repository: owner, repository.
pub const GITHUB_BARE: &'static str = r"^https://github\.com/([^/]+)/([^/]+)$";

/// A download from kernel.org: package.
pub const KERNELORG: &'static str = r"https?://(?:cdn|www)\.kernel\.org/pub/linux/(?:[^/]+/)?([^/]+)/";

/// A snapshot of a cgit repository, on a git host or under `.git/snapshot` on any
/// host: the URL of the repository, in the first or the second group.
pub const CGIT: &'static str = r"(https?://git\.[^/]+/(?:pub/scm/|cgit/|r/)?[^?]+\.git)(?:/(?:snapshot|archive)/|\?)|(https?://[^/]+/[^?]+\.git)/snapshot(?:/|$)";

/// A Maven Central download: group path, artifact.
pub const MAVEN: &'static str = r"https?://(?:repo1\.maven\.org/maven2|search\.maven\.org/remotecontent[^?]*\?)/([a-z][^/]+(?:/[^/]+)*)/([^/]+)/[^/]+/";

/// A download from the Go module proxy: module path.
pub const GOMODULE: &'static str = r"https?://proxy\.golang\.org/([^/@]+(?:/[^/@]+)+)/@";

/// The download page of the Go toolchain.
pub const GOLANG_DL: &'static str = r"https?://(?:go\.dev|golang\.google\.cn)/dl/";

/// The source mirrors of OpenWrt and ImmortalWrt.
pub const OPENWRT_SOURCES: &'static str = r"https?://(?:sources\.openwrt\.org|sources\.immortalwrt\.org)/";

/// A repository on googlesource.com: its URL.
pub const GOOGLESOURCE: &'static str = r"(https?://[^/]+\.googlesource\.com/[^/?]+(?:/[^/?]+)*)";

/// A download from freedesktop.org: the last path segment.
pub const FREEDESKTOP: &'static str = r"https?://(?:[^/]+\.)?freedesktop\.org/(?:[^/?]+/)*([^/?]+)/?$";

/// A version that is a date.
pub const DATE_VERSION: &'static str = r"^\d{4}[.\-]\d{2}[.\-]\d{2}$";

/// A version text that is a commit hash.
pub const FORMAT_HASH: &'static str = r"^[0-9a-f]{12,40}$";

/// A version text that is a calendar date.
pub const FORMAT_DATE: &'static str = r"^(?:\d{4}-\d{2}-\d{2}|\d{8})$";

/// A version text that starts with a number.
pub const FORMAT_NUMERIC: &'static str = r"^v?\d";

/// A link to a tarball in a directory page: version.
pub const HTML_INDEX: &'static str = r#"href="[^"]*?-([0-9]+\.[0-9]+(?:\.[0-9]+)*)\.tar"#;

/// A version directory in a SourceForge feed: version.
pub const SF_RSS: &'static str = r"/([0-9]+\.[0-9]+(?:\.[0-9]+)*)/";

/// A pre-release marker in a version: keyword, number with separators, number.
pub const PRERELEASE: &'static str = r"(?i)[-_.]?(alpha|beta|rc|dev|pre|nightly|snapshot|preview|next)([-_.]*(\d+))?";

/// A u-boot tarball in a directory page: version.
pub const UBOOT_TARBALL: &'static str = r"u-boot-(\d{4}\.\d{2}(?:\.\d+)?)\.tar";

/// A repository on GitHub in a URL: owner, name.
pub const GITHUB_REPO: &'static str = r"github\.com[:/]([^/]+)/([^/.\s]+)";

/// A repository on a GitLab host in a URL: host, owner, name.
pub const GITLAB_REPO: &'static str = r"(gitlab\.[^/]+)/([^/]+)/([^/.\s]+)";

} // verus!

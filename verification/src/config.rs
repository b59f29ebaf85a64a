//! The configuration, and the rules that it sets for single packages.

use crate::i18n::Lang;
use crate::text;
use vstd::prelude::*;

verus! {

/// What a configuration sets for one package.
#[derive(Debug, Clone)]
pub struct PkgRule {
    /// versions that one of these regular expressions matches are ignored
    pub ignore_regex: Vec<String>,
    /// only versions from this one on
    pub min_version: Option<String>,
    /// only versions up to this one
    pub max_version: Option<String>,
    /// a prefix of the tag that is no part of the version
    pub strip_prefix: Option<String>,
    /// a suffix of the tag that is no part of the version
    pub strip_suffix: Option<String>,
    /// pre-releases count too
    pub include_prerelease: bool,
    /// a page to take the version from
    pub url_regex_url: Option<String>,
    /// the regular expression that takes it, with the version in its first group
    pub url_regex_pattern: Option<String>,
    /// the package is not checked at all
    pub skip: bool,
    /// the repository on GitHub, `owner/repo`
    pub github: Option<String>,
    /// the repository on GitLab, `host:owner/repo` or `owner/repo`
    pub gitlab: Option<String>,
    /// the repository on Gitea, `host:owner/repo`
    pub gitea: Option<String>,
}

impl PkgRule {
    /// Whether the rule sets nothing.
    pub open spec fn is_empty(self) -> bool {
        &&& self.ignore_regex@.len() == 0
        &&& self.min_version is None
        &&& self.max_version is None
        &&& self.strip_prefix is None
        &&& self.strip_suffix is None
        &&& !self.include_prerelease
        &&& self.url_regex_url is None
        &&& self.url_regex_pattern is None
        &&& !self.skip
        &&& self.github is None
        &&& self.gitlab is None
        &&& self.gitea is None
    }

    /// Whether two rules set the same, but for pre-releases.
    pub open spec fn same_but_prerelease(self, other: PkgRule) -> bool {
        &&& text::texts(self.ignore_regex@) == text::texts(other.ignore_regex@)
        &&& self.min_version == other.min_version
        &&& self.max_version == other.max_version
        &&& self.strip_prefix == other.strip_prefix
        &&& self.strip_suffix == other.strip_suffix
        &&& self.url_regex_url == other.url_regex_url
        &&& self.url_regex_pattern == other.url_regex_pattern
        &&& self.skip == other.skip
        &&& self.github == other.github
        &&& self.gitlab == other.gitlab
        &&& self.gitea == other.gitea
    }
}

impl Default for PkgRule {
    /// A rule that sets nothing.
    fn default() -> (r: Self)
        ensures
            r.is_empty(),
    {
        PkgRule {
            ignore_regex: Vec::new(),
            min_version: None,
            max_version: None,
            strip_prefix: None,
            strip_suffix: None,
            include_prerelease: false,
            url_regex_url: None,
            url_regex_pattern: None,
            skip: false,
            github: None,
            gitlab: None,
            gitea: None,
        }
    }
}

/// The form in which reports are saved.
#[derive(Debug, Clone, Copy, PartialEq, Eq, Structural)]
pub enum OutputFormat {
    Xlsx,
    Csv,
    Both,
    NoReport,
}

impl OutputFormat {
    /// The word for the format.
    pub fn name(&self) -> (r: &'static str)
        ensures
            r@ == (match *self {
                OutputFormat::Xlsx => "xlsx"@,
                OutputFormat::Csv => "csv"@,
                OutputFormat::Both => "both"@,
                OutputFormat::NoReport => "none"@,
            }),
    {
        match self {
            OutputFormat::Xlsx => "xlsx",
            OutputFormat::Csv => "csv",
            OutputFormat::Both => "both",
            OutputFormat::NoReport => "none",
        }
    }

    /// The format at a place of the menu.
    pub fn at(i: usize) -> (r: Self)
        ensures
            r == (if i == 0 {
                OutputFormat::Xlsx
            } else if i == 1 {
                OutputFormat::Csv
            } else if i == 2 {
                OutputFormat::Both
            } else {
                OutputFormat::NoReport
            }),
    {
        match i {
            0 => OutputFormat::Xlsx,
            1 => OutputFormat::Csv,
            2 => OutputFormat::Both,
            _ => OutputFormat::NoReport,
        }
    }

    /// The place of the format in the menu.
    pub fn place(&self) -> (r: usize)
        ensures
            r == (match *self {
                OutputFormat::Xlsx => 0usize,
                OutputFormat::Csv => 1usize,
                OutputFormat::Both => 2usize,
                OutputFormat::NoReport => 3usize,
            }),
    {
        match self {
            OutputFormat::Xlsx => 0,
            OutputFormat::Csv => 1,
            OutputFormat::Both => 2,
            OutputFormat::NoReport => 3,
        }
    }
}

/// The configuration of the program.
#[derive(Debug, Clone)]
pub struct Config {
    pub search_paths: Vec<String>,
    pub parallel_jobs: usize,
    pub timeout_secs: u64,
    /// how often a request is tried again
    pub retry_times: u32,
    pub output_path: Option<String>,
    pub output_format: OutputFormat,
    pub github_token: Option<String>,
    /// directories whose path holds one of these are not searched
    pub skip_patterns: Vec<String>,
    /// packages that are not checked
    pub skip_packages: Vec<String>,
    /// the rules of single packages, by name
    pub pkg_rules: Vec<(String, PkgRule)>,
    /// pre-releases count for all packages
    pub include_prerelease: bool,
    pub lang: Lang,
    /// where downloaded tarballs are kept
    pub dl_path: Option<String>,
    /// whether the hashes of new tarballs are fetched
    pub fetch_upstream_hash: bool,
}

/// The most jobs that run at a time unless the configuration says otherwise.
pub const MAX_DEFAULT_JOBS: usize = 16;

/// How many jobs run at a time on a machine with so many processors, if that is
/// known.
pub open spec fn jobs_for(processors: Option<usize>) -> usize {
    match processors {
        Some(n) => if n < MAX_DEFAULT_JOBS {
            n
        } else {
            MAX_DEFAULT_JOBS
        },
        None => 4,
    }
}

/// How many jobs run at a time.
pub fn default_jobs(processors: Option<usize>) -> (r: usize)
    ensures
        r == jobs_for(processors),
{
    match processors {
        Some(n) => if n < MAX_DEFAULT_JOBS {
            n
        } else {
            MAX_DEFAULT_JOBS
        },
        None => 4,
    }
}

/// How often a request is tried again unless the configuration says otherwise.
pub fn default_retry_times() -> (r: u32)
    ensures
        r == 3,
{
    3
}

impl Config {
    /// Whether the configuration is the one that a first run starts with, on a
    /// machine with so many processors and with this token in its environment.
    pub open spec fn is_initial(
        self,
        processors: Option<usize>,
        token: Option<Seq<char>>,
    ) -> bool {
        &&& text::texts(self.search_paths@) == seq!["."@]
        &&& self.parallel_jobs == jobs_for(processors)
        &&& self.timeout_secs == 30
        &&& self.retry_times == 3
        &&& self.output_path is None
        &&& self.output_format == OutputFormat::Xlsx
        &&& text::opt_text(self.github_token) == token
        &&& text::texts(self.skip_patterns@) == seq!["host/"@, "toolchain/"@]
        &&& self.skip_packages@.len() == 0
        &&& self.pkg_rules@.len() == 0
        &&& !self.include_prerelease
        &&& self.lang == Lang::En
        &&& self.dl_path is None
        &&& !self.fetch_upstream_hash
    }

    /// The configuration that a first run starts with.
    pub fn initial(processors: Option<usize>, github_token: Option<String>) -> (r: Self)
        ensures
            r.is_initial(processors, text::opt_text(github_token)),
    {
        let mut search_paths: Vec<String> = Vec::new();
        search_paths.push(text::own("."));
        let mut skip_patterns: Vec<String> = Vec::new();
        skip_patterns.push(text::own("host/"));
        skip_patterns.push(text::own("toolchain/"));
        assert(text::texts(search_paths@) =~= seq!["."@]);
        assert(text::texts(skip_patterns@) =~= seq!["host/"@, "toolchain/"@]);
        Config {
            search_paths,
            parallel_jobs: default_jobs(processors),
            timeout_secs: 30,
            retry_times: default_retry_times(),
            output_path: None,
            output_format: OutputFormat::Xlsx,
            github_token,
            skip_patterns,
            skip_packages: Vec::new(),
            pkg_rules: Vec::new(),
            include_prerelease: false,
            lang: Lang::En,
            dl_path: None,
            fetch_upstream_hash: false,
        }
    }
}

} // verus!

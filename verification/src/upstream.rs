//! What is known of the latest version of a package: the result of a check, the
//! rules of single packages, and the order in which sources are asked.

use crate::config::PkgRule;
use crate::makefile_parser::{ParsedMakefile, SourceType, TagTemplate};
use crate::makefile_parser::{Source, TagForm};
use crate::outside;
use crate::text;
use crate::version;
use vstd::prelude::*;

verus! {

// ─────────────────────────────── check results ───────────────────────────────

/// The result of a check.
#[derive(Debug, Clone)]
pub struct UpstreamInfo {
    /// the package
    pub pkg_name: String,
    /// the current version as it is shown
    pub current_version: String,
    /// the latest version as it is shown
    pub latest_version: Option<String>,
    /// the tag of the latest version
    pub latest_tag: Option<String>,
    /// the commit of the latest version
    pub latest_commit: Option<String>,
    /// the latest commit of the default branch
    pub upstream_commit: Option<String>,
    /// the SHA-256 of the latest tarball
    pub latest_hash_sha256: Option<String>,
    /// whether the latest version is newer; none if that is not known
    pub is_outdated: Option<bool>,
    /// where the latest version was looked up
    pub upstream_url: Option<String>,
    /// why there is no latest version, or what else went wrong
    pub check_error: Option<String>,
    /// the source that answered
    pub source_backend: String,
    /// whether PKG_HASH differs from the hash of the tarball; none if not checked
    pub hash_mismatch: Option<bool>,
    /// what PKG_VERSION is to be set to; none leaves it
    pub write_pkg_version: Option<String>,
    /// what PKG_SOURCE_VERSION is to be set to; none leaves it
    pub write_pkg_source_version: Option<String>,
    /// what PKG_SOURCE_DATE is to be set to; none leaves it
    pub write_pkg_source_date: Option<String>,
    /// whether the two versions are of different formats; then nothing is written
    pub format_mismatch: bool,
    /// whether the current version is newer than the latest one; then nothing is
    /// written
    pub is_newer: bool,
}

/// What the result of a check says.
pub struct Info {
    pub pkg_name: Seq<char>,
    pub current_version: Seq<char>,
    pub latest_version: Option<Seq<char>>,
    pub latest_tag: Option<Seq<char>>,
    pub latest_commit: Option<Seq<char>>,
    pub upstream_commit: Option<Seq<char>>,
    pub latest_hash_sha256: Option<Seq<char>>,
    pub is_outdated: Option<bool>,
    pub upstream_url: Option<Seq<char>>,
    pub check_error: Option<Seq<char>>,
    pub source_backend: Seq<char>,
    pub hash_mismatch: Option<bool>,
    pub write_pkg_version: Option<Seq<char>>,
    pub write_pkg_source_version: Option<Seq<char>>,
    pub write_pkg_source_date: Option<Seq<char>>,
    pub format_mismatch: bool,
    pub is_newer: bool,
}

impl View for UpstreamInfo {
    type V = Info;

    open spec fn view(&self) -> Info {
        Info {
            pkg_name: self.pkg_name@,
            current_version: self.current_version@,
            latest_version: text::opt_text(self.latest_version),
            latest_tag: text::opt_text(self.latest_tag),
            latest_commit: text::opt_text(self.latest_commit),
            upstream_commit: text::opt_text(self.upstream_commit),
            latest_hash_sha256: text::opt_text(self.latest_hash_sha256),
            is_outdated: self.is_outdated,
            upstream_url: text::opt_text(self.upstream_url),
            check_error: text::opt_text(self.check_error),
            source_backend: self.source_backend@,
            hash_mismatch: self.hash_mismatch,
            write_pkg_version: text::opt_text(self.write_pkg_version),
            write_pkg_source_version: text::opt_text(self.write_pkg_source_version),
            write_pkg_source_date: text::opt_text(self.write_pkg_source_date),
            format_mismatch: self.format_mismatch,
            is_newer: self.is_newer,
        }
    }
}

/// The result of a check that found nothing and went no way.
pub open spec fn blank_of(name: Seq<char>, current: Seq<char>) -> Info {
    Info {
        pkg_name: name,
        current_version: current,
        latest_version: None,
        latest_tag: None,
        latest_commit: None,
        upstream_commit: None,
        latest_hash_sha256: None,
        is_outdated: None,
        upstream_url: None,
        check_error: None,
        source_backend: Seq::empty(),
        hash_mismatch: None,
        write_pkg_version: None,
        write_pkg_source_version: None,
        write_pkg_source_date: None,
        format_mismatch: false,
        is_newer: false,
    }
}

/// The result of a check that found no version, and why.
pub open spec fn unknown_of(p: ParsedMakefile, reason: Seq<char>, url: Option<Seq<char>>) -> Info {
    Info {
        upstream_url: url,
        check_error: Some(reason),
        source_backend: reason,
        ..blank_of(p.pkg_name@, p.in_effect())
    }
}

/// The result of a check that failed.
pub open spec fn failed_of(p: ParsedMakefile, message: Seq<char>) -> Info {
    Info {
        check_error: Some(message),
        source_backend: "error"@,
        ..blank_of(p.pkg_name@, p.in_effect())
    }
}

/// The result of a check that found a version, to be written to PKG_VERSION or
/// not.
pub open spec fn found_of(
    p: ParsedMakefile,
    version: Seq<char>,
    url: Seq<char>,
    backend: Seq<char>,
    write: bool,
) -> Info {
    Info {
        latest_version: Some(version),
        is_outdated: Some(version::is_outdated(p.in_effect(), version)),
        upstream_url: Some(url),
        source_backend: backend,
        write_pkg_version: if write {
            Some(version)
        } else {
            None
        },
        ..blank_of(p.pkg_name@, p.in_effect())
    }
}

/// The result of a check that found nothing and went no way.
pub fn blank(name: &str, current: &str) -> (r: UpstreamInfo)
    ensures
        r@ == blank_of(name@, current@),
{
    UpstreamInfo {
        pkg_name: text::own(name),
        current_version: text::own(current),
        latest_version: None,
        latest_tag: None,
        latest_commit: None,
        upstream_commit: None,
        latest_hash_sha256: None,
        is_outdated: None,
        upstream_url: None,
        check_error: None,
        source_backend: text::empty(),
        hash_mismatch: None,
        write_pkg_version: None,
        write_pkg_source_version: None,
        write_pkg_source_date: None,
        format_mismatch: false,
        is_newer: false,
    }
}

/// The result of a check that found no version, and why.
pub fn unknown_info(parsed: &ParsedMakefile, reason: &str) -> (r: UpstreamInfo)
    ensures
        r@ == unknown_of(*parsed, reason@, None),
{
    let mut info = blank(&parsed.pkg_name, &parsed.effective_version());
    info.check_error = Some(text::own(reason));
    info.source_backend = text::own(reason);
    info
}

/// The result of a check that found no version at a URL, and why.
pub fn unknown_info_with_url(parsed: &ParsedMakefile, reason: &str, url: &str) -> (r: UpstreamInfo)
    ensures
        r@ == unknown_of(*parsed, reason@, Some(url@)),
{
    let mut info = unknown_info(parsed, reason);
    info.upstream_url = Some(text::own(url));
    info
}

/// The result of a check that failed.
pub fn error_info(parsed: &ParsedMakefile, message: &str) -> (r: UpstreamInfo)
    ensures
        r@ == failed_of(*parsed, message@),
{
    let mut info = blank(&parsed.pkg_name, &parsed.effective_version());
    info.check_error = Some(text::own(message));
    info.source_backend = text::own("error");
    info
}

/// The result of a check that found a version.
pub fn found_info(
    parsed: &ParsedMakefile,
    version: &str,
    url: &str,
    backend: &str,
    write: bool,
) -> (r: UpstreamInfo)
    ensures
        r@ == found_of(*parsed, version@, url@, backend@, write),
{
    let current = parsed.effective_version();
    let mut info = blank(&parsed.pkg_name, &current);
    info.latest_version = Some(text::own(version));
    info.is_outdated = Some(version::compare_versions(&current, version));
    info.upstream_url = Some(text::own(url));
    info.source_backend = text::own(backend);
    if write {
        info.write_pkg_version = Some(text::own(version));
    }
    info
}

// ─────────────────────────────────── rules ───────────────────────────────────

/// A version without the prefix and the suffix that a rule strips.
pub open spec fn stripped(
    v: Seq<char>,
    prefix: Option<Seq<char>>,
    suffix: Option<Seq<char>>,
) -> Seq<char> {
    let front = match prefix {
        Some(p) => if p.is_prefix_of(v) {
            v.skip(p.len() as int)
        } else {
            v
        },
        None => v,
    };
    match suffix {
        Some(s) => if s.is_suffix_of(front) {
            front.take(front.len() - s.len())
        } else {
            front
        },
        None => front,
    }
}

/// The version of a result after the rule has stripped it.
pub open spec fn rule_version(info: Info, rule: PkgRule) -> Seq<char> {
    stripped(
        info.latest_version->0,
        text::opt_text(rule.strip_prefix),
        text::opt_text(rule.strip_suffix),
    )
}

/// A result whose version a rule has filtered out.
pub open spec fn filtered_of(info: Info, reason: Seq<char>) -> Info {
    Info { latest_version: None, is_outdated: None, check_error: Some(reason), ..info }
}

/// The first of some patterns that matches a version.
pub open spec fn first_match(patterns: Seq<Seq<char>>, v: Seq<char>) -> Option<Seq<char>>
    decreases patterns.len(),
{
    if patterns.len() == 0 {
        None
    } else if outside::regex_is_match(patterns[0], v) {
        Some(patterns[0])
    } else {
        first_match(patterns.skip(1), v)
    }
}

/// A result after a rule has been applied, where `ignored` is the pattern by
/// which the rule ignores the version.
pub open spec fn ruled(
    info: Info,
    rule: PkgRule,
    current: Seq<char>,
    ignored: Option<Seq<char>>,
) -> Info {
    if info.latest_version is None {
        info
    } else {
        let v = rule_version(info, rule);
        if !rule.include_prerelease && version::is_prerelease(v) {
            filtered_of(info, "filtered: pre-release version"@)
        } else if ignored is Some {
            filtered_of(info, "filtered by ignore_regex: "@ + ignored->0)
        } else if rule.min_version is Some && version::version_sign(v, rule.min_version->0@) < 0 {
            filtered_of(info, "filtered: version "@ + v + " < min "@ + rule.min_version->0@)
        } else if rule.max_version is Some && version::version_sign(v, rule.max_version->0@) > 0 {
            filtered_of(info, "filtered: version "@ + v + " > max "@ + rule.max_version->0@)
        } else {
            Info {
                latest_version: Some(v),
                is_outdated: Some(version::is_outdated(current, v)),
                ..info
            }
        }
    }
}

/// A result after a rule has been applied.
pub open spec fn rule_applied(info: Info, rule: PkgRule, current: Seq<char>) -> Info {
    ruled(
        info,
        rule,
        current,
        first_match(text::texts(rule.ignore_regex@), rule_version(info, rule)),
    )
}

/// A version without the prefix and the suffix that a rule strips.
fn strip_version(v: &str, rule: &PkgRule) -> (r: String)
    ensures
        r@ == stripped(v@, text::opt_text(rule.strip_prefix), text::opt_text(rule.strip_suffix)),
{
    let front = match &rule.strip_prefix {
        Some(p) => match text::strip_prefix(v, p) {
            Some(rest) => rest,
            None => text::own(v),
        },
        None => text::own(v),
    };
    match &rule.strip_suffix {
        Some(s) => if text::ends_with(&front, s) {
            text::take(&front, text::length(&front) - text::length(s))
        } else {
            front
        },
        None => front,
    }
}

/// Takes the version out of a result, and says why.
fn filter_out(info: &mut UpstreamInfo, reason: String)
    ensures
        final(info)@ == filtered_of(old(info)@, reason@),
{
    info.latest_version = None;
    info.is_outdated = None;
    info.check_error = Some(reason);
}

/// The first of the patterns of a rule that matches a version.
fn ignored_by(rule: &PkgRule, v: &str) -> (r: Option<String>)
    ensures
        text::opt_text(r) == first_match(text::texts(rule.ignore_regex@), v@),
{
    let ghost all = text::texts(rule.ignore_regex@);
    proof {
        assert(all.skip(0) =~= all);
    }
    for i in 0..rule.ignore_regex.len()
        invariant
            all == text::texts(rule.ignore_regex@),
            first_match(all.skip(i as int), v@) == first_match(all, v@),
    {
        proof {
            assert(all.skip(i as int).skip(1) =~= all.skip(i + 1));
        }
        if outside::is_match(rule.ignore_regex[i].as_str(), v) {
            return Some(rule.ignore_regex[i].clone());
        }
    }
    None
}

/// Applies a rule to a result, where `ignored` is the pattern by which the rule
/// ignores the version.
pub fn apply_rule_with(
    info: &mut UpstreamInfo,
    rule: &PkgRule,
    parsed: &ParsedMakefile,
    ignored: Option<String>,
)
    ensures
        final(info)@ == ruled(old(info)@, *rule, parsed.in_effect(), text::opt_text(ignored)),
{
    let latest = match &info.latest_version {
        Some(v) => v.clone(),
        None => {
            return ;
        },
    };
    let v = strip_version(&latest, rule);
    if !rule.include_prerelease && version::is_prerelease_tag(&v) {
        filter_out(info, text::own("filtered: pre-release version"));
        return ;
    }
    if let Some(p) = ignored {
        filter_out(info, text::concat("filtered by ignore_regex: ", &p));
        return ;
    }
    if let Some(min) = &rule.min_version {
        if version::version_order(&v, min) < 0 {
            let mut reason = text::concat3("filtered: version ", &v, " < min ");
            reason.append(min.as_str());
            filter_out(info, reason);
            return ;
        }
    }
    if let Some(max) = &rule.max_version {
        if version::version_order(&v, max) > 0 {
            let mut reason = text::concat3("filtered: version ", &v, " > max ");
            reason.append(max.as_str());
            filter_out(info, reason);
            return ;
        }
    }
    info.is_outdated = Some(version::compare_versions(&parsed.effective_version(), &v));
    info.latest_version = Some(v);
}

/// Applies a rule to a result: strips the version, filters it, and compares it
/// anew.
pub fn apply_rule(info: &mut UpstreamInfo, rule: &PkgRule, parsed: &ParsedMakefile)
    ensures
        final(info)@ == rule_applied(old(info)@, *rule, parsed.in_effect()),
{
    let ignored = match &info.latest_version {
        Some(v) => ignored_by(rule, &strip_version(v, rule)),
        None => None,
    };
    apply_rule_with(info, rule, parsed, ignored);
}

// ───────────────────────────── format and direction ──────────────────────────

/// A result whose write fields are cleared.
pub open spec fn unwritten(info: Info) -> Info {
    Info {
        write_pkg_version: None,
        write_pkg_source_version: None,
        write_pkg_source_date: None,
        ..info
    }
}

/// The current version of a result, or the package's where it has none.
pub open spec fn shown_current(info: Info, p: ParsedMakefile) -> Seq<char> {
    if info.current_version.len() == 0 {
        p.in_effect()
    } else {
        info.current_version
    }
}

/// A result after its versions have been held to each other's format.
pub open spec fn format_checked(info: Info, p: ParsedMakefile) -> Info {
    match info.latest_version {
        Some(l) => if version::format_of(shown_current(info, p)) != version::format_of(l) {
            Info { format_mismatch: true, ..unwritten(info) }
        } else {
            info
        },
        None => info,
    }
}

/// A version as it is shown, without what follows ` (`.
pub open spec fn without_detail(v: Seq<char>) -> Seq<char> {
    text::before(v, " ("@)
}

/// A result after it has been seen whether the current version is the newer one.
pub open spec fn direction_checked(info: Info, p: ParsedMakefile) -> Info {
    match info.latest_version {
        Some(l) => if info.is_outdated == Some(false) && !info.format_mismatch
            && version::newer_sign(without_detail(shown_current(info, p)), without_detail(l)) > 0 {
            Info { is_newer: true, ..unwritten(info) }
        } else {
            info
        },
        None => info,
    }
}

/// The current version of a result, or the package's where it has none.
fn current_of(info: &UpstreamInfo, parsed: &ParsedMakefile) -> (r: String)
    ensures
        r@ == shown_current(info@, *parsed),
{
    if text::length(&info.current_version) == 0 {
        parsed.effective_version()
    } else {
        info.current_version.clone()
    }
}

/// Clears the write fields, so that the makefile stays as it is.
fn clear_writes(info: &mut UpstreamInfo)
    ensures
        final(info)@ == unwritten(old(info)@),
{
    info.write_pkg_version = None;
    info.write_pkg_source_version = None;
    info.write_pkg_source_date = None;
}

/// Marks a result whose versions are of different formats, and clears its write
/// fields.
pub fn finalize_format_mismatch(info: &mut UpstreamInfo, parsed: &ParsedMakefile)
    ensures
        final(info)@ == format_checked(old(info)@, *parsed),
{
    let latest = match &info.latest_version {
        Some(v) => v.clone(),
        None => {
            return ;
        },
    };
    let current = current_of(info, parsed);
    if version::versions_format_incompatible(&current, &latest) {
        clear_writes(info);
        info.format_mismatch = true;
    }
}

/// Marks a result whose current version is newer than the latest one, and clears
/// its write fields.
pub fn mark_newer(info: &mut UpstreamInfo, parsed: &ParsedMakefile)
    ensures
        final(info)@ == direction_checked(old(info)@, *parsed),
{
    let latest = match &info.latest_version {
        Some(v) => v.clone(),
        None => {
            return ;
        },
    };
    let settled = match info.is_outdated {
        Some(b) => !b,
        None => false,
    };
    if !settled || info.format_mismatch {
        return ;
    }
    let current = text::text_before(&current_of(info, parsed), " (");
    let latest = text::text_before(&latest, " (");
    if version::newer_order(&current, &latest) > 0 {
        clear_writes(info);
        info.is_newer = true;
    }
}

// ───────────────────────────── which source to ask ───────────────────────────

/// How a package is to be checked.
#[derive(Debug)]
pub enum CheckPlan {
    /// not at all
    Skip,
    /// at the source that a rule names; no fallback is asked
    Override(SourceType),
    /// at the source that the makefile tells, then at the fallbacks
    Detected(SourceType),
}

/// What a plan says.
pub enum Plan {
    Skip,
    Override(Source),
    Detected(Source),
}

impl View for CheckPlan {
    type V = Plan;

    open spec fn view(&self) -> Plan {
        match self {
            CheckPlan::Skip => Plan::Skip,
            CheckPlan::Override(s) => Plan::Override(s@),
            CheckPlan::Detected(s) => Plan::Detected(s@),
        }
    }
}

/// The host of a repository that is written `host:path`, or the default.
pub open spec fn host_part(s: Seq<char>, default: Seq<char>) -> Seq<char> {
    match text::find(s, ":"@) {
        Some(p) => s.take(p),
        None => default,
    }
}

/// The path of a repository that is written `host:path`.
pub open spec fn path_part(s: Seq<char>) -> Seq<char> {
    match text::find(s, ":"@) {
        Some(p) => s.skip(p + 1),
        None => s,
    }
}

/// The owner of a repository path: what stands before its last slash.
pub open spec fn owner_part(path: Seq<char>) -> Seq<char> {
    match text::rfind(path, "/"@) {
        Some(p) => path.take(p),
        None => Seq::empty(),
    }
}

/// The name of a repository path: what stands after its last slash.
pub open spec fn repo_part(path: Seq<char>) -> Seq<char> {
    match text::rfind(path, "/"@) {
        Some(p) => path.skip(p + 1),
        None => path,
    }
}

/// The source that is asked for a package: freedesktop.org downloads are
/// GStreamer's, whose repositories stand on a GitLab host.
pub open spec fn asked_source(s: Source) -> Source {
    match s {
        Source::Freedesktop { project } => Source::GitLab {
            host: "gitlab.freedesktop.org"@,
            owner: "gstreamer"@,
            repo: project,
            tag_template: TagForm::Plain,
        },
        _ => s,
    }
}

/// How a package is to be checked.  What a rule sets comes before what the
/// makefile tells: skip, then a page with a pattern, then a repository on
/// GitHub, GitLab or Gitea.
pub open spec fn plan_of(source: Source, rule: PkgRule) -> Plan {
    if rule.skip {
        Plan::Skip
    } else if rule.url_regex_url is Some && rule.url_regex_pattern is Some {
        Plan::Override(
            Source::UrlRegex {
                url: rule.url_regex_url->0@,
                regex: rule.url_regex_pattern->0@,
            },
        )
    } else if rule.github is Some && text::contains(rule.github->0@, "/"@) {
        let gh = rule.github->0@;
        Plan::Override(
            Source::GitHubRelease {
                owner: text::before(gh, "/"@),
                repo: text::after(gh, "/"@),
                tag_template: TagForm::WithV,
            },
        )
    } else if let Some(gl) = rule.gitlab {
        Plan::Override(
            Source::GitLab {
                host: host_part(gl@, "gitlab.com"@),
                owner: owner_part(path_part(gl@)),
                repo: repo_part(path_part(gl@)),
                tag_template: TagForm::WithV,
            },
        )
    } else if let Some(gt) = rule.gitea {
        Plan::Override(
            Source::Gitea {
                host: host_part(gt@, "codeberg.org"@),
                owner: owner_part(path_part(gt@)),
                repo: repo_part(path_part(gt@)),
                tag_template: TagForm::WithV,
            },
        )
    } else {
        Plan::Detected(asked_source(source))
    }
}

/// Host, owner and name of a repository that is written `host:owner/name`.
fn split_repo(s: &str, default: &str) -> (r: (String, String, String))
    ensures
        r.0@ == host_part(s@, default@),
        r.1@ == owner_part(path_part(s@)),
        r.2@ == repo_part(path_part(s@)),
{
    proof {
        reveal_strlit(":");
        reveal_strlit("/");
    }
    let (host, path) = match text::find_str(s, ":") {
        Some(p) => (text::take(s, p), text::skip(s, p + 1)),
        None => (text::own(default), text::own(s)),
    };
    match text::rfind_str(&path, "/") {
        Some(p) => (host, text::take(&path, p), text::skip(&path, p + 1)),
        None => (host, text::empty(), path),
    }
}

/// A copy of a tag template.
pub fn copy_template(t: &TagTemplate) -> (r: TagTemplate)
    ensures
        r@ == t@,
{
    match t {
        TagTemplate::WithV => TagTemplate::WithV,
        TagTemplate::Plain => TagTemplate::Plain,
        TagTemplate::Custom(s) => TagTemplate::Custom(s.clone()),
    }
}

/// A copy of a source type.
pub fn copy_source(s: &SourceType) -> (r: SourceType)
    ensures
        r@ == s@,
{
    match s {
        SourceType::GitHubRelease { owner, repo, tag_template } => SourceType::GitHubRelease {
            owner: owner.clone(),
            repo: repo.clone(),
            tag_template: copy_template(tag_template),
        },
        SourceType::GitHubCommit { owner, repo, commit } => SourceType::GitHubCommit {
            owner: owner.clone(),
            repo: repo.clone(),
            commit: commit.clone(),
        },
        SourceType::GitHubTagPath { owner, repo, tag_path } => SourceType::GitHubTagPath {
            owner: owner.clone(),
            repo: repo.clone(),
            tag_path: tag_path.clone(),
        },
        SourceType::GitLab { host, owner, repo, tag_template } => SourceType::GitLab {
            host: host.clone(),
            owner: owner.clone(),
            repo: repo.clone(),
            tag_template: copy_template(tag_template),
        },
        SourceType::BitBucket { owner, repo, tag_template } => SourceType::BitBucket {
            owner: owner.clone(),
            repo: repo.clone(),
            tag_template: copy_template(tag_template),
        },
        SourceType::Gitea { host, owner, repo, tag_template } => SourceType::Gitea {
            host: host.clone(),
            owner: owner.clone(),
            repo: repo.clone(),
            tag_template: copy_template(tag_template),
        },
        SourceType::SourceForge { project } => SourceType::SourceForge { project: project.clone() },
        SourceType::PyPI { package } => SourceType::PyPI { package: package.clone() },
        SourceType::CratesIo { package } => SourceType::CratesIo { package: package.clone() },
        SourceType::Npm { package } => SourceType::Npm { package: package.clone() },
        SourceType::RubyGems { gem } => SourceType::RubyGems { gem: gem.clone() },
        SourceType::Hackage { package } => SourceType::Hackage { package: package.clone() },
        SourceType::Cpan { module } => SourceType::Cpan { module: module.clone() },
        SourceType::Pecl { package } => SourceType::Pecl { package: package.clone() },
        SourceType::KernelOrg { package } => SourceType::KernelOrg { package: package.clone() },
        SourceType::Cgit { repo_url } => SourceType::Cgit { repo_url: repo_url.clone() },
        SourceType::Maven { group_id, artifact_id } => SourceType::Maven {
            group_id: group_id.clone(),
            artifact_id: artifact_id.clone(),
        },
        SourceType::GoModule { module } => SourceType::GoModule { module: module.clone() },
        SourceType::UrlRegex { url, regex } => SourceType::UrlRegex {
            url: url.clone(),
            regex: regex.clone(),
        },
        SourceType::GoLang => SourceType::GoLang,
        SourceType::GoogleSource { repo_url } => SourceType::GoogleSource {
            repo_url: repo_url.clone(),
        },
        SourceType::Freedesktop { project } => SourceType::Freedesktop { project: project.clone() },
        SourceType::NoSource => SourceType::NoSource,
        SourceType::OpenWrtMirror => SourceType::OpenWrtMirror,
        SourceType::GnuMirror { mirror, package } => SourceType::GnuMirror {
            mirror: mirror.clone(),
            package: package.clone(),
        },
        SourceType::CustomUrl { url } => SourceType::CustomUrl { url: url.clone() },
        SourceType::Unknown => SourceType::Unknown,
    }
}

/// How a package is to be checked.
pub fn plan_check(parsed: &ParsedMakefile, rule: &PkgRule) -> (r: CheckPlan)
    ensures
        r@ == plan_of(parsed.source_type@, *rule),
{
    proof {
        reveal_strlit("/");
    }
    if rule.skip {
        return CheckPlan::Skip;
    }
    if let (Some(url), Some(regex)) = (&rule.url_regex_url, &rule.url_regex_pattern) {
        return CheckPlan::Override(
            SourceType::UrlRegex { url: url.clone(), regex: regex.clone() },
        );
    }
    if let Some(gh) = &rule.github {
        proof {
            text::lemma_contains(gh@, "/"@);
        }
        if let Some(p) = text::find_str(gh, "/") {
            return CheckPlan::Override(
                SourceType::GitHubRelease {
                    owner: text::take(gh, p),
                    repo: text::skip(gh, p + 1),
                    tag_template: TagTemplate::WithV,
                },
            );
        }
    }
    if let Some(gl) = &rule.gitlab {
        let (host, owner, repo) = split_repo(gl, "gitlab.com");
        return CheckPlan::Override(
            SourceType::GitLab { host, owner, repo, tag_template: TagTemplate::WithV },
        );
    }
    if let Some(gt) = &rule.gitea {
        let (host, owner, repo) = split_repo(gt, "codeberg.org");
        return CheckPlan::Override(
            SourceType::Gitea { host, owner, repo, tag_template: TagTemplate::WithV },
        );
    }
    match &parsed.source_type {
        SourceType::Freedesktop { project } => CheckPlan::Detected(
            SourceType::GitLab {
                host: text::own("gitlab.freedesktop.org"),
                owner: text::own("gstreamer"),
                repo: project.clone(),
                tag_template: TagTemplate::Plain,
            },
        ),
        s => CheckPlan::Detected(copy_source(s)),
    }
}

/// The directory of a package on the site behind a mirror macro.
pub open spec fn mirror_url(mirror: Seq<char>, package: Seq<char>) -> Seq<char> {
    if mirror == "GNOME"@ {
        "https://download.gnome.org/sources/"@ + package + "/"@
    } else if mirror == "APACHE"@ {
        "https://downloads.apache.org/"@ + package + "/"@
    } else if mirror == "SAVANNAH"@ {
        "https://download.savannah.gnu.org/releases/"@ + package + "/"@
    } else if mirror == "KERNEL"@ {
        "https://www.kernel.org/pub/"@
    } else {
        "https://ftpmirror.gnu.org/"@ + package + "/"@
    }
}

/// The result for a source that nobody is asked about.
pub open spec fn offline_of(p: ParsedMakefile, s: Source) -> Option<Info> {
    match s {
        Source::GoLang => Some(unknown_of(p, "golang-dl"@, Some("https://go.dev/dl/"@))),
        Source::GoogleSource { repo_url } => Some(unknown_of(p, "googlesource"@, Some(repo_url))),
        Source::NoSource => Some(unknown_of(p, "no-source"@, None)),
        Source::OpenWrtMirror => Some(unknown_of(p, "openwrt-mirror"@, None)),
        Source::GnuMirror { mirror, package } => Some(
            unknown_of(p, outside::lower(mirror) + "-mirror"@, Some(mirror_url(mirror, package))),
        ),
        Source::CustomUrl { url } => Some(unknown_of(p, "custom-url"@, Some(url))),
        Source::Unknown => Some(unknown_of(p, "unknown source"@, None)),
        _ => None,
    }
}

/// What an optional result says.
pub open spec fn opt_info(o: Option<UpstreamInfo>) -> Option<Info> {
    match o {
        Some(i) => Some(i@),
        None => None,
    }
}

/// The directory of a package on the site behind a mirror macro.
fn mirror_site(mirror: &str, package: &str) -> (r: String)
    ensures
        r@ == mirror_url(mirror@, package@),
{
    if text::same(mirror, "GNOME") {
        text::concat3("https://download.gnome.org/sources/", package, "/")
    } else if text::same(mirror, "APACHE") {
        text::concat3("https://downloads.apache.org/", package, "/")
    } else if text::same(mirror, "SAVANNAH") {
        text::concat3("https://download.savannah.gnu.org/releases/", package, "/")
    } else if text::same(mirror, "KERNEL") {
        text::own("https://www.kernel.org/pub/")
    } else {
        text::concat3("https://ftpmirror.gnu.org/", package, "/")
    }
}

/// The result for a source that nobody is asked about; none for the others.
pub fn offline_info(parsed: &ParsedMakefile, source: &SourceType) -> (r: Option<UpstreamInfo>)
    ensures
        opt_info(r) == offline_of(*parsed, source@),
{
    match source {
        SourceType::GoLang => Some(
            unknown_info_with_url(parsed, "golang-dl", "https://go.dev/dl/"),
        ),
        SourceType::GoogleSource { repo_url } => Some(
            unknown_info_with_url(parsed, "googlesource", repo_url),
        ),
        SourceType::NoSource => Some(unknown_info(parsed, "no-source")),
        SourceType::OpenWrtMirror => Some(unknown_info(parsed, "openwrt-mirror")),
        SourceType::GnuMirror { mirror, package } => {
            let reason = text::concat(&outside::to_lowercase(mirror), "-mirror");
            Some(unknown_info_with_url(parsed, &reason, &mirror_site(mirror, package)))
        },
        SourceType::CustomUrl { url } => Some(unknown_info_with_url(parsed, "custom-url", url)),
        SourceType::Unknown => Some(unknown_info(parsed, "unknown source")),
        _ => None,
    }
}

// ───────────────────────────── the course of a check ─────────────────────────

/// How a check goes on.
#[derive(Debug)]
pub enum Step {
    /// it is done
    Done(UpstreamInfo),
    /// the next fallback is asked; this is the result if it knows nothing
    Ask(UpstreamInfo),
}

/// What a step says.
pub enum Course {
    Done(Info),
    Ask(Info),
}

impl View for Step {
    type V = Course;

    open spec fn view(&self) -> Course {
        match self {
            Step::Done(i) => Course::Done(i@),
            Step::Ask(i) => Course::Ask(i@),
        }
    }
}

/// A result that no fallback is needed for, or helped with.
pub open spec fn settled(info: Info, p: ParsedMakefile) -> Info {
    direction_checked(format_checked(info, p), p)
}

/// The course of a check after the source of the package has answered: the rule
/// is applied; without a version the fallbacks are asked.
pub open spec fn course_after_answer(info: Info, rule: PkgRule, p: ParsedMakefile) -> Course {
    let i = rule_applied(info, rule, p.in_effect());
    if i.latest_version is None && i.check_error is Some {
        Course::Ask(i)
    } else {
        Course::Done(settled(i, p))
    }
}

/// The course of a check after a fallback has answered: the rule is applied; an
/// answer with a version that it lets through is the result.
pub open spec fn course_after_fallback(
    pending: Info,
    answer: Option<Info>,
    rule: PkgRule,
    p: ParsedMakefile,
) -> Course {
    match answer {
        Some(a) => {
            let i = rule_applied(a, rule, p.in_effect());
            if i.latest_version is Some {
                Course::Done(settled(i, p))
            } else {
                Course::Ask(pending)
            }
        },
        None => Course::Ask(pending),
    }
}

/// The result of a check at the source that a rule names.
pub open spec fn override_result(info: Info, rule: PkgRule, p: ParsedMakefile) -> Info {
    settled(rule_applied(info, rule, p.in_effect()), p)
}

/// Goes on after the source of the package has answered.
pub fn after_answer(mut info: UpstreamInfo, rule: &PkgRule, parsed: &ParsedMakefile) -> (r: Step)
    ensures
        r@ == course_after_answer(info@, *rule, *parsed),
{
    apply_rule(&mut info, rule, parsed);
    if info.latest_version.is_none() && info.check_error.is_some() {
        return Step::Ask(info);
    }
    finalize_format_mismatch(&mut info, parsed);
    mark_newer(&mut info, parsed);
    Step::Done(info)
}

/// Goes on after a fallback has answered, or failed to.
pub fn after_fallback(
    pending: UpstreamInfo,
    answer: Option<UpstreamInfo>,
    rule: &PkgRule,
    parsed: &ParsedMakefile,
) -> (r: Step)
    ensures
        r@ == course_after_fallback(pending@, opt_info(answer), *rule, *parsed),
{
    if let Some(mut a) = answer {
        apply_rule(&mut a, rule, parsed);
        if a.latest_version.is_some() {
            return Step::Done(settle(a, parsed));
        }
    }
    Step::Ask(pending)
}

/// The result after the source that a rule names has answered.
pub fn after_override(mut info: UpstreamInfo, rule: &PkgRule, parsed: &ParsedMakefile) -> (r:
    UpstreamInfo)
    ensures
        r@ == override_result(info@, *rule, *parsed),
{
    apply_rule(&mut info, rule, parsed);
    settle(info, parsed)
}

/// The result where no fallback knew a version.
pub fn settle(mut info: UpstreamInfo, parsed: &ParsedMakefile) -> (r: UpstreamInfo)
    ensures
        r@ == settled(info@, *parsed),
{
    finalize_format_mismatch(&mut info, parsed);
    mark_newer(&mut info, parsed);
    info
}

/// Whether a failure may pass: too many requests, a rate limit, a server error, a
/// timeout, a connection that broke.
pub open spec fn is_transient(message: Seq<char>) -> bool {
    ||| text::contains(message, "429"@)
    ||| text::contains(message, "rate limit"@)
    ||| text::contains(message, "502"@)
    ||| text::contains(message, "503"@)
    ||| text::contains(message, "504"@)
    ||| text::contains(message, "timed out"@)
    ||| text::contains(message, "connection"@)
}

/// How many seconds to wait before the next attempt after a failure, twice as
/// many each time; none to give up.
pub open spec fn wait_after(message: Seq<char>, attempt: u32, retry_times: u32) -> Option<nat> {
    if is_transient(message) && attempt < retry_times {
        Some(vstd::arithmetic::power2::pow2(attempt as nat))
    } else {
        None
    }
}

/// How many seconds to wait before the next attempt after a failure.
pub fn retry_wait(message: &str, attempt: u32, retry_times: u32) -> (r: Option<u64>)
    requires
        attempt < 64,
    ensures
        match r {
            Some(n) => wait_after(message@, attempt, retry_times) == Some(n as nat),
            None => wait_after(message@, attempt, retry_times) is None,
        },
{
    let transient = text::has(message, "429") || text::has(message, "rate limit") || text::has(
        message,
        "502",
    ) || text::has(message, "503") || text::has(message, "504") || text::has(message, "timed out")
        || text::has(message, "connection");
    if !transient || attempt >= retry_times {
        return None;
    }
    let mut n: u64 = 1;
    let mut i: u32 = 0;
    proof {
        vstd::arithmetic::power2::lemma2_to64();
    }
    while i < attempt
        invariant
            i <= attempt < 64,
            n == vstd::arithmetic::power2::pow2(i as nat),
        decreases attempt - i,
    {
        proof {
            vstd::arithmetic::power2::lemma_pow2_unfold((i + 1) as nat);
            if i + 1 < 63 {
                vstd::arithmetic::power2::lemma_pow2_strictly_increases((i + 1) as nat, 63);
            }
            vstd::arithmetic::power2::lemma2_to64_rest();
        }
        n = n * 2;
        i = i + 1;
    }
    Some(n)
}

/// The message for an answer that GitHub refused: none if it did not.
pub open spec fn refusal(status: u16, body: Seq<char>, has_token: bool) -> Option<Seq<char>> {
    if status != 403 && status != 429 {
        None
    } else if status == 429 || text::contains(body, "rate limit"@) || text::contains(
        body,
        "rate_limit"@,
    ) {
        if has_token {
            Some(LIMIT_WITH_TOKEN@)
        } else {
            Some(LIMIT_WITHOUT_TOKEN@)
        }
    } else {
        Some(
            "GitHub API HTTP 403 Forbidden: "@ + (if body.len() <= 200 {
                body
            } else {
                body.take(200)
            }),
        )
    }
}

/// What is said when the rate limit of GitHub is hit with a token.
pub const LIMIT_WITH_TOKEN: &'static str =
    "GitHub API rate limit exceeded (token is set but limit still hit; wait a moment or use a token with higher quota)";

/// What is said when the rate limit of GitHub is hit without a token.
pub const LIMIT_WITHOUT_TOKEN: &'static str =
    "GitHub API rate limit exceeded (no token configured; set a GitHub token in Settings to get 5000 req/h instead of 60 req/h)";

/// The message for an answer that GitHub refused.
pub fn github_refusal(status: u16, body: &str, has_token: bool) -> (r: Option<String>)
    ensures
        text::opt_text(r) == refusal(status, body@, has_token),
{
    if status != 403 && status != 429 {
        return None;
    }
    if status == 429 || text::has(body, "rate limit") || text::has(body, "rate_limit") {
        return Some(
            text::own(
                if has_token {
                    LIMIT_WITH_TOKEN
                } else {
                    LIMIT_WITHOUT_TOKEN
                },
            ),
        );
    }
    let n = text::length(body);
    let head = text::take(
        body,
        if n <= 200 {
            n
        } else {
            200
        },
    );
    assert(n <= 200 ==> head@ =~= body@);
    Some(text::concat("GitHub API HTTP 403 Forbidden: ", &head))
}

// ─────────────────────────────── tarball hashes ──────────────────────────────

/// The URL of a file in a directory.
pub open spec fn file_url(url: Seq<char>, fname: Seq<char>) -> Seq<char> {
    if "/"@.is_suffix_of(url) {
        url + fname
    } else {
        url + "/"@ + fname
    }
}

/// The URL of a file in a directory.
pub fn tarball_url(url: &str, fname: &str) -> (r: String)
    ensures
        r@ == file_url(url@, fname@),
{
    if text::ends_with(url, "/") {
        text::concat(url, fname)
    } else {
        text::concat3(url, "/", fname)
    }
}

/// The digest that PKG_HASH asks for: in lower case, without `sha256:`.
pub open spec fn expected_digest(hash: Seq<char>) -> Seq<char> {
    text::trim_start_matches(outside::lower(text::trim(hash)), "sha256:"@)
}

/// Whether a digest is not the one that PKG_HASH asks for.
pub fn digest_differs(digest: &str, expected_hash: &str) -> (r: bool)
    ensures
        r == (digest@ != expected_digest(expected_hash@)),
{
    let expected = outside::to_lowercase(&text::trimmed(expected_hash));
    let expected = text::strip_start_matches(&expected, "sha256:");
    !text::same(digest, &expected)
}

/// The SHA-256 of a tarball in hexadecimal.
pub fn tarball_hash(bytes: &[u8]) -> (r: String)
    ensures
        r@ == outside::sha256_hex(bytes@),
        r@.len() == 64,
        text::all_in(r@, crate::text::Class::LowerHex),
{
    outside::sha256(bytes)
}

/// Whether the hash of a tarball is not the one that PKG_HASH asks for.
pub fn hash_differs(bytes: &[u8], expected_hash: &str) -> (r: bool)
    ensures
        r == (outside::sha256_hex(bytes@) != expected_digest(expected_hash@)),
{
    let digest = tarball_hash(bytes);
    digest_differs(&digest, expected_hash)
}

/// Whether the tarball of a package is to be held to PKG_HASH: the package is up
/// to date and has a hash, a URL and a file.
pub open spec fn wants_hash_check(info: Info, p: ParsedMakefile) -> bool {
    info.is_outdated == Some(false) && p.pkg_hash is Some && p.source_url is Some
        && p.source_file is Some
}

/// The URL of the tarball to be held to PKG_HASH, and PKG_HASH.
pub fn hash_check(info: &UpstreamInfo, parsed: &ParsedMakefile) -> (r: Option<(String, String)>)
    ensures
        match r {
            Some((url, hash)) => wants_hash_check(info@, *parsed) && url@ == file_url(
                parsed.source_url->0@,
                parsed.source_file->0@,
            ) && hash@ == parsed.pkg_hash->0@,
            None => !wants_hash_check(info@, *parsed),
        },
{
    let up_to_date = match info.is_outdated {
        Some(b) => !b,
        None => false,
    };
    if !up_to_date {
        return None;
    }
    match (&parsed.pkg_hash, &parsed.source_url, &parsed.source_file) {
        (Some(hash), Some(url), Some(fname)) => Some((tarball_url(url, fname), hash.clone())),
        _ => None,
    }
}

// ──────────────────────────────────── laws ───────────────────────────────────

/// Whether a version keeps to a rule: it is no pre-release unless those count, no
/// pattern ignores it, and it is neither below the minimum nor above the maximum.
pub open spec fn keeps_to(v: Seq<char>, rule: PkgRule) -> bool {
    &&& rule.include_prerelease || !version::is_prerelease(v)
    &&& forall|i: int|
        0 <= i < rule.ignore_regex@.len() ==> !outside::regex_is_match(
            (#[trigger] rule.ignore_regex@[i])@,
            v,
        )
    &&& rule.min_version is Some ==> version::version_sign(v, rule.min_version->0@) >= 0
    &&& rule.max_version is Some ==> version::version_sign(v, rule.max_version->0@) <= 0
}

/// A version that a rule lets through keeps to the rule, and is compared anew.
pub proof fn law_rule_lets_through_what_it_allows(info: Info, rule: PkgRule, current: Seq<char>)
    requires
        rule_applied(info, rule, current).latest_version is Some,
    ensures
        ({
            let r = rule_applied(info, rule, current);
            let v = r.latest_version->0;
            &&& v == rule_version(info, rule)
            &&& keeps_to(v, rule)
            &&& r.is_outdated == Some(version::is_outdated(current, v))
        }),
{
    let v = rule_version(info, rule);
    let patterns = text::texts(rule.ignore_regex@);
    lemma_first_match(patterns, v);
    assert forall|i: int| 0 <= i < rule.ignore_regex@.len() implies !outside::regex_is_match(
        (#[trigger] rule.ignore_regex@[i])@,
        v,
    ) by {
        assert(!outside::regex_is_match(patterns[i], v));
    }
}

proof fn lemma_first_match(patterns: Seq<Seq<char>>, v: Seq<char>)
    ensures
        first_match(patterns, v) is None ==> forall|i: int|
            0 <= i < patterns.len() ==> !outside::regex_is_match(#[trigger] patterns[i], v),
        first_match(patterns, v) is Some ==> outside::regex_is_match(
            first_match(patterns, v)->0,
            v,
        ),
    decreases patterns.len(),
{
    if patterns.len() > 0 && !outside::regex_is_match(patterns[0], v) {
        lemma_first_match(patterns.skip(1), v);
        if first_match(patterns, v) is None {
            assert forall|i: int| 0 <= i < patterns.len() implies !outside::regex_is_match(
                #[trigger] patterns[i],
                v,
            ) by {
                if i > 0 {
                    assert(patterns[i] == patterns.skip(1)[i - 1]);
                }
            }
        }
    }
}

/// No check ends with a version that breaks the rule, whether the source of the
/// package, a fallback or the source that the rule names told it.
pub proof fn law_no_result_breaks_the_rule(
    info: Info,
    pending: Info,
    rule: PkgRule,
    p: ParsedMakefile,
)
    ensures
        course_after_answer(info, rule, p) matches Course::Done(r) ==> (r.latest_version matches Some(
            v,
        ) ==> keeps_to(v, rule)),
        course_after_fallback(pending, Some(info), rule, p) matches Course::Done(r) ==> (
        r.latest_version matches Some(v) && keeps_to(v, rule)),
        override_result(info, rule, p).latest_version matches Some(v) ==> keeps_to(v, rule),
{
    if rule_applied(info, rule, p.in_effect()).latest_version is Some {
        law_rule_lets_through_what_it_allows(info, rule, p.in_effect());
    }
}

/// A version that a rule filters out leaves neither a version nor a verdict, but
/// a reason, so that the fallbacks are asked.
pub proof fn law_filtered_version_asks_fallbacks(info: Info, rule: PkgRule, p: ParsedMakefile)
    requires
        info.latest_version is Some,
        rule_applied(info, rule, p.in_effect()).latest_version is None,
    ensures
        rule_applied(info, rule, p.in_effect()).is_outdated is None,
        rule_applied(info, rule, p.in_effect()).check_error is Some,
        course_after_answer(info, rule, p) is Ask,
{
}

/// A rule that sets nothing lets a stable version through as it is.
pub proof fn law_empty_rule_keeps_stable_versions(info: Info, rule: PkgRule, current: Seq<char>)
    requires
        rule.is_empty(),
        info.latest_version is Some,
        !version::is_prerelease(info.latest_version->0),
    ensures
        rule_applied(info, rule, current).latest_version == info.latest_version,
{
    assert(text::texts(rule.ignore_regex@) =~= Seq::<Seq<char>>::empty());
}

/// A package whose versions are of different formats, or whose current version
/// is the newer one, is left as it is: nothing is to be written, whether its
/// source, a fallback or the source that a rule names told the latest version.
pub proof fn law_mismatched_and_newer_packages_unwritten(
    info: Info,
    pending: Info,
    rule: PkgRule,
    p: ParsedMakefile,
)
    requires
        !info.format_mismatch,
        !info.is_newer,
    ensures
        ({
            let r = settled(info, p);
            r.format_mismatch || r.is_newer ==> r == unwritten(r)
        }),
        course_after_answer(info, rule, p) matches Course::Done(r) ==> (r.format_mismatch
            || r.is_newer ==> r == unwritten(r)),
        course_after_fallback(pending, Some(info), rule, p) matches Course::Done(r) ==> (
        r.format_mismatch || r.is_newer ==> r == unwritten(r)),
        ({
            let r = override_result(info, rule, p);
            r.format_mismatch || r.is_newer ==> r == unwritten(r)
        }),
{
}

/// A failure that may pass is waited out twice as long each time, one second at
/// first, and no longer after the last attempt; any other failure ends the check.
pub proof fn law_waits_double(message: Seq<char>, attempt: u32, retry_times: u32)
    requires
        attempt < u32::MAX,
    ensures
        !is_transient(message) ==> wait_after(message, attempt, retry_times) is None,
        attempt >= retry_times ==> wait_after(message, attempt, retry_times) is None,
        is_transient(message) && 0 < retry_times ==> wait_after(message, 0, retry_times) == Some(
            1nat,
        ),
        is_transient(message) && attempt + 1 < retry_times ==> wait_after(
            message,
            (attempt + 1) as u32,
            retry_times,
        ) == Some(2 * wait_after(message, attempt, retry_times)->0),
{
    vstd::arithmetic::power2::lemma2_to64();
    vstd::arithmetic::power2::lemma_pow2_unfold((attempt + 1) as nat);
}

/// No package is newer and outdated, nor newer and of another format.
pub proof fn law_newer_is_not_outdated(info: Info, p: ParsedMakefile)
    requires
        !info.is_newer,
    ensures
        settled(info, p).is_newer ==> settled(info, p).is_outdated == Some(false)
            && !settled(info, p).format_mismatch,
{
}

/// Skipping comes before anything else that a rule sets, and whatever a rule
/// names comes before what the makefile tells.
pub proof fn law_rules_come_first(source: Source, rule: PkgRule)
    ensures
        rule.skip ==> plan_of(source, rule) is Skip,
        !rule.skip && rule.url_regex_url is Some && rule.url_regex_pattern is Some ==> plan_of(
            source,
            rule,
        ) is Override,
        !rule.skip && (rule.gitlab is Some || rule.gitea is Some || rule.github is Some
            && text::contains(rule.github->0@, "/"@)) ==> plan_of(source, rule) is Override,
        rule.is_empty() ==> plan_of(source, rule) == Plan::Detected(asked_source(source)),
{
}

/// A fallback is not asked where the source of the package told a version that
/// its rule lets through.
pub proof fn law_fallbacks_only_without_version(info: Info, rule: PkgRule, p: ParsedMakefile)
    requires
        rule_applied(info, rule, p.in_effect()).latest_version is Some,
    ensures
        course_after_answer(info, rule, p) is Done,
        course_after_answer(info, rule, p)->Done_0.latest_version == rule_applied(
            info,
            rule,
            p.in_effect(),
        ).latest_version,
{
}

} // verus!

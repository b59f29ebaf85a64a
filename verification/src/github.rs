//! What GitHub answers, and what follows from it.

use crate::makefile_parser::{ParsedMakefile, TagForm, TagTemplate};
use crate::outside;
use crate::patterns;
use crate::tags;
use crate::tags::GithubTag;
use crate::text;
use crate::text::Class;
use crate::upstream;
use crate::upstream::{Info, UpstreamInfo};
use crate::version;
use vstd::prelude::*;

verus! {

/// A release of a repository.
#[derive(Debug, Clone)]
pub struct GithubRelease {
    pub tag_name: String,
    pub prerelease: bool,
    pub draft: bool,
}

/// A commit of a repository.
#[derive(Debug, Clone)]
pub struct GithubCommit {
    pub sha: String,
    /// when it was made, such as `2024-01-15T10:30:00Z`
    pub date: String,
}

// ─────────────────────────────────── places ──────────────────────────────────

/// A place of a repository: what stands before its owner, and after its name.
pub open spec fn place(
    front: Seq<char>,
    owner: Seq<char>,
    repo: Seq<char>,
    back: Seq<char>,
) -> Seq<char> {
    front + owner + "/"@ + repo + back
}

/// A place of a repository.
fn place_of(front: &str, owner: &str, repo: &str, back: &str) -> (r: String)
    ensures
        r@ == place(front@, owner@, repo@, back@),
{
    let mut out = text::concat3(front, owner, "/");
    out.append(repo);
    out.append(back);
    out
}

/// Where the API lists releases.
pub fn releases_api(owner: &str, repo: &str) -> (r: String)
    ensures
        r@ == place("https://api.github.com/repos/"@, owner@, repo@, "/releases?per_page=20"@),
{
    place_of("https://api.github.com/repos/", owner, repo, "/releases?per_page=20")
}

/// Where the API lists a page of tags, so many on a page.
pub fn tags_api(owner: &str, repo: &str, per_page: u64, page: u64) -> (r: String)
    ensures
        r@ == place("https://api.github.com/repos/"@, owner@, repo@, "/tags?per_page="@)
            + text::decimal(per_page as nat) + "&page="@ + text::decimal(page as nat),
{
    let mut out = place_of("https://api.github.com/repos/", owner, repo, "/tags?per_page=");
    out.append(text::decimal_of(per_page).as_str());
    out.append("&page=");
    out.append(text::decimal_of(page).as_str());
    out
}

/// Where the API tells the latest commit.
pub fn commits_api(owner: &str, repo: &str) -> (r: String)
    ensures
        r@ == place("https://api.github.com/repos/"@, owner@, repo@, "/commits?per_page=1"@),
{
    place_of("https://api.github.com/repos/", owner, repo, "/commits?per_page=1")
}

/// Where people read the releases.
pub open spec fn releases_page(owner: Seq<char>, repo: Seq<char>) -> Seq<char> {
    place("https://github.com/"@, owner, repo, "/releases"@)
}

// ────────────────────────────────── releases ─────────────────────────────────

/// Whether a release comes into question: it is no draft, and no pre-release
/// unless those count.
pub open spec fn is_release(r: GithubRelease, prereleases: bool) -> bool {
    !r.draft && (prereleases || !r.prerelease) && !version::is_left_out(r.tag_name@, prereleases)
}

/// The position of the first release that comes into question.
pub open spec fn first_release(rs: Seq<GithubRelease>, prereleases: bool) -> Option<int>
    decreases rs.len(),
{
    if rs.len() == 0 {
        None
    } else {
        match first_release(rs.drop_last(), prereleases) {
            Some(i) => Some(i),
            None => if is_release(rs.last(), prereleases) {
                Some(rs.len() - 1)
            } else {
                None
            },
        }
    }
}

/// The result of a check that found a release.
pub open spec fn release_of(
    p: ParsedMakefile,
    tag: Seq<char>,
    form: TagForm,
    owner: Seq<char>,
    repo: Seq<char>,
) -> Info {
    let v = tags::written_version(tags::tag_version(tag, form), form);
    Info {
        latest_tag: Some(tag),
        write_pkg_source_version: tags::written_source(tag, form),
        ..upstream::found_of(p, v, releases_page(owner, repo), "github-release"@, true)
    }
}

/// The result that the releases of a repository give: the first one that comes
/// into question; none if there is none, and the tags are to be asked for.
pub fn from_releases(
    parsed: &ParsedMakefile,
    releases: &Vec<GithubRelease>,
    template: &TagTemplate,
    owner: &str,
    repo: &str,
    prereleases: bool,
) -> (r: Option<UpstreamInfo>)
    ensures
        upstream::opt_info(r) == (match first_release(releases@, prereleases) {
            Some(i) => Some(
                release_of(*parsed, releases@[i].tag_name@, template@, owner@, repo@),
            ),
            None => None,
        }),
{
    for i in 0..releases.len()
        invariant
            first_release(releases@.take(i as int), prereleases) is None,
    {
        let rel = &releases[i];
        proof {
            assert(releases@.take(i + 1).drop_last() =~= releases@.take(i as int));
        }
        if !rel.draft && (prereleases || !rel.prerelease) && !version::left_out(
            &rel.tag_name,
            prereleases,
        ) {
            proof {
                lemma_first_release(releases@, i as int, prereleases);
            }
            let v = tags::extract_version_from_tag(&rel.tag_name, template);
            let (write_ver, write_src) = tags::tag_write_fields(&rel.tag_name, &v, template);
            let url = place_of("https://github.com/", owner, repo, "/releases");
            let mut info = upstream::found_info(parsed, &write_ver, &url, "github-release", true);
            info.latest_tag = Some(rel.tag_name.clone());
            info.write_pkg_source_version = write_src;
            return Some(info);
        }
    }
    assert(releases@.take(releases@.len() as int) =~= releases@);
    None
}

/// Once a release has been found, later ones do not matter.
proof fn lemma_first_release(rs: Seq<GithubRelease>, i: int, prereleases: bool)
    requires
        0 <= i < rs.len(),
        first_release(rs.take(i), prereleases) is None,
        is_release(rs[i], prereleases),
    ensures
        first_release(rs, prereleases) == Some(i),
    decreases rs.len(),
{
    if i == rs.len() - 1 {
        assert(rs.drop_last() =~= rs.take(i));
    } else {
        let front = rs.drop_last();
        assert(front.take(i) =~= rs.take(i));
        lemma_first_release(front, i, prereleases);
    }
}

// ──────────────────────────────────── tags ───────────────────────────────────

/// The most pages of tags that are asked for: repositories whose tags have a
/// prefix may hold many others.
pub fn max_tag_pages(template: &TagTemplate) -> (r: u64)
    ensures
        r == (if template@ is Custom {
            10u64
        } else {
            1u64
        }),
{
    match template {
        TagTemplate::Custom(_) => 10,
        _ => 1,
    }
}

/// Whether no further page of tags is needed: a tag is a candidate already, or
/// the last page was not full.
pub fn enough_tags(
    all: &Vec<GithubTag>,
    template: &TagTemplate,
    last_page: usize,
    prereleases: bool,
) -> (r: bool)
    ensures
        r == (tags::newest(tags::candidates(tags::considered(all@, prereleases), template@)) is Some
            || last_page < 100),
{
    let kept = tags::considered_tags(all, prereleases);
    tags::find_best_tag(&kept, template, "").is_some() || last_page < 100
}

/// The result of a check that found a tag.  Where the makefile has
/// PKG_SOURCE_VERSION, that is written in place of PKG_VERSION.
pub open spec fn tag_found(
    p: ParsedMakefile,
    tag: GithubTag,
    v: Seq<char>,
    form: TagForm,
    url: Seq<char>,
) -> Info {
    let written = tags::written_version(v, form);
    let source = tags::written_source(tag.name@, form);
    Info {
        latest_tag: Some(tag.name@),
        latest_commit: Some(text::byte_prefix(tag.commit.sha@, 8)),
        write_pkg_version: if p.pkg_source_version is Some {
            None
        } else {
            Some(written)
        },
        write_pkg_source_version: if source is Some {
            source
        } else if p.pkg_source_version is Some {
            Some(tag.name@)
        } else {
            None
        },
        ..upstream::found_of(p, written, url, "github-tags"@, false)
    }
}

/// The result that the tags of a repository give.
pub open spec fn tags_result(
    p: ParsedMakefile,
    all: Seq<GithubTag>,
    form: TagForm,
    url: Seq<char>,
    prereleases: bool,
) -> Info {
    let kept = tags::considered(all, prereleases);
    match tags::newest(tags::candidates(kept, form)) {
        Some(i) => tag_found(p, kept[i], tags::candidate(kept[i].name@, form)->0, form, url),
        None => upstream::unknown_of(p, "no stable releases or tags found"@, Some(url)),
    }
}

/// The result that the tags of a repository give.
pub fn from_tags(
    parsed: &ParsedMakefile,
    all: &Vec<GithubTag>,
    template: &TagTemplate,
    owner: &str,
    repo: &str,
    prereleases: bool,
) -> (r: UpstreamInfo)
    ensures
        r@ == tags_result(*parsed, all@, template@, releases_page(owner@, repo@), prereleases),
{
    let url = place_of("https://github.com/", owner, repo, "/releases");
    let kept = tags::considered_tags(all, prereleases);
    match tags::find_best_tag(&kept, template, &parsed.pkg_version) {
        Some((tag, v)) => {
            let (write_ver, write_src) = tags::tag_write_fields(&tag.name, &v, template);
            let mut info = upstream::found_info(parsed, &write_ver, &url, "github-tags", false);
            info.latest_tag = Some(tag.name.clone());
            info.latest_commit = Some(text::byte_prefix_of(&tag.commit.sha, 8));
            if parsed.pkg_source_version.is_none() {
                info.write_pkg_version = Some(write_ver);
            }
            info.write_pkg_source_version = match write_src {
                Some(s) => Some(s),
                None => if parsed.pkg_source_version.is_some() {
                    Some(tag.name.clone())
                } else {
                    None
                },
            };
            info
        },
        None => upstream::unknown_info_with_url(parsed, "no stable releases or tags found", &url),
    }
}

// ────────────────────────────────── tag paths ────────────────────────────────

/// Whether a tag stands under a path prefix and comes into question.
pub open spec fn under_prefix(tag: GithubTag, prefix: Seq<char>, prereleases: bool) -> bool {
    prefix.is_prefix_of(tag.name@) && !version::is_left_out(tag.name@, prereleases)
}

/// The result that tags under a path prefix give: the first one.
pub open spec fn tag_path_result(
    p: ParsedMakefile,
    all: Seq<GithubTag>,
    prefix: Seq<char>,
    url: Seq<char>,
    prereleases: bool,
) -> Info
    decreases all.len(),
{
    if all.len() == 0 {
        upstream::unknown_of(p, "no matching tags found"@, Some(url))
    } else if under_prefix(all[0], prefix, prereleases) {
        Info {
            latest_tag: Some(all[0].name@),
            latest_commit: Some(text::byte_prefix(all[0].commit.sha@, 8)),
            ..upstream::found_of(
                p,
                tags::prefixed_version(all[0].name@, prefix),
                url,
                "github-tag-path"@,
                true,
            )
        }
    } else {
        tag_path_result(p, all.skip(1), prefix, url, prereleases)
    }
}

/// The result that tags under a path prefix give.
pub fn from_tag_path(
    parsed: &ParsedMakefile,
    all: &Vec<GithubTag>,
    tag_path: &str,
    owner: &str,
    repo: &str,
    prereleases: bool,
) -> (r: UpstreamInfo)
    ensures
        r@ == tag_path_result(
            *parsed,
            all@,
            text::trim_end_matches(tag_path@, "/"@),
            place("https://github.com/"@, owner@, repo@, "/tags"@),
            prereleases,
        ),
{
    let url = place_of("https://github.com/", owner, repo, "/tags");
    let prefix = text::strip_end_matches(tag_path, "/");
    proof {
        assert(all@.skip(0) =~= all@);
    }
    for i in 0..all.len()
        invariant
            prefix@ == text::trim_end_matches(tag_path@, "/"@),
            url@ == place("https://github.com/"@, owner@, repo@, "/tags"@),
            tag_path_result(*parsed, all@.skip(i as int), prefix@, url@, prereleases)
                == tag_path_result(*parsed, all@, prefix@, url@, prereleases),
    {
        proof {
            assert(all@.skip(i as int).skip(1) =~= all@.skip(i + 1));
        }
        let tag = &all[i];
        if text::starts_with(&tag.name, &prefix) && !version::left_out(&tag.name, prereleases) {
            let v = tags::extract_version_from_prefixed_tag(&tag.name, &prefix);
            let mut info = upstream::found_info(parsed, &v, &url, "github-tag-path", true);
            info.latest_tag = Some(tag.name.clone());
            info.latest_commit = Some(text::byte_prefix_of(&tag.commit.sha, 8));
            return info;
        }
    }
    upstream::unknown_info_with_url(parsed, "no matching tags found", &url)
}

// ─────────────────────────────────── commits ─────────────────────────────────

/// The version of a tag of a package that follows commits, if the tag is a
/// canonical release: a number without a `+`, of the format of the current
/// version.
pub open spec fn plain_tag(name: Seq<char>, format: u8) -> Option<Seq<char>> {
    let bare = text::trim_start_of(text::trim_start_of(name, Class::Is('v')), Class::Is('V'));
    if text::starts_in(bare, Class::Digit) && !text::contains(bare, "+"@) && version::format_of(bare)
        == format {
        Some(bare)
    } else {
        None
    }
}

/// The canonical releases among some tags that come into question.
pub open spec fn plain_tags(all: Seq<GithubTag>, format: u8, prereleases: bool) -> Seq<
    Option<Seq<char>>,
> {
    Seq::new(
        all.len(),
        |i: int|
            if version::is_left_out(all[i].name@, prereleases) {
                None
            } else {
                plain_tag(all[i].name@, format)
            },
    )
}

/// The position of the tag that a package that follows commits is held to: the
/// newest that comes into question, else the newest.
pub open spec fn commit_tag(all: Seq<GithubTag>, format: u8, prereleases: bool) -> Option<int> {
    match tags::newest(plain_tags(all, format, prereleases)) {
        Some(i) => Some(i),
        None => tags::newest(plain_tags(all, format, true)),
    }
}

/// The position of the first tag with a name.
pub open spec fn first_named(all: Seq<GithubTag>, name: Seq<char>) -> int
    decreases all.len(),
{
    if all.len() == 0 || all[0].name@ == name {
        0
    } else {
        1 + first_named(all.skip(1), name)
    }
}

/// The result of a check that found a tag for a package that follows commits.
pub open spec fn commit_tag_found(
    p: ParsedMakefile,
    name: Seq<char>,
    bare: Seq<char>,
    sha: Seq<char>,
    url: Seq<char>,
) -> Info {
    let current = text::trim_start_of(p.pkg_version@, Class::Is('v'));
    let shown = if text::starts_in(p.pkg_version@, Class::Is('v')) {
        "v"@ + bare
    } else {
        bare
    };
    Info {
        latest_version: Some(shown),
        latest_tag: Some(name),
        latest_commit: Some(text::byte_prefix(sha, 8)),
        is_outdated: Some(version::is_outdated(current, bare)),
        upstream_url: Some(url),
        source_backend: "github-commit+tags"@,
        write_pkg_version: Some(shown),
        write_pkg_source_version: Some(sha),
        ..upstream::blank_of(p.pkg_name@, p.pkg_version@)
    }
}

/// The version of a tag of a package that follows commits.
fn as_plain_tag(name: &str, format: u8) -> (r: Option<String>)
    ensures
        text::opt_text(r) == plain_tag(name@, format),
{
    let bare = text::strip_start(&text::strip_start(name, Class::Is('v')), Class::Is('V'));
    if text::first_in(&bare, Class::Digit) && !text::has(&bare, "+")
        && version::version_format_class(&bare) == format {
        Some(bare)
    } else {
        None
    }
}

/// The canonical releases among some tags that come into question.
fn list_plain_tags(all: &Vec<GithubTag>, format: u8, prereleases: bool) -> (r: Vec<Option<String>>)
    ensures
        tags::opt_texts(r@) == plain_tags(all@, format, prereleases),
        r@.len() == all@.len(),
{
    let mut c: Vec<Option<String>> = Vec::new();
    for i in 0..all.len()
        invariant
            c@.len() == i,
            forall|j: int|
                0 <= j < i ==> text::opt_text(#[trigger] c@[j]) == plain_tags(
                    all@,
                    format,
                    prereleases,
                )[j],
    {
        let name = all[i].name.as_str();
        if version::left_out(name, prereleases) {
            c.push(None);
        } else {
            c.push(as_plain_tag(name, format));
        }
    }
    assert(tags::opt_texts(c@) =~= plain_tags(all@, format, prereleases));
    c
}

/// The position of the first tag with a name.
fn position_of(all: &Vec<GithubTag>, name: &str) -> (r: usize)
    ensures
        r == first_named(all@, name@),
        r <= all@.len(),
{
    proof {
        assert(all@.skip(0) =~= all@);
    }
    let mut i: usize = 0;
    while i < all.len()
        invariant
            i <= all@.len(),
            i + first_named(all@.skip(i as int), name@) == first_named(all@, name@),
        decreases all@.len() - i,
    {
        proof {
            assert(all@.skip(i as int).skip(1) =~= all@.skip(i + 1));
        }
        if text::same(all[i].name.as_str(), name) {
            return i;
        }
        i = i + 1;
    }
    i
}

proof fn lemma_first_named(all: Seq<GithubTag>, i: int)
    requires
        0 <= i < all.len(),
    ensures
        first_named(all, all[i].name@) <= i,
    decreases i,
{
    if all[0].name@ != all[i].name@ {
        assert(all.skip(1)[i - 1] == all[i]);
        lemma_first_named(all.skip(1), i - 1);
    }
}

/// The result that the tags of a repository give for a package that follows
/// commits; none where no tag is a release of the format of the current version,
/// and the commits are to be asked for.
pub fn from_commit_tags(
    parsed: &ParsedMakefile,
    all: &Vec<GithubTag>,
    owner: &str,
    repo: &str,
    prereleases: bool,
) -> (r: Option<UpstreamInfo>)
    ensures
        ({
            let format = version::format_of(
                text::trim_start_of(parsed.pkg_version@, Class::Is('v')),
            );
            upstream::opt_info(r) == (match commit_tag(all@, format, prereleases) {
                Some(i) => Some(
                    commit_tag_found(
                        *parsed,
                        all@[i].name@,
                        plain_tag(all@[i].name@, format)->0,
                        all@[first_named(all@, all@[i].name@)].commit.sha@,
                        releases_page(owner@, repo@),
                    ),
                ),
                None => None,
            })
        }),
{
    let current = text::strip_start(&parsed.pkg_version, Class::Is('v'));
    let format = version::version_format_class(&current);
    let kept = list_plain_tags(all, format, prereleases);
    let any = list_plain_tags(all, format, true);
    let best = match tags::newest_of(&kept) {
        Some(i) => Some(i),
        None => tags::newest_of(&any),
    };
    match best {
        Some(i) => {
            proof {
                assert(text::opt_text(any@[i as int]) == tags::opt_texts(any@)[i as int]);
                assert(text::opt_text(kept@[i as int]) == tags::opt_texts(kept@)[i as int]);
                assert(plain_tag(all@[i as int].name@, format) is Some);
                lemma_first_named(all@, i as int);
            }
            let name = all[i].name.as_str();
            let bare = match as_plain_tag(name, format) {
                Some(v) => v,
                None => text::empty(),
            };
            let k = position_of(all, name);
            let sha = all[k].commit.sha.as_str();
            let shown = if text::first_in(&parsed.pkg_version, Class::Is('v')) {
                text::concat("v", &bare)
            } else {
                text::own(&bare)
            };
            let mut info = upstream::blank(&parsed.pkg_name, &parsed.pkg_version);
            info.is_outdated = Some(version::compare_versions(&current, &bare));
            info.latest_version = Some(shown.clone());
            info.latest_tag = Some(text::own(name));
            info.latest_commit = Some(text::byte_prefix_of(sha, 8));
            info.upstream_url = Some(place_of("https://github.com/", owner, repo, "/releases"));
            info.source_backend = text::own("github-commit+tags");
            info.write_pkg_version = Some(shown);
            info.write_pkg_source_version = Some(text::own(sha));
            Some(info)
        },
        None => None,
    }
}

/// A version or a date with a short commit hash behind it.
pub open spec fn with_hash(s: Seq<char>, short: Seq<char>) -> Seq<char> {
    s + " ("@ + short + ")"@
}

/// The current version of a package that follows commits as it is shown: its
/// date if it has one, else its version, with the commit behind it.
pub open spec fn commit_shown(
    version: Seq<char>,
    source_date: Option<Seq<char>>,
    version_is_date: bool,
    short: Seq<char>,
) -> Seq<char> {
    match source_date {
        Some(d) => with_hash(text::replace(d, "."@, "-"@), short),
        None => if version_is_date {
            with_hash(text::replace(version, "."@, "-"@), short)
        } else {
            with_hash(version, short)
        },
    }
}

/// The current version of a package that follows commits as it is shown.
pub fn show_commit(
    version: &str,
    source_date: &Option<String>,
    version_is_date: bool,
    short: &str,
) -> (r: String)
    ensures
        r@ == commit_shown(version@, text::opt_text(*source_date), version_is_date, short@),
{
    let head = match source_date {
        Some(d) => text::replaced(d, ".", "-"),
        None => if version_is_date {
            text::replaced(version, ".", "-")
        } else {
            text::own(version)
        },
    };
    let mut out = text::concat3(&head, " (", short);
    out.append(")");
    out
}

/// The result of a check that compared commits.
pub open spec fn commit_found(
    p: ParsedMakefile,
    current: Seq<char>,
    sha: Seq<char>,
    date: Seq<char>,
    url: Seq<char>,
) -> Info {
    let day = text::before(date, "T"@);
    Info {
        latest_version: Some(with_hash(day, text::byte_prefix(sha, 8))),
        latest_commit: Some(sha),
        is_outdated: Some(!current.is_prefix_of(sha) && !sha.is_prefix_of(current)),
        upstream_url: Some(url),
        source_backend: "github-commit"@,
        write_pkg_source_version: Some(sha),
        write_pkg_source_date: Some(day),
        ..upstream::blank_of(
            p.pkg_name@,
            commit_shown(
                p.pkg_version@,
                text::opt_text(p.pkg_source_date),
                outside::date_version_matches(text::trim(p.pkg_version@)),
                text::byte_prefix(current, 8),
            ),
        )
    }
}

/// The result that the latest commit of a repository gives for a package at a
/// commit.
pub fn from_commits(
    parsed: &ParsedMakefile,
    commits: &Vec<GithubCommit>,
    current_commit: &str,
    owner: &str,
    repo: &str,
) -> (r: UpstreamInfo)
    ensures
        ({
            let url = place("https://github.com/"@, owner@, repo@, "/commits"@);
            r@ == (if commits@.len() > 0 {
                commit_found(
                    *parsed,
                    current_commit@,
                    commits@[0].sha@,
                    commits@[0].date@,
                    url,
                )
            } else {
                upstream::unknown_of(*parsed, "no commits found"@, Some(url))
            })
        }),
{
    let url = place_of("https://github.com/", owner, repo, "/commits");
    if commits.len() == 0 {
        return upstream::unknown_info_with_url(parsed, "no commits found", &url);
    }
    let sha = commits[0].sha.as_str();
    let day = text::text_before(commits[0].date.as_str(), "T");
    let latest_short = text::byte_prefix_of(sha, 8);
    let current_short = text::byte_prefix_of(current_commit, 8);
    let is_date = outside::is_match(patterns::DATE_VERSION, &text::trimmed(&parsed.pkg_version));
    let current = show_commit(
        &parsed.pkg_version,
        &parsed.pkg_source_date,
        is_date,
        &current_short,
    );
    let mut latest = text::concat3(&day, " (", &latest_short);
    latest.append(")");
    let mut info = upstream::blank(&parsed.pkg_name, &current);
    info.latest_version = Some(latest);
    info.latest_commit = Some(text::own(sha));
    info.is_outdated = Some(
        !text::starts_with(sha, current_commit) && !text::starts_with(current_commit, sha),
    );
    info.upstream_url = Some(url);
    info.source_backend = text::own("github-commit");
    info.write_pkg_source_version = Some(text::own(sha));
    info.write_pkg_source_date = Some(day);
    info
}

} // verus!

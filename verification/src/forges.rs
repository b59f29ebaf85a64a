//! What GitLab, BitBucket, Gitea and cgit answer, and what follows from it.

use crate::makefile_parser::{ParsedMakefile, TagForm, TagTemplate};
use crate::outside;
use crate::pages;
use crate::tags;
use crate::text;
use crate::text::Class;
use crate::upstream;
use crate::upstream::{Info, UpstreamInfo};
use crate::version;
use vstd::prelude::*;

verus! {

/// A tag of a repository on GitLab.
#[derive(Debug, Clone)]
pub struct GitLabTag {
    pub name: String,
    pub commit_id: String,
}

// ─────────────────────────────────── GitLab ──────────────────────────────────

/// The path of a project as it stands in the URLs of GitLab's API.
pub open spec fn project_id(owner: Seq<char>, repo: Seq<char>) -> Seq<char> {
    outside::percent_encoded(owner + "/"@ + repo)
}

/// The page of a repository on a host.
pub open spec fn repo_page(host: Seq<char>, owner: Seq<char>, repo: Seq<char>) -> Seq<char> {
    "https://"@ + host + "/"@ + owner + "/"@ + repo
}

/// The page of a repository on a host.
fn page_of(host: &str, owner: &str, repo: &str) -> (r: String)
    ensures
        r@ == repo_page(host@, owner@, repo@),
{
    let mut out = text::concat3("https://", host, "/");
    out.append(owner);
    out.append("/");
    out.append(repo);
    out
}

/// A place of a project in GitLab's API.
fn project_api(host: &str, owner: &str, repo: &str, back: &str) -> (r: String)
    ensures
        r@ == "https://"@ + host@ + "/api/v4/projects/"@ + project_id(owner@, repo@) + back@,
{
    let path = text::concat3(owner, "/", repo);
    let id = outside::percent_encode(&path);
    let mut out = text::concat3("https://", host, "/api/v4/projects/");
    out.append(id.as_str());
    out.append(back);
    out
}

/// Where GitLab's API lists the tags of a project.
pub fn gitlab_tags_api(host: &str, owner: &str, repo: &str) -> (r: String)
    ensures
        r@ == "https://"@ + host@ + "/api/v4/projects/"@ + project_id(owner@, repo@)
            + "/repository/tags?per_page=30&order_by=version&sort=desc"@,
{
    project_api(host, owner, repo, "/repository/tags?per_page=30&order_by=version&sort=desc")
}

/// Where GitLab's API tells the latest commit of a project.
pub fn gitlab_commits_api(host: &str, owner: &str, repo: &str) -> (r: String)
    ensures
        r@ == "https://"@ + host@ + "/api/v4/projects/"@ + project_id(owner@, repo@)
            + "/repository/commits?per_page=1"@,
{
    project_api(host, owner, repo, "/repository/commits?per_page=1")
}

/// The first number among some runs of digits that fits in sixty-four bits.
pub open spec fn first_number(runs: Seq<Seq<char>>) -> Option<nat>
    decreases runs.len(),
{
    if runs.len() == 0 {
        None
    } else {
        match text::parse_uint(runs[0], u64::MAX as nat) {
            Some(n) => Some(n),
            None => first_number(runs.skip(1)),
        }
    }
}

/// The first number in a version.
pub open spec fn major_of(v: Seq<char>) -> Option<nat> {
    first_number(text::digit_runs(v))
}

/// Whether the first number of a tag's version is not zero and at most one below
/// that of the current version.  A current version without one takes any.
pub open spec fn near_major(current: Seq<char>, v: Seq<char>) -> bool {
    match major_of(current) {
        Some(c) => c == 0 || match major_of(v) {
            Some(t) => t != 0 && t + 1 >= c,
            None => true,
        },
        None => true,
    }
}

/// The versions of some tags of GitLab that come into question.
pub open spec fn gitlab_candidates(
    all: Seq<GitLabTag>,
    form: TagForm,
    current: Seq<char>,
    prereleases: bool,
) -> Seq<Option<Seq<char>>> {
    Seq::new(
        all.len(),
        |i: int|
            {
                let v = tags::tag_version(all[i].name@, form);
                if version::is_left_out(all[i].name@, prereleases) || !near_major(current, v) {
                    None
                } else {
                    Some(v)
                }
            },
    )
}

/// The result that the tags of a project on GitLab give.
pub open spec fn gitlab_result(
    p: ParsedMakefile,
    all: Seq<GitLabTag>,
    form: TagForm,
    host: Seq<char>,
    url: Seq<char>,
    prereleases: bool,
) -> Info {
    match tags::newest(gitlab_candidates(all, form, p.in_effect(), prereleases)) {
        Some(i) => Info {
            latest_tag: Some(all[i].name@),
            latest_commit: Some(text::byte_prefix(all[i].commit_id@, 8)),
            ..upstream::found_of(
                p,
                tags::tag_version(all[i].name@, form),
                url,
                "gitlab("@ + host + ")"@,
                false,
            )
        },
        None => upstream::unknown_of(p, "no stable gitlab tags"@, Some(url)),
    }
}

/// The first number in a version.
fn major(v: &str) -> (r: Option<u64>)
    ensures
        match r {
            Some(n) => major_of(v@) == Some(n as nat),
            None => major_of(v@) is None,
        },
{
    let runs = text::runs_of(v, Class::Digit, Class::NotDigit);
    let ghost all = text::texts(runs@);
    proof {
        assert(all.skip(0) =~= all);
    }
    for i in 0..runs.len()
        invariant
            all == text::texts(runs@),
            all == text::digit_runs(v@),
            first_number(all.skip(i as int)) == first_number(all),
    {
        proof {
            assert(all.skip(i as int).skip(1) =~= all.skip(i + 1));
        }
        if let Some(n) = text::parse_number(runs[i].as_str(), u64::MAX) {
            return Some(n);
        }
    }
    None
}

/// Whether the first number of a tag's version is near that of the current
/// version.
fn is_near_major(current: &str, v: &str) -> (r: bool)
    ensures
        r == near_major(current@, v@),
{
    match major(current) {
        Some(c) => if c == 0 {
            true
        } else {
            match major(v) {
                Some(t) => t != 0 && t >= c - 1,
                None => true,
            }
        },
        None => true,
    }
}

/// The result that the tags of a project on GitLab give.
pub fn from_gitlab_tags(
    parsed: &ParsedMakefile,
    all: &Vec<GitLabTag>,
    template: &TagTemplate,
    host: &str,
    owner: &str,
    repo: &str,
    prereleases: bool,
) -> (r: UpstreamInfo)
    ensures
        r@ == gitlab_result(
            *parsed,
            all@,
            template@,
            host@,
            repo_page(host@, owner@, repo@),
            prereleases,
        ),
{
    let url = page_of(host, owner, repo);
    let current = parsed.effective_version();
    let mut c: Vec<Option<String>> = Vec::new();
    for i in 0..all.len()
        invariant
            current@ == parsed.in_effect(),
            c@.len() == i,
            forall|j: int|
                0 <= j < i ==> text::opt_text(#[trigger] c@[j]) == gitlab_candidates(
                    all@,
                    template@,
                    parsed.in_effect(),
                    prereleases,
                )[j],
    {
        let name = all[i].name.as_str();
        let v = tags::extract_version_from_tag(name, template);
        if version::left_out(name, prereleases) || !is_near_major(&current, &v) {
            c.push(None);
        } else {
            c.push(Some(v));
        }
    }
    assert(tags::opt_texts(c@) =~= gitlab_candidates(
        all@,
        template@,
        parsed.in_effect(),
        prereleases,
    ));
    match tags::newest_of(&c) {
        Some(i) => {
            let v = tags::extract_version_from_tag(all[i].name.as_str(), template);
            let backend = text::concat3("gitlab(", host, ")");
            let mut info = upstream::found_info(parsed, &v, &url, &backend, false);
            info.latest_tag = Some(all[i].name.clone());
            info.latest_commit = Some(text::byte_prefix_of(all[i].commit_id.as_str(), 8));
            info
        },
        None => upstream::unknown_info_with_url(parsed, "no stable gitlab tags", &url),
    }
}

// ───────────────────────────── BitBucket and Gitea ───────────────────────────

/// The first name that comes into question.
pub open spec fn first_name(names: Seq<Seq<char>>, prereleases: bool) -> Option<Seq<char>>
    decreases names.len(),
{
    if names.len() == 0 {
        None
    } else if version::is_left_out(names[0], prereleases) {
        first_name(names.skip(1), prereleases)
    } else {
        Some(names[0])
    }
}

/// The result that the names of tags give: the first that comes into question.
pub open spec fn first_tag_result(
    p: ParsedMakefile,
    names: Seq<Seq<char>>,
    form: TagForm,
    url: Seq<char>,
    backend: Seq<char>,
    write: bool,
    reason: Seq<char>,
    prereleases: bool,
) -> Info {
    match first_name(names, prereleases) {
        Some(name) => Info {
            latest_tag: Some(name),
            ..upstream::found_of(p, tags::tag_version(name, form), url, backend, write)
        },
        None => upstream::unknown_of(p, reason, Some(url)),
    }
}

/// The result that the names of tags give.
fn from_first_tag(
    parsed: &ParsedMakefile,
    names: &Vec<String>,
    template: &TagTemplate,
    url: &str,
    backend: &str,
    write: bool,
    reason: &str,
    prereleases: bool,
) -> (r: UpstreamInfo)
    ensures
        r@ == first_tag_result(
            *parsed,
            text::texts(names@),
            template@,
            url@,
            backend@,
            write,
            reason@,
            prereleases,
        ),
{
    let ghost all = text::texts(names@);
    proof {
        assert(all.skip(0) =~= all);
    }
    for i in 0..names.len()
        invariant
            all == text::texts(names@),
            first_name(all.skip(i as int), prereleases) == first_name(all, prereleases),
    {
        proof {
            assert(all.skip(i as int).skip(1) =~= all.skip(i + 1));
        }
        let name = names[i].as_str();
        if !version::left_out(name, prereleases) {
            let v = tags::extract_version_from_tag(name, template);
            let mut info = upstream::found_info(parsed, &v, url, backend, write);
            info.latest_tag = Some(text::own(name));
            return info;
        }
    }
    upstream::unknown_info_with_url(parsed, reason, url)
}

/// Where BitBucket's API lists the tags of a repository.
pub fn bitbucket_api(owner: &str, repo: &str) -> (r: String)
    ensures
        r@ == "https://api.bitbucket.org/2.0/repositories/"@ + owner@ + "/"@ + repo@
            + "/refs/tags?sort=-name&pagelen=30"@,
{
    let mut out = text::concat3("https://api.bitbucket.org/2.0/repositories/", owner, "/");
    out.append(repo);
    out.append("/refs/tags?sort=-name&pagelen=30");
    out
}

/// The result that the tags of a repository on BitBucket give.
pub fn from_bitbucket_tags(
    parsed: &ParsedMakefile,
    names: &Vec<String>,
    template: &TagTemplate,
    owner: &str,
    repo: &str,
    prereleases: bool,
) -> (r: UpstreamInfo)
    ensures
        r@ == first_tag_result(
            *parsed,
            text::texts(names@),
            template@,
            "https://bitbucket.org/"@ + owner@ + "/"@ + repo@,
            "bitbucket"@,
            true,
            "no stable bitbucket tags"@,
            prereleases,
        ),
{
    let mut url = text::concat3("https://bitbucket.org/", owner, "/");
    url.append(repo);
    from_first_tag(
        parsed,
        names,
        template,
        &url,
        "bitbucket",
        true,
        "no stable bitbucket tags",
        prereleases,
    )
}

/// Where the API of a Gitea host lists the tags of a repository.
pub fn gitea_api(host: &str, owner: &str, repo: &str) -> (r: String)
    ensures
        r@ == "https://"@ + host@ + "/api/v1/repos/"@ + owner@ + "/"@ + repo@
            + "/tags?limit=30&page=1"@,
{
    let mut out = text::concat3("https://", host, "/api/v1/repos/");
    out.append(owner);
    out.append("/");
    out.append(repo);
    out.append("/tags?limit=30&page=1");
    out
}

/// The result that the tags of a repository on a Gitea host give.
pub fn from_gitea_tags(
    parsed: &ParsedMakefile,
    names: &Vec<String>,
    template: &TagTemplate,
    host: &str,
    owner: &str,
    repo: &str,
    prereleases: bool,
) -> (r: UpstreamInfo)
    ensures
        r@ == first_tag_result(
            *parsed,
            text::texts(names@),
            template@,
            repo_page(host@, owner@, repo@),
            "gitea("@ + host@ + ")"@,
            false,
            "no stable gitea tags"@,
            prereleases,
        ),
{
    let url = page_of(host, owner, repo);
    let backend = text::concat3("gitea(", host, ")");
    from_first_tag(
        parsed,
        names,
        template,
        &url,
        &backend,
        false,
        "no stable gitea tags",
        prereleases,
    )
}

// ──────────────────────────────────── cgit ───────────────────────────────────

/// Where cgit lists refs as JSON.
pub fn cgit_json_url(repo_url: &str) -> (r: String)
    ensures
        r@ == text::trim_end_matches(repo_url@, "/"@) + "/refs/?format=json"@,
{
    text::concat(&text::strip_end_matches(repo_url, "/"), "/refs/?format=json")
}

/// Where cgit lists refs as a page.
pub fn cgit_page_url(repo_url: &str) -> (r: String)
    ensures
        r@ == text::trim_end_matches(repo_url@, "/"@) + "/refs/"@,
{
    text::concat(&text::strip_end_matches(repo_url, "/"), "/refs/")
}

/// The versions of some tags of cgit that come into question.
pub open spec fn cgit_candidates(names: Seq<Seq<char>>, prereleases: bool) -> Seq<
    Option<Seq<char>>,
> {
    Seq::new(
        names.len(),
        |i: int|
            {
                let v = text::trim_start_of(names[i], Class::Is('v'));
                if version::is_left_out(names[i], prereleases) || !text::starts_in(v, Class::Digit) {
                    None
                } else {
                    Some(v)
                }
            },
    )
}

/// The result that the tags of a cgit repository give; none where no tag is a
/// version, and the page of refs is to be read.
pub fn from_cgit_tags(
    parsed: &ParsedMakefile,
    names: &Vec<String>,
    repo_url: &str,
    prereleases: bool,
) -> (r: Option<UpstreamInfo>)
    ensures
        upstream::opt_info(r) == (match tags::newest(
            cgit_candidates(text::texts(names@), prereleases),
        ) {
            Some(i) => Some(
                Info {
                    latest_tag: Some(names@[i]@),
                    ..upstream::found_of(
                        *parsed,
                        text::trim_start_of(names@[i]@, Class::Is('v')),
                        repo_url@,
                        "cgit"@,
                        true,
                    )
                },
            ),
            None => None,
        }),
{
    let mut c: Vec<Option<String>> = Vec::new();
    for i in 0..names.len()
        invariant
            c@.len() == i,
            forall|j: int|
                0 <= j < i ==> text::opt_text(#[trigger] c@[j]) == cgit_candidates(
                    text::texts(names@),
                    prereleases,
                )[j],
    {
        let name = names[i].as_str();
        let v = text::strip_start(name, Class::Is('v'));
        if version::left_out(name, prereleases) || !text::first_in(&v, Class::Digit) {
            c.push(None);
        } else {
            c.push(Some(v));
        }
    }
    assert(tags::opt_texts(c@) =~= cgit_candidates(text::texts(names@), prereleases));
    match tags::newest_of(&c) {
        Some(i) => {
            let v = text::strip_start(names[i].as_str(), Class::Is('v'));
            let mut info = upstream::found_info(parsed, &v, repo_url, "cgit", true);
            info.latest_tag = Some(names[i].clone());
            Some(info)
        },
        None => None,
    }
}

/// The result that the page of refs of a cgit repository gives.
pub fn from_cgit_page(parsed: &ParsedMakefile, body: &str, repo_url: &str) -> (r: UpstreamInfo)
    ensures
        r@ == (match pages::index_version(body@, parsed.pkg_version@) {
            Some(v) => upstream::found_of(*parsed, v, repo_url@, "cgit"@, true),
            None => upstream::unknown_of(*parsed, "could not parse cgit tags"@, Some(repo_url@)),
        }),
{
    match pages::extract_version_from_html_index(body, &parsed.pkg_version) {
        Some(v) => upstream::found_info(parsed, &v, repo_url, "cgit", true),
        None => upstream::unknown_info_with_url(parsed, "could not parse cgit tags", repo_url),
    }
}

} // verus!

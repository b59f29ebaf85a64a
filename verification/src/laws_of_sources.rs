//! What a makefile's source is taken for.

use crate::laws_of_make;
use crate::laws_of_texts;
use crate::makefile_parser;
use crate::makefile_parser::{Source, TagForm};
use crate::outside;
use crate::patterns;
use crate::text;
use crate::text::Class;
use vstd::prelude::*;

verus! {

// ──────────────────────────────────── URLs ───────────────────────────────────

/// The groups that a pattern finds in a URL.
pub open spec fn found(pattern: Seq<char>, url: Seq<char>) -> Option<Seq<Option<Seq<char>>>> {
    outside::regex_captures(pattern, url)
}

/// Whether a URL is of no archive on GitHub, GitLab or BitBucket.
pub open spec fn of_no_forge(url: Seq<char>) -> bool {
    &&& found(patterns::CODELOAD@, url) is None
    &&& found(patterns::GITHUB_ARCHIVE@, url) is None
    &&& found(patterns::GITLAB@, url) is None
    &&& found(patterns::BITBUCKET@, url) is None
    &&& found(patterns::BITBUCKET_DOWNLOADS@, url) is None
}

/// Whether a URL is of no forge at all.
pub open spec fn of_no_archive(url: Seq<char>) -> bool {
    &&& of_no_forge(url)
    &&& found(patterns::GITEA@, url) is None
    &&& found(patterns::GITHUB_RELEASES_DOWNLOAD@, url) is None
}

/// A download from GitHub's archive host is of the repository and the ref that the
/// URL names.
pub proof fn law_codeload_downloads(
    url: Seq<char>,
    version: Seq<char>,
    name: Seq<char>,
    w: Option<Seq<char>>,
    owner: Seq<char>,
    repo: Seq<char>,
    at: Seq<char>,
)
    requires
        found(patterns::CODELOAD@, url) == Some(seq![w, Some(owner), Some(repo), Some(at)]),
    ensures
        makefile_parser::source_of_url(url, version, name) == makefile_parser::codeload_source(
            owner,
            repo,
            at,
            version,
        ),
{
}

/// An archive of a tag on GitHub, GitLab or BitBucket is of the repository that the
/// URL names, and of the tag's template.
pub proof fn law_archives_tell_their_repository(
    url: Seq<char>,
    version: Seq<char>,
    name: Seq<char>,
    w: Option<Seq<char>>,
    host: Seq<char>,
    owner: Seq<char>,
    repo: Seq<char>,
    tag: Seq<char>,
)
    requires
        found(patterns::CODELOAD@, url) is None,
    ensures
        ({
            let s = makefile_parser::source_of_url(url, version, name);
            let form = makefile_parser::template_of(tag, version);
            let archive = found(patterns::GITHUB_ARCHIVE@, url);
            let gitlab = found(patterns::GITLAB@, url);
            let bitbucket = found(patterns::BITBUCKET@, url);
            let downloads = found(patterns::BITBUCKET_DOWNLOADS@, url);
            &&& archive == Some(seq![w, Some(owner), Some(repo), Some(tag)]) ==> s
                == Source::GitHubRelease { owner, repo, tag_template: form }
            &&& archive is None && gitlab == Some(
                seq![w, Some(host), Some(owner), Some(repo), Some(tag)],
            ) ==> s == Source::GitLab { host, owner, repo, tag_template: form }
            &&& archive is None && gitlab is None && bitbucket == Some(
                seq![w, Some(owner), Some(repo), Some(tag)],
            ) ==> s == Source::BitBucket { owner, repo, tag_template: form }
            &&& archive is None && gitlab is None && bitbucket is None && downloads == Some(
                seq![w, Some(owner), Some(repo)],
            ) ==> s == Source::BitBucket { owner, repo, tag_template: TagForm::WithV }
        }),
{
}

/// An archive on a host without patterns of its own is Gitea's; a release download
/// is of the release's repository.
pub proof fn law_archives_on_other_hosts(
    url: Seq<char>,
    version: Seq<char>,
    name: Seq<char>,
    w: Option<Seq<char>>,
    host: Seq<char>,
    owner: Seq<char>,
    repo: Seq<char>,
    tag: Seq<char>,
)
    requires
        of_no_forge(url),
    ensures
        ({
            let s = makefile_parser::source_of_url(url, version, name);
            let form = makefile_parser::template_of(tag, version);
            let gitea = found(patterns::GITEA@, url);
            let release = found(patterns::GITHUB_RELEASES_DOWNLOAD@, url);
            &&& gitea == Some(seq![w, Some(host), Some(owner), Some(repo), Some(tag)]) && host
                != "github.com"@ && host != "codeload.github.com"@ && host != "bitbucket.org"@
                && !"gitlab."@.is_prefix_of(host) ==> s == Source::Gitea {
                host,
                owner,
                repo,
                tag_template: form,
            }
            &&& gitea is None && release == Some(seq![w, Some(owner), Some(repo), Some(tag)]) ==> s
                == Source::GitHubRelease { owner, repo, tag_template: form }
            &&& gitea == Some(
                seq![w, Some("github.com"@), Some(owner), Some(repo), Some(tag)],
            ) && release == Some(seq![w, Some(owner), Some(repo), Some(tag)]) ==> s
                == Source::GitHubRelease { owner, repo, tag_template: form }
        }),
{
}

/// A download from SourceForge is of the project that the URL names: on the download
/// host the first segment, or the second behind the word `project`.
pub proof fn law_sourceforge_downloads(
    url: Seq<char>,
    version: Seq<char>,
    name: Seq<char>,
    w: Option<Seq<char>>,
    project: Seq<char>,
    other: Option<Seq<char>>,
)
    requires
        of_no_archive(url),
    ensures
        ({
            let s = makefile_parser::source_of_url(url, version, name);
            let g = found(patterns::SOURCEFORGE@, url);
            ({
                ||| g == Some(seq![w, None, None, Some(project)])
                ||| g == Some(seq![w, Some(project), None, None])
                ||| g == Some(seq![w, Some("project"@), Some(project), None])
                ||| g == Some(seq![w, Some(project), other, None]) && project != "project"@
            }) ==> s == (Source::SourceForge { project })
        }),
{
}

/// A download from PyPI is of the project that the URL names, whatever the package
/// is called in the makefile; only a URL that names none is of a project with the
/// package's name.
pub proof fn law_pypi_downloads(
    url: Seq<char>,
    version: Seq<char>,
    name: Seq<char>,
    w: Option<Seq<char>>,
    project: Seq<char>,
    other: Option<Seq<char>>,
)
    requires
        of_no_archive(url),
        found(patterns::SOURCEFORGE@, url) is None,
    ensures
        ({
            let s = makefile_parser::source_of_url(url, version, name);
            let g = found(patterns::PYPI@, url);
            &&& g == Some(seq![w, Some(project), other]) || g == Some(seq![w, None, Some(project)])
                ==> s == (Source::PyPI { package: project })
            &&& g == Some(seq![w, None, None]) ==> s == (Source::PyPI { package: name })
        }),
{
}

/// Whether a URL is of no forge, nor of SourceForge or PyPI.
pub open spec fn of_no_python(url: Seq<char>) -> bool {
    &&& of_no_archive(url)
    &&& found(patterns::SOURCEFORGE@, url) is None
    &&& found(patterns::PYPI@, url) is None
}

/// A download from the registry of a language is of the package that the URL names,
/// whatever the package is called in the makefile.
pub proof fn law_registry_downloads(
    url: Seq<char>,
    version: Seq<char>,
    name: Seq<char>,
    w: Option<Seq<char>>,
    x: Seq<char>,
)
    requires
        of_no_python(url),
    ensures
        ({
            let s = makefile_parser::source_of_url(url, version, name);
            let hit = Some(seq![w, Some(x)]);
            let crates = found(patterns::CRATESIO@, url);
            let npm = found(patterns::NPM@, url);
            let gems = found(patterns::RUBYGEMS@, url);
            let hackage = found(patterns::HACKAGE@, url);
            let cpan = found(patterns::CPAN@, url);
            let kernel = found(patterns::KERNELORG@, url);
            &&& crates == hit ==> s == (Source::CratesIo { package: x })
            &&& crates is None && npm == hit ==> s == (Source::Npm { package: x })
            &&& crates is None && npm is None && gems == hit ==> s == (Source::RubyGems { gem: x })
            &&& crates is None && npm is None && gems is None && hackage == hit ==> s == (
            Source::Hackage { package: x })
            &&& crates is None && npm is None && gems is None && hackage is None && cpan == hit
                ==> s == (Source::Cpan { module: x })
            &&& crates is None && npm is None && gems is None && hackage is None && cpan is None
                && kernel == hit ==> s == (Source::KernelOrg { package: x })
        }),
{
}

/// Whether a URL is of no forge and of no registry of a language.
pub open spec fn of_no_registry(url: Seq<char>) -> bool {
    &&& of_no_python(url)
    &&& found(patterns::CRATESIO@, url) is None
    &&& found(patterns::NPM@, url) is None
    &&& found(patterns::RUBYGEMS@, url) is None
    &&& found(patterns::HACKAGE@, url) is None
    &&& found(patterns::CPAN@, url) is None
    &&& found(patterns::KERNELORG@, url) is None
}

/// A cgit snapshot is of the repository whose URL it holds; a Maven artifact of the
/// group whose path it holds, with dots for slashes.
pub proof fn law_repositories_and_artifacts(
    url: Seq<char>,
    version: Seq<char>,
    name: Seq<char>,
    w: Option<Seq<char>>,
    x: Seq<char>,
    a: Seq<char>,
    b: Seq<char>,
    y: Seq<char>,
)
    requires
        of_no_registry(url),
        !a.contains('/'),
        !b.contains('/'),
    ensures
        ({
            let s = makefile_parser::source_of_url(url, version, name);
            let cgit = found(patterns::CGIT@, url);
            let maven = found(patterns::MAVEN@, url);
            let go = found(patterns::GOMODULE@, url);
            &&& cgit == Some(seq![w, Some(x), None]) || cgit == Some(seq![w, None, Some(x)]) ==> s
                == (Source::Cgit { repo_url: x })
            &&& cgit is None && maven == Some(seq![w, Some(a + seq!['/'] + b), Some(y)]) ==> s == (
            Source::Maven { group_id: a + seq!['.'] + b, artifact_id: y })
            &&& cgit is None && maven is None && go == Some(seq![w, Some(x)]) ==> s == (
            Source::GoModule { module: x })
        }),
{
    reveal_strlit("/");
    reveal_strlit(".");
    assert("/"@ =~= seq!['/']);
    assert("."@ =~= seq!['.']);
    laws_of_make::lemma_replace_once(a, '/', b, seq!['.']);
}

/// Downloads of the Go toolchain, from freedesktop.org, from the mirrors of OpenWrt
/// and from googlesource.com are known; what no pattern finds is not.
pub proof fn law_other_downloads(
    url: Seq<char>,
    version: Seq<char>,
    name: Seq<char>,
    w: Option<Seq<char>>,
    x: Seq<char>,
)
    requires
        of_no_registry(url),
        found(patterns::CGIT@, url) is None,
        found(patterns::MAVEN@, url) is None,
        found(patterns::GOMODULE@, url) is None,
        x.len() > 0,
    ensures
        ({
            let s = makefile_parser::source_of_url(url, version, name);
            let hit = Some(seq![w, Some(x)]);
            let go = outside::regex_is_match(patterns::GOLANG_DL@, url);
            let desktop = found(patterns::FREEDESKTOP@, url);
            let mirror = outside::regex_is_match(patterns::OPENWRT_SOURCES@, url);
            let google = found(patterns::GOOGLESOURCE@, url);
            &&& go ==> s is GoLang
            &&& !go && desktop == hit ==> s == (Source::Freedesktop { project: x })
            &&& !go && desktop is None && mirror ==> s is OpenWrtMirror
            &&& !go && desktop is None && !mirror && google == hit ==> s == (Source::GoogleSource {
                repo_url: x,
            })
            &&& !go && desktop is None && !mirror && google is None && !text::contains(
                url,
                "denx.de"@,
            ) ==> s is Unknown
        }),
{
}

// ─────────────────────────────── refs and tags ───────────────────────────────

/// The first slash-separated parts of a tag tell its prefix: a version behind a path
/// stands under the path; a number before the version is not part of it.
pub proof fn law_paths_of_tags(p: Seq<char>, n: Seq<char>, version: Seq<char>, tag: Seq<char>)
    requires
        p.len() > 0,
        !p.contains('/'),
        text::any_in(p, Class::NotDigitNorDot),
        n.len() > 0,
        text::all_in(n, Class::DigitOrDot),
        !version.contains('/'),
    ensures
        makefile_parser::path_prefix(p + seq!['/'] + version, version) == Some(p + seq!['/']),
        makefile_parser::path_prefix(p + seq!['/'] + n + seq!['/'] + version, version) == Some(
            p + seq!['/'],
        ),
        !tag.contains('/') ==> makefile_parser::path_prefix(tag, version) is None,
        !tag.contains('/') && tag != version ==> makefile_parser::path_prefix(
            p + seq!['/'] + tag,
            version,
        ) is None,
{
    reveal_strlit("/");
    let slash = seq!['/'];
    assert("/"@ =~= slash);
    let a = p + slash + version;
    laws_of_make::lemma_found_last(p, '/', version, "/"@);
    assert(a.skip(p.len() as int + 1) =~= version);
    assert(a.take(p.len() as int + 1) =~= p + slash);
    lemma_no_slash_end(p);
    laws_of_texts::law_ends_are_taken_off(p, slash);
    laws_of_make::lemma_not_found(p, '/', "/"@);
    let q = p + slash + n;
    assert(!n.contains('/')) by {
        if n.contains('/') {
            let j = choose|j: int| 0 <= j < n.len() && n[j] == '/';
            assert(Class::DigitOrDot.has(n[j]));
        }
    }
    let b = q + slash + version;
    assert(b =~= p + slash + n + slash + version);
    laws_of_make::lemma_found_last(q, '/', version, "/"@);
    assert(b.skip(q.len() as int + 1) =~= version);
    assert(b.take(q.len() as int + 1) =~= q + slash);
    assert(!slash.is_suffix_of(q)) by {
        if slash.is_suffix_of(q) {
            assert(q.subrange(q.len() - 1, q.len() as int)[0] == n.last());
            assert(n.contains(n.last()));
        }
    }
    laws_of_texts::law_ends_are_taken_off(q, slash);
    laws_of_make::lemma_found_last(p, '/', n, "/"@);
    assert(q.skip(p.len() as int + 1) =~= n);
    assert(q.take(p.len() as int) =~= p);
    if !tag.contains('/') {
        laws_of_make::lemma_not_found(tag, '/', "/"@);
        laws_of_make::lemma_found_last(p, '/', tag, "/"@);
        let c = p + slash + tag;
        assert(c.skip(p.len() as int + 1) =~= tag);
    }
}

proof fn lemma_no_slash_end(p: Seq<char>)
    requires
        !p.contains('/'),
    ensures
        !seq!['/'].is_suffix_of(p),
{
    if seq!['/'].is_suffix_of(p) {
        assert(p.subrange(p.len() - 1, p.len() as int)[0] == p.last());
        assert(p.contains(p.last()));
    }
}

/// An archive of a commit is followed by commits; one of a tag by the tags that its
/// template makes; one under `refs/tags/` by the tags of its path.
pub proof fn law_refs_of_archives(
    owner: Seq<char>,
    repo: Seq<char>,
    hash: Seq<char>,
    tag: Seq<char>,
    version: Seq<char>,
    path: Seq<char>,
)
    requires
        hash.len() == 40,
        text::all_in(hash, Class::LowerHex),
        !tag.contains('/'),
        tag.len() != 40,
        version.len() > 0,
        !version.contains('/'),
        path.len() > 0,
        !path.contains('/'),
        text::any_in(path, Class::NotDigitNorDot),
    ensures
        makefile_parser::codeload_source(
            owner,
            repo,
            path + seq!['/'] + version,
            version,
        ) == (Source::GitHubTagPath { owner, repo, tag_path: path + seq!['/'] }),
        !version.is_suffix_of(path) ==> makefile_parser::codeload_source(
            owner,
            repo,
            "refs/tags/"@ + path,
            version,
        ) == (Source::GitHubTagPath { owner, repo, tag_path: path }),
        makefile_parser::codeload_source(owner, repo, hash, version) == (Source::GitHubCommit {
            owner,
            repo,
            commit: hash,
        }),
        makefile_parser::codeload_source(owner, repo, tag, version) == (Source::GitHubRelease {
            owner,
            repo,
            tag_template: makefile_parser::template_of(tag, version),
        }),
        makefile_parser::codeload_source(owner, repo, "refs/tags/"@ + version, version) == (
        Source::GitHubRelease { owner, repo, tag_template: TagForm::Plain }),
        makefile_parser::codeload_source(
            owner,
            repo,
            "refs/tags/"@ + path + seq!['/'] + version,
            version,
        ) == (Source::GitHubTagPath { owner, repo, tag_path: path + seq!['/'] }),
{
    reveal_strlit("refs/tags/");
    reveal_strlit("/");
    let slash = seq!['/'];
    assert("/"@ =~= slash);
    let front = "refs/tags/"@;
    assert(front.len() == 10 && front[4] == '/' && front[0] == 'r');
    assert(!Class::LowerHex.has(front[0]));
    assert(!front.is_prefix_of(tag)) by {
        if front.is_prefix_of(tag) {
            assert(tag[4] == tag.subrange(0, 10)[4]);
            assert(tag.contains(tag[4]));
        }
    }
    laws_of_make::lemma_not_found(tag, '/', "/"@);
    lemma_under_tags(version);
    let a = front + version;
    assert(version.subrange(0, version.len() as int) =~= version);
    let none = Seq::<char>::empty();
    assert(version.take(0) =~= none);
    assert(!slash.is_suffix_of(none));
    laws_of_texts::law_ends_are_taken_off(none, slash);
    let v = path + slash + version;
    let b = front + path + slash + version;
    assert(b =~= front + v);
    lemma_under_tags(v);
    assert(!front.is_prefix_of(v)) by {
        if front.is_prefix_of(v) {
            assert(v.subrange(0, 10)[4] == '/' && v.subrange(0, 10)[9] == '/');
            assert(v[4] == '/' && v[9] == '/');
            if path.len() == 4 {
                assert(version.contains(version[4]));
            } else {
                lemma_one_slash(path, version, 4);
            }
        }
    }
    laws_of_texts::law_ends_are_taken_off(v, front);
    law_paths_of_tags(path, seq!['1'], version, tag);
    if outside::is_commit_hash(v) {
        assert(Class::LowerHex.has(v[path.len() as int]));
    }
    assert(v.subrange(v.len() - version.len(), v.len() as int) =~= version);
    assert(v.take(v.len() - version.len()) =~= path + slash);
    lemma_no_slash_end(path);
    laws_of_texts::law_ends_are_taken_off(path, slash);
    if outside::is_commit_hash(a) {
        assert(Class::LowerHex.has(a[0]));
    }
    let c = front + path;
    lemma_under_tags(path);
    assert(!front.is_prefix_of(path)) by {
        if front.is_prefix_of(path) {
            assert(path[4] == path.subrange(0, 10)[4]);
            assert(path.contains(path[4]));
        }
    }
    laws_of_texts::law_ends_are_taken_off(path, front);
    if outside::is_commit_hash(c) {
        assert(Class::LowerHex.has(c[0]));
    }
    if outside::is_commit_hash(b) {
        assert(Class::LowerHex.has(b[0]));
    }
}

/// A slash in two texts without one, put together by one, is the one between them.
proof fn lemma_one_slash(a: Seq<char>, b: Seq<char>, i: int)
    requires
        !a.contains('/'),
        !b.contains('/'),
        0 <= i < a.len() + 1 + b.len(),
    ensures
        (a + seq!['/'] + b)[i] == '/' ==> i == a.len(),
{
    let t = a + seq!['/'] + b;
    if i < a.len() {
        assert(a.contains(a[i]));
    } else if i > a.len() {
        assert(t[i] == b[i - a.len() - 1]);
        assert(b.contains(b[i - a.len() - 1]));
    }
}

/// What stands behind `refs/tags/`, where it does not start so itself.
proof fn lemma_under_tags(x: Seq<char>)
    requires
        x.len() > 0,
    ensures
        "refs/tags/"@.is_prefix_of("refs/tags/"@ + x),
        text::trim_start_matches("refs/tags/"@ + x, "refs/tags/"@) == text::trim_start_matches(
            x,
            "refs/tags/"@,
        ),
{
    reveal_strlit("refs/tags/");
    let s = "refs/tags/"@ + x;
    assert(s.subrange(0, 10) =~= "refs/tags/"@);
    laws_of_texts::law_ends_are_taken_off(x, "refs/tags/"@);
}

// ────────────────────────────────── templates ────────────────────────────────

/// A tag that leaves the dot of a version out is made by a template that does so; one
/// that has a dash for it is a plain version.
pub proof fn law_templates_without_dots(w: Seq<char>, a: Seq<char>, b: Seq<char>)
    requires
        text::all_in(w, Class::NotDigit),
        a.len() > 0,
        b.len() > 0,
        text::all_in(a, Class::Digit),
        text::all_in(b, Class::Digit),
    ensures
        ({
            let version = a + seq!['.'] + b;
            &&& makefile_parser::template_of(w + a + b, version) == TagForm::Custom(
                w + "${VERSION_NODOT}"@,
            )
            &&& makefile_parser::template_of(a + seq!['-'] + b, version) is Plain
        }),
{
    reveal_strlit("v");
    reveal_strlit(".");
    reveal_strlit("_");
    reveal_strlit("-");
    reveal_strlit("");
    let none = Seq::<char>::empty();
    assert("."@ =~= seq!['.']);
    assert("_"@ =~= seq!['_']);
    assert("-"@ =~= seq!['-']);
    assert(""@ =~= none);
    let version = a + seq!['.'] + b;
    let under = a + seq!['_'] + b;
    let bare = a + b;
    lemma_no_such(a, '.');
    lemma_no_such(b, '.');
    lemma_no_such(a, '-');
    lemma_no_such(b, '-');
    laws_of_make::lemma_replace_once(a, '.', b, seq!['_']);
    laws_of_make::lemma_replace_once(a, '.', b, none);
    laws_of_make::lemma_replace_once(a, '-', b, seq!['.']);
    assert(a + none + b =~= bare);
    assert(Class::Digit.has(a[0]));
    let tag = w + a + b;
    assert(tag =~= w + bare);
    if tag == "v"@ + version {
        assert(w.len() == 2);
        assert(tag[1] == w[1] && tag[1] == version[0]);
        assert(Class::NotDigit.has(w[1]));
    }
    if tag == version {
        assert(w.len() == 1);
        assert(tag[0] == w[0] && version[0] == a[0]);
        assert(Class::NotDigit.has(w[0]));
    }
    lemma_not_in_digits(w, a, b, under);
    assert forall|i: int| 0 <= i < w.len() implies Class::Not(bare[0]).has(#[trigger] w[i]) by {
        assert(Class::NotDigit.has(w[i]));
        assert(bare[0] == a[0]);
    }
    assert(tag.subrange(w.len() as int, tag.len() as int) =~= bare);
    assert(text::occurs_at(tag, bare, w.len() as int));
    text::lemma_replace_end(w, bare, makefile_parser::NODOT_MARK@);
    lemma_dashed(a, b);
}

proof fn lemma_no_such(a: Seq<char>, c: char)
    requires
        text::all_in(a, Class::Digit),
        !text::is_digit(c),
    ensures
        !a.contains(c),
{
    if a.contains(c) {
        let i = choose|i: int| 0 <= i < a.len() && a[i] == c;
        assert(Class::Digit.has(a[i]));
    }
}

proof fn lemma_not_in_digits(w: Seq<char>, a: Seq<char>, b: Seq<char>, under: Seq<char>)
    requires
        text::all_in(w, Class::NotDigit),
        a.len() > 0,
        text::all_in(a, Class::Digit),
        text::all_in(b, Class::Digit),
        under == a + seq!['_'] + b,
    ensures
        !text::contains(w + a + b, under),
{
    let tag = w + a + b;
    if text::contains(tag, under) {
        let i = choose|i: int| text::occurs_at(tag, under, i);
        let f = tag.subrange(i, i + under.len());
        assert(f[0] == tag[i] && under[0] == a[0]);
        assert(Class::Digit.has(a[0]));
        let k = a.len() as int;
        assert(f[k] == tag[i + k] && under[k] == '_');
        if i < w.len() {
            assert(Class::NotDigit.has(w[i]));
        } else if i + k < w.len() + a.len() {
            assert(Class::Digit.has(a[i + k - w.len()]));
        } else {
            assert(Class::Digit.has(b[i + k - w.len() - a.len()]));
        }
    }
}

proof fn lemma_dashed(a: Seq<char>, b: Seq<char>)
    requires
        a.len() > 0,
        b.len() > 0,
        text::all_in(a, Class::Digit),
        text::all_in(b, Class::Digit),
    ensures
        ({
            let tag = a + seq!['-'] + b;
            &&& tag != a + seq!['.'] + b
            &&& tag != "v"@ + (a + seq!['.'] + b)
            &&& !text::contains(tag, a + seq!['_'] + b)
            &&& !text::contains(tag, a + b)
            &&& text::span(tag, Class::NotDigit) == 0
        }),
{
    reveal_strlit("v");
    let tag = a + seq!['-'] + b;
    let k = a.len() as int;
    assert(tag[k] == '-' && (a + seq!['.'] + b)[k] == '.');
    assert(tag.len() + 1 == ("v"@ + (a + seq!['.'] + b)).len());
    assert(Class::Digit.has(a[0]));
    assert(tag[0] == a[0]);
    text::lemma_span_is(tag, Class::NotDigit, 0);
    let under = a + seq!['_'] + b;
    if text::contains(tag, under) {
        let i = choose|i: int| text::occurs_at(tag, under, i);
        assert(i == 0);
        assert(tag.subrange(0, tag.len() as int)[k] == tag[k]);
        assert(under[k] == '_');
    }
    let bare = a + b;
    if text::contains(tag, bare) {
        let i = choose|i: int| text::occurs_at(tag, bare, i);
        let f = tag.subrange(i, i + bare.len());
        if i == 0 {
            assert(f[k] == tag[k] && bare[k] == b[0]);
            assert(Class::Digit.has(b[0]));
        } else {
            assert(i == 1);
            assert(f[k - 1] == tag[k] && bare[k - 1] == a[k - 1]);
            assert(Class::Digit.has(a[k - 1]));
        }
    }
}

/// A download of u-boot from its own site is taken from the site's listing.
pub proof fn law_uboot_downloads(
    url: Seq<char>,
    version: Seq<char>,
    name: Seq<char>,
    a: Seq<char>,
    b: Seq<char>,
    c: Seq<char>,
)
    requires
        of_no_registry(url),
        found(patterns::CGIT@, url) is None,
        found(patterns::MAVEN@, url) is None,
        found(patterns::GOMODULE@, url) is None,
        found(patterns::FREEDESKTOP@, url) is None,
        found(patterns::GOOGLESOURCE@, url) is None,
        !outside::regex_is_match(patterns::GOLANG_DL@, url),
        !outside::regex_is_match(patterns::OPENWRT_SOURCES@, url),
        url == a + "denx.de"@ + b + "u-boot"@ + c,
    ensures
        makefile_parser::source_of_url(url, version, name) == (Source::UrlRegex {
            url: "https://ftp.denx.de/pub/u-boot/"@,
            regex: patterns::UBOOT_TARBALL@,
        }),
{
    let x = "denx.de"@;
    let y = "u-boot"@;
    let i = a.len() as int;
    let j = a.len() + x.len() + b.len() as int;
    assert(url.subrange(i, i + x.len()) =~= x);
    assert(text::occurs_at(url, x, i));
    assert(url.subrange(j, j + y.len()) =~= y);
    assert(text::occurs_at(url, y, j));
}

} // verus!

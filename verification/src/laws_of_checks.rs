//! How a check is planned, what a rule makes of its result, and how it ends.

use crate::config::PkgRule;
use crate::laws_of_make;
use crate::laws_of_texts;
use crate::laws_of_versions;
use crate::makefile_parser::{ParsedMakefile, Source, SourceType, TagForm};
use crate::outside;
use crate::text;
use crate::text::Class;
use crate::upstream;
use crate::upstream::{CheckPlan, Course, Info, Plan, Step, UpstreamInfo};
use crate::version;
use vstd::prelude::*;

verus! {

// ──────────────────────────────────── rules ──────────────────────────────────

/// What a rule strips is taken off a version where it stands there.
pub proof fn law_rules_strip(p: Seq<char>, v: Seq<char>, s: Seq<char>)
    ensures
        upstream::stripped(p + v + s, Some(p), Some(s)) == v,
        upstream::stripped(p + v, Some(p), None) == v,
        upstream::stripped(v + s, None, Some(s)) == v,
        upstream::stripped(v, None, None) == v,
        !p.is_prefix_of(v) ==> upstream::stripped(v, Some(p), None) == v,
        !s.is_suffix_of(v) ==> upstream::stripped(v, None, Some(s)) == v,
{
    let a = p + v + s;
    assert(a.subrange(0, p.len() as int) =~= p);
    assert(a.skip(p.len() as int) =~= v + s);
    let b = p + v;
    assert(b.subrange(0, p.len() as int) =~= p);
    assert(b.skip(p.len() as int) =~= v);
    let c = v + s;
    assert(c.subrange(c.len() - s.len(), c.len() as int) =~= s);
    assert(c.take(c.len() - s.len()) =~= v);
}

/// A version with what a rule strips round it.
pub open spec fn with_ends(v: Seq<char>, rule: PkgRule) -> Seq<char> {
    (match rule.strip_prefix {
        Some(p) => p@,
        None => Seq::empty(),
    }) + v + (match rule.strip_suffix {
        Some(s) => s@,
        None => Seq::empty(),
    })
}

proof fn lemma_ends_stripped(v: Seq<char>, rule: PkgRule)
    ensures
        upstream::stripped(
            with_ends(v, rule),
            text::opt_text(rule.strip_prefix),
            text::opt_text(rule.strip_suffix),
        ) == v,
{
    let none = Seq::<char>::empty();
    match (rule.strip_prefix, rule.strip_suffix) {
        (Some(p), Some(s)) => {
            law_rules_strip(p@, v, s@);
        },
        (Some(p), None) => {
            assert(p@ + v + none =~= p@ + v);
            law_rules_strip(p@, v, none);
        },
        (None, Some(s)) => {
            assert(none + v + s@ =~= v + s@);
            law_rules_strip(none, v, s@);
        },
        (None, None) => {
            assert(none + v + none =~= v);
        },
    }
}

/// Whether a pattern of a rule matches a version.
pub open spec fn is_ignored(v: Seq<char>, rule: PkgRule) -> bool {
    exists|i: int|
        0 <= i < rule.ignore_regex@.len() && outside::regex_is_match(
            (#[trigger] rule.ignore_regex@[i])@,
            v,
        )
}

proof fn lemma_ignored(patterns: Seq<Seq<char>>, v: Seq<char>)
    ensures
        upstream::first_match(patterns, v) is Some <==> exists|i: int|
            0 <= i < patterns.len() && outside::regex_is_match(#[trigger] patterns[i], v),
    decreases patterns.len(),
{
    if patterns.len() > 0 && !outside::regex_is_match(patterns[0], v) {
        let rest = patterns.skip(1);
        lemma_ignored(rest, v);
        if exists|i: int|
            0 <= i < patterns.len() && outside::regex_is_match(#[trigger] patterns[i], v) {
            let i = choose|i: int|
                0 <= i < patterns.len() && outside::regex_is_match(#[trigger] patterns[i], v);
            assert(rest[i - 1] == patterns[i]);
        }
        if exists|i: int| 0 <= i < rest.len() && outside::regex_is_match(#[trigger] rest[i], v) {
            let i = choose|i: int|
                0 <= i < rest.len() && outside::regex_is_match(#[trigger] rest[i], v);
            assert(patterns[i + 1] == rest[i]);
        }
    }
}

proof fn lemma_ignored_by(v: Seq<char>, rule: PkgRule)
    ensures
        upstream::first_match(text::texts(rule.ignore_regex@), v) is Some <==> is_ignored(v, rule),
{
    let patterns = text::texts(rule.ignore_regex@);
    lemma_ignored(patterns, v);
    if is_ignored(v, rule) {
        let i = choose|i: int|
            0 <= i < rule.ignore_regex@.len() && outside::regex_is_match(
                (#[trigger] rule.ignore_regex@[i])@,
                v,
            );
        assert(patterns[i] == rule.ignore_regex@[i]@);
    }
    if exists|i: int|
        0 <= i < patterns.len() && outside::regex_is_match(#[trigger] patterns[i], v) {
        let i = choose|i: int|
            0 <= i < patterns.len() && outside::regex_is_match(#[trigger] patterns[i], v);
        assert(patterns[i] == rule.ignore_regex@[i]@);
    }
}

/// Where the source that a rule names tells a version of plain numbers, perhaps with
/// what the rule strips round it, the check finds it if and only if it is no
/// pre-release or those count, no pattern of the
/// rule matches it, and it is neither below the minimum nor above the maximum.  The
/// version is compared with the one in effect; where it is not found there is no
/// verdict but a reason.
pub proof fn law_rules_let_versions_through(
    info: UpstreamInfo,
    rule: &PkgRule,
    parsed: &ParsedMakefile,
    v: Seq<char>,
    r: UpstreamInfo,
)
    requires
        call_ensures(upstream::after_override, (info, rule, parsed), r),
        info@.latest_version == Some(with_ends(v, *rule)),
        version::is_plain_version(v),
        rule.min_version is Some ==> version::is_plain_version(rule.min_version->0@),
        rule.max_version is Some ==> version::is_plain_version(rule.max_version->0@),
    ensures
        ({
            let passes = {
                &&& rule.include_prerelease || !version::is_prerelease(v)
                &&& !is_ignored(v, *rule)
                &&& rule.min_version is Some ==> !laws_of_versions::is_below(
                    v,
                    rule.min_version->0@,
                )
                &&& rule.max_version is Some ==> !laws_of_versions::is_below(
                    rule.max_version->0@,
                    v,
                )
            };
            &&& passes ==> r@.latest_version == Some(v) && r@.is_outdated == Some(
                version::is_outdated(parsed.in_effect(), v),
            ) && r@.check_error == info@.check_error
            &&& !passes ==> r@.latest_version is None && r@.is_outdated is None
                && r@.check_error is Some
            &&& !rule.include_prerelease && version::is_prerelease(v) ==> r@.check_error == Some(
                "filtered: pre-release version"@,
            )
            &&& (rule.include_prerelease || !version::is_prerelease(v)) && !is_ignored(v, *rule) ==> {
                let too_low = rule.min_version is Some && laws_of_versions::is_below(
                    v,
                    rule.min_version->0@,
                );
                let too_high = rule.max_version is Some && laws_of_versions::is_below(
                    rule.max_version->0@,
                    v,
                );
                &&& too_low ==> r@.check_error == Some(
                    "filtered: version "@ + v + " < min "@ + rule.min_version->0@,
                )
                &&& !too_low && too_high ==> r@.check_error == Some(
                    "filtered: version "@ + v + " > max "@ + rule.max_version->0@,
                )
            }
            &&& r@.pkg_name == info@.pkg_name
            &&& r@.current_version == info@.current_version
            &&& r@.latest_tag == info@.latest_tag
            &&& r@.latest_commit == info@.latest_commit
            &&& r@.upstream_url == info@.upstream_url
            &&& r@.source_backend == info@.source_backend
        }),
{
    lemma_ends_stripped(v, *rule);
    lemma_ignored_by(v, *rule);
    if let Some(m) = rule.min_version {
        laws_of_versions::law_first_difference_orders(v, m@);
    }
    if let Some(m) = rule.max_version {
        laws_of_versions::law_first_difference_orders(v, m@);
    }
}

/// The course of a check is the same as with a source that a rule names: a version
/// that the rule lets through ends it, whether the package's source or a fallback
/// told it; otherwise the next one is asked, and what came first stays.
pub proof fn law_checks_end_with_a_version(
    info: UpstreamInfo,
    pending: UpstreamInfo,
    rule: &PkgRule,
    parsed: &ParsedMakefile,
    r: UpstreamInfo,
    a: Step,
    b: Step,
    c: Step,
)
    requires
        call_ensures(upstream::after_override, (info, rule, parsed), r),
        call_ensures(upstream::after_answer, (info, rule, parsed), a),
        call_ensures(upstream::after_fallback, (pending, Some(info), rule, parsed), b),
        call_ensures(upstream::after_fallback, (pending, None::<UpstreamInfo>, rule, parsed), c),
    ensures
        r@.latest_version is Some ==> a@ == Course::Done(r@) && b@ == Course::Done(r@),
        info@.latest_version is Some && r@.latest_version is None ==> a@ is Ask && b@
            == Course::Ask(pending@),
        info@.latest_version is None && info@.check_error is Some ==> a@ == Course::Ask(info@)
            && b@ == Course::Ask(pending@),
        info@.latest_version is None && info@.check_error is None ==> a@ == Course::Done(info@),
        c@ == Course::Ask(pending@),
{
}

/// A check that failed tells what went wrong, and no version.
pub proof fn law_failures_are_told(parsed: &ParsedMakefile, message: &str, r: UpstreamInfo)
    requires
        call_ensures(upstream::error_info, (parsed, message), r),
    ensures
        r@.pkg_name == parsed.pkg_name@,
        r@.current_version == parsed.in_effect(),
        r@.check_error == Some(message@),
        r@.source_backend == "error"@,
        r@.latest_version is None,
        r@.is_outdated is None,
        r@.write_pkg_version is None,
        r@.write_pkg_source_version is None,
        r@.write_pkg_source_date is None,
{
}

// ───────────────────────────── format and direction ──────────────────────────

proof fn lemma_newer_plain(a: Seq<char>, b: Seq<char>)
    requires
        version::is_plain_version(a),
        version::is_plain_version(b),
    ensures
        version::newer_sign(a, b) == version::version_sign(a, b),
{
    version::lemma_numbers_normalized(a);
    version::lemma_numbers_normalized(b);
    let x = version::normalized(a);
    let y = version::normalized(b);
    lemma_release_is_plain(x);
    lemma_release_is_plain(y);
    version::lemma_numbers_normalized(x);
    version::lemma_numbers_normalized(y);
    let p = text::split_on(x, '.');
    let q = text::split_on(y, '.');
    assert(version::parts_sign(p, q, 3) == 0);
    assert(version::further_sign(x, y) == 0);
}

proof fn lemma_release_is_plain(s: Seq<char>)
    requires
        outside::release_of(s) is Some,
    ensures
        version::is_plain_version(s),
        text::split_on(s, '.').len() == 3,
        ({
            let p = text::split_on(s, '.');
            outside::release_of(s) == Some(
                (version::part_at(p, 0), version::part_at(p, 1), version::part_at(p, 2)),
            )
        }),
{
    let p = text::split_on(s, '.');
    assert forall|i: int| 0 <= i < p.len() implies outside::is_plain_number(#[trigger] p[i]) by {
        if i == 0 {
        } else if i == 1 {
        } else {
            assert(i == 2);
        }
    }
    version::lemma_plain_number(p[0]);
    version::lemma_plain_number(p[1]);
    version::lemma_plain_number(p[2]);
}

/// A package whose version is above the latest one is newer, and nothing is written;
/// one whose version is not above it keeps what is to be written.  Versions of
/// different formats are marked, and nothing is written either.
pub proof fn law_newer_and_mismatched_packages(
    info: UpstreamInfo,
    parsed: &ParsedMakefile,
    latest: Seq<char>,
    r: UpstreamInfo,
)
    requires
        call_ensures(upstream::settle, (info, parsed), r),
        info@.latest_version == Some(latest),
        info@.current_version.len() > 0,
        laws_of_versions::is_numeric(info@.current_version),
        laws_of_versions::is_numeric(latest),
        !info@.format_mismatch,
        !info@.is_newer,
        info@.is_outdated == Some(version::is_outdated(info@.current_version, latest)),
    ensures
        ({
            let current = info@.current_version;
            let alike = laws_of_versions::is_of_a_year(current) == laws_of_versions::is_of_a_year(
                latest,
            );
            &&& r@.latest_version == Some(latest)
            &&& r@.is_outdated == info@.is_outdated
            &&& r@.format_mismatch <==> !alike
            &&& r@.is_newer <==> alike && laws_of_versions::is_below(latest, current)
            &&& r@.format_mismatch || r@.is_newer ==> r@.write_pkg_version is None
                && r@.write_pkg_source_version is None && r@.write_pkg_source_date is None
            &&& !(r@.format_mismatch || r@.is_newer) ==> r@ == info@
        }),
{
    let current = info@.current_version;
    laws_of_versions::law_numeric_format(current);
    laws_of_versions::law_numeric_format(latest);
    laws_of_versions::law_outdated_by_numbers(current, latest);
    laws_of_versions::law_first_difference_orders(current, latest);
    lemma_newer_plain(current, latest);
    lemma_no_detail(current);
    lemma_no_detail(latest);
}

/// What stands behind a version in brackets is left out where the direction is told,
/// and a result without a current version has the package's.
pub proof fn law_details_are_left_out(
    info: Info,
    parsed: ParsedMakefile,
    v: Seq<char>,
    x: Seq<char>,
)
    requires
        version::is_plain_version(v),
    ensures
        upstream::without_detail(v + seq![' ', '('] + x) == v,
        upstream::without_detail(v) == v,
        info.current_version.len() == 0 ==> upstream::shown_current(info, parsed)
            == parsed.in_effect(),
        info.current_version.len() > 0 ==> upstream::shown_current(info, parsed)
            == info.current_version,
{
    reveal_strlit(" (");
    lemma_no_detail(v);
    version::lemma_numbers_text(v);
    let mark = " ("@;
    assert(mark =~= seq![' ', '(']);
    let s = v + mark + x;
    let n = v.len() as int;
    assert(s.subrange(n, n + 2) =~= mark);
    assert(text::occurs_at(s, mark, n));
    text::lemma_find(s, mark);
    let i = text::find(s, mark)->0;
    assert(i == n) by {
        if i < n {
            assert(s.subrange(i, i + 2)[0] == s[i]);
            assert(Class::DigitOrDot.has(v[i]));
        }
    }
    assert(s.take(n) =~= v);
}

proof fn lemma_no_detail(v: Seq<char>)
    requires
        version::is_plain_version(v),
    ensures
        upstream::without_detail(v) == v,
{
    reveal_strlit(" (");
    version::lemma_numbers_text(v);
    text::lemma_find(v, " ("@);
    if let Some(i) = text::find(v, " ("@) {
        assert(v.subrange(i, i + 2)[0] == v[i]);
        assert(Class::DigitOrDot.has(v[i]));
    }
}

// ───────────────────────────── which source to ask ───────────────────────────

/// Whether a rule names no page with a pattern.
pub open spec fn names_no_page(rule: PkgRule) -> bool {
    rule.url_regex_url is None || rule.url_regex_pattern is None
}

/// A package is checked at the page or the repository that its rule names: `owner/repo`
/// on GitHub, `owner/repo` or `host:owner/repo` on GitLab and Gitea.
pub proof fn law_rules_name_sources(
    parsed: &ParsedMakefile,
    rule: &PkgRule,
    host: Seq<char>,
    owner: Seq<char>,
    repo: Seq<char>,
    r: CheckPlan,
)
    requires
        call_ensures(upstream::plan_check, (parsed, rule), r),
        !rule.skip,
        !owner.contains('/'),
        !repo.contains('/'),
        !owner.contains(':'),
        !repo.contains(':'),
        !host.contains(':'),
    ensures
        ({
            let short = owner + seq!['/'] + repo;
            let long = host + seq![':'] + owner + seq!['/'] + repo;
            let form = TagForm::WithV;
            &&& rule.url_regex_url is Some && rule.url_regex_pattern is Some ==> r@
                == Plan::Override(
                Source::UrlRegex {
                    url: rule.url_regex_url->0@,
                    regex: rule.url_regex_pattern->0@,
                },
            )
            &&& names_no_page(*rule) && text::opt_text(rule.github) == Some(short) ==> r@
                == Plan::Override(Source::GitHubRelease { owner, repo, tag_template: form })
            &&& names_no_page(*rule) && rule.github is None && text::opt_text(rule.gitlab) == Some(
                short,
            ) ==> r@ == Plan::Override(
                Source::GitLab { host: "gitlab.com"@, owner, repo, tag_template: form },
            )
            &&& names_no_page(*rule) && rule.github is None && text::opt_text(rule.gitlab) == Some(
                long,
            ) ==> r@ == Plan::Override(Source::GitLab { host, owner, repo, tag_template: form })
            &&& names_no_page(*rule) && rule.github is None && rule.gitlab is None
                && text::opt_text(rule.gitea) == Some(short) ==> r@ == Plan::Override(
                Source::Gitea { host: "codeberg.org"@, owner, repo, tag_template: form },
            )
            &&& names_no_page(*rule) && rule.github is None && rule.gitlab is None
                && text::opt_text(rule.gitea) == Some(long) ==> r@ == Plan::Override(
                Source::Gitea { host, owner, repo, tag_template: form },
            )
        }),
{
    lemma_repositories(host, owner, repo);
}

proof fn lemma_repositories(host: Seq<char>, owner: Seq<char>, repo: Seq<char>)
    requires
        !owner.contains('/'),
        !repo.contains('/'),
        !owner.contains(':'),
        !repo.contains(':'),
        !host.contains(':'),
    ensures
        ({
            let short = owner + seq!['/'] + repo;
            let long = host + seq![':'] + owner + seq!['/'] + repo;
            &&& text::contains(short, "/"@)
            &&& text::before(short, "/"@) == owner
            &&& text::after(short, "/"@) == repo
            &&& forall|d: Seq<char>| #[trigger] upstream::host_part(short, d) == d
            &&& forall|d: Seq<char>| #[trigger] upstream::host_part(long, d) == host
            &&& upstream::path_part(short) == short
            &&& upstream::path_part(long) == short
            &&& upstream::owner_part(short) == owner
            &&& upstream::repo_part(short) == repo
        }),
{
    reveal_strlit("/");
    reveal_strlit(":");
    assert("/"@ =~= seq!['/']);
    assert(":"@ =~= seq![':']);
    let short = owner + seq!['/'] + repo;
    let long = host + seq![':'] + owner + seq!['/'] + repo;
    laws_of_texts::law_marks_part_texts(owner, '/', owner, repo);
    laws_of_make::lemma_found(owner, '/', repo, "/"@);
    text::lemma_contains(short, "/"@);
    laws_of_make::lemma_found_last(owner, '/', repo, "/"@);
    assert(short.take(owner.len() as int) =~= owner);
    assert(short.skip(owner.len() as int + 1) =~= repo);
    assert(!short.contains(':')) by {
        if short.contains(':') {
            let i = choose|i: int| 0 <= i < short.len() && short[i] == ':';
            if i < owner.len() {
                assert(owner.contains(owner[i]));
            } else if i > owner.len() {
                assert(repo.contains(repo[i - owner.len() - 1]));
            }
        }
    }
    laws_of_make::lemma_not_found(short, ':', ":"@);
    assert(long =~= host + seq![':'] + short);
    laws_of_make::lemma_found(host, ':', short, ":"@);
    assert(long.take(host.len() as int) =~= host);
    assert(long.skip(host.len() as int + 1) =~= short);
}

/// Without a rule that names a source the makefile's is asked; downloads from
/// freedesktop.org are GStreamer's, on the GitLab host there.
pub proof fn law_makefiles_name_sources(
    parsed: &ParsedMakefile,
    rule: &PkgRule,
    project: Seq<char>,
    r: CheckPlan,
)
    requires
        call_ensures(upstream::plan_check, (parsed, rule), r),
        names_no_page(*rule),
        rule.github is None,
        rule.gitlab is None,
        rule.gitea is None,
    ensures
        rule.skip <==> r@ is Skip,
        !rule.skip && !(parsed.source_type@ is Freedesktop) ==> r@ == Plan::Detected(
            parsed.source_type@,
        ),
        !rule.skip && parsed.source_type@ == (Source::Freedesktop { project }) ==> r@
            == Plan::Detected(
            Source::GitLab {
                host: "gitlab.freedesktop.org"@,
                owner: "gstreamer"@,
                repo: project,
                tag_template: TagForm::Plain,
            },
        ),
{
}

/// Sources that answer no question give a reason at once, and no version; all others
/// are asked.
pub proof fn law_sources_that_are_not_asked(
    parsed: &ParsedMakefile,
    source: &SourceType,
    r: Option<UpstreamInfo>,
)
    requires
        call_ensures(upstream::offline_info, (parsed, source), r),
    ensures
        r is Some <==> source@ is GoLang || source@ is GoogleSource || source@ is NoSource
            || source@ is OpenWrtMirror || source@ is GnuMirror || source@ is CustomUrl
            || source@ is Unknown,
        r is Some ==> {
            let i = r->0@;
            &&& i.pkg_name == parsed.pkg_name@
            &&& i.current_version == parsed.in_effect()
            &&& i.latest_version is None
            &&& i.is_outdated is None
            &&& i.check_error == Some(i.source_backend)
            &&& source@ is GoLang ==> i.source_backend == "golang-dl"@ && i.upstream_url == Some(
                "https://go.dev/dl/"@,
            )
            &&& source@ matches Source::GoogleSource { repo_url } ==> i.source_backend
                == "googlesource"@ && i.upstream_url == Some(repo_url)
            &&& source@ is NoSource ==> i.source_backend == "no-source"@ && i.upstream_url is None
            &&& source@ is OpenWrtMirror ==> i.source_backend == "openwrt-mirror"@
                && i.upstream_url is None
            &&& source@ matches Source::CustomUrl { url } ==> i.source_backend == "custom-url"@
                && i.upstream_url == Some(url)
            &&& source@ is Unknown ==> i.source_backend == "unknown source"@ && i.upstream_url
                is None
        },
{
}

/// The packages behind a mirror macro stand on the site of the mirror.
pub proof fn law_mirrors_have_sites(package: Seq<char>)
    ensures
        upstream::mirror_url("GNU"@, package) == "https://ftpmirror.gnu.org/"@ + package + "/"@,
        upstream::mirror_url("GNOME"@, package) == "https://download.gnome.org/sources/"@ + package
            + "/"@,
        upstream::mirror_url("APACHE"@, package) == "https://downloads.apache.org/"@ + package
            + "/"@,
        upstream::mirror_url("SAVANNAH"@, package)
            == "https://download.savannah.gnu.org/releases/"@ + package + "/"@,
        upstream::mirror_url("KERNEL"@, package) == "https://www.kernel.org/pub/"@,
{
    reveal_strlit("GNU");
    reveal_strlit("GNOME");
    reveal_strlit("APACHE");
    reveal_strlit("SAVANNAH");
    reveal_strlit("KERNEL");
    assert("GNU"@.len() == 3 && "GNOME"@.len() == 5 && "APACHE"@.len() == 6);
    assert("SAVANNAH"@.len() == 8 && "KERNEL"@.len() == 6 && "KERNEL"@[0] == 'K');
    assert("APACHE"@[0] == 'A');
}

// ────────────────────────────── failures and hashes ──────────────────────────

proof fn lemma_held(a: Seq<char>, x: Seq<char>, b: Seq<char>)
    ensures
        text::contains(a + x + b, x),
{
    let s = a + x + b;
    assert(s.subrange(a.len() as int, a.len() + x.len() as int) =~= x);
    assert(text::occurs_at(s, x, a.len() as int));
}

/// A failure that speaks of too many requests, a rate limit, a server error, a
/// timeout or a connection is tried again, while attempts are left.
pub proof fn law_passing_failures_are_tried_again(
    message: &str,
    attempt: u32,
    times: u32,
    a: Seq<char>,
    word: Seq<char>,
    b: Seq<char>,
    r: Option<u64>,
)
    requires
        attempt < 64,
        call_ensures(upstream::retry_wait, (message, attempt, times), r),
        message@ == a + word + b,
        word == "429"@ || word == "rate limit"@ || word == "502"@ || word == "503"@ || word
            == "504"@ || word == "timed out"@ || word == "connection"@,
    ensures
        r is Some <==> attempt < times,
        r is Some && attempt == 0 ==> r == Some(1u64),
        r is Some && attempt == 1 ==> r == Some(2u64),
        r is Some && attempt == 2 ==> r == Some(4u64),
{
    lemma_held(a, word, b);
    vstd::arithmetic::power2::lemma2_to64();
}

/// GitHub refuses with the status codes 403 and 429; a rate limit is told by whether
/// a token is set, anything else with the start of the answer.
pub proof fn law_refusals(
    status: u16,
    body: &str,
    token: bool,
    a: Seq<char>,
    b: Seq<char>,
    r: Option<String>,
)
    requires
        call_ensures(upstream::github_refusal, (status, body, token), r),
    ensures
        r is Some <==> status == 403 || status == 429,
        (status == 429 || status == 403 && (body@ == a + "rate limit"@ + b || body@ == a
            + "rate_limit"@ + b)) ==> r is Some && r->0@ == (if token {
            upstream::LIMIT_WITH_TOKEN@
        } else {
            upstream::LIMIT_WITHOUT_TOKEN@
        }),
        status == 403 && body@.len() <= 200 && !text::contains(body@, "rate"@) ==> r is Some
            && r->0@ == "GitHub API HTTP 403 Forbidden: "@ + body@,
        status == 403 && body@.len() > 200 && !text::contains(body@, "rate"@) ==> r is Some
            && r->0@ == "GitHub API HTTP 403 Forbidden: "@ + body@.take(200),
{
    lemma_held(a, "rate limit"@, b);
    lemma_held(a, "rate_limit"@, b);
    lemma_rate(body@, "rate limit"@);
    lemma_rate(body@, "rate_limit"@);
}

proof fn lemma_rate(s: Seq<char>, word: Seq<char>)
    requires
        word == "rate limit"@ || word == "rate_limit"@,
    ensures
        text::contains(s, word) ==> text::contains(s, "rate"@),
{
    reveal_strlit("rate limit");
    reveal_strlit("rate_limit");
    reveal_strlit("rate");
    assert(word.subrange(0, 4) =~= "rate"@);
    if text::contains(s, word) {
        let i = choose|i: int| text::occurs_at(s, word, i);
        assert(s.subrange(i, i + 4) =~= s.subrange(i, i + word.len()).subrange(0, 4));
        assert(text::occurs_at(s, "rate"@, i));
    }
}

/// A file stands in its directory, with one slash between them.
pub proof fn law_files_in_directories(dir: Seq<char>, file: &str, a: &str, b: &str, r: String)
    requires
        dir.len() > 0,
        dir.last() != '/',
        a@ == dir,
        b@ == dir + seq!['/'],
        call_ensures(upstream::tarball_url, (a, file), r) || call_ensures(
            upstream::tarball_url,
            (b, file),
            r,
        ),
    ensures
        r@ == dir + seq!['/'] + file@,
{
    reveal_strlit("/");
    assert("/"@ =~= seq!['/']);
    if "/"@.is_suffix_of(dir) {
        assert(dir.subrange(dir.len() - 1, dir.len() as int)[0] == dir.last());
    }
    assert(b@.subrange(b@.len() - 1, b@.len() as int) =~= "/"@);
}

/// A digest is the one that PKG_HASH asks for, with or without `sha256:` before it.
pub proof fn law_digests_are_compared(digest: &str, d: Seq<char>, hash: &str, r: bool)
    requires
        call_ensures(upstream::digest_differs, (digest, hash), r),
        d.len() > 0,
        text::all_in(d, Class::LowerHex),
        hash@ == d || hash@ == "sha256:"@ + d,
    ensures
        r <==> digest@ != d,
{
    reveal_strlit("sha256:");
    let p = "sha256:"@;
    let h = p + d;
    assert(p[0] == 's' && p[6] == ':');
    lemma_lower_hex(d);
    lemma_lower_front(d);
    assert(!p.is_prefix_of(d)) by {
        if p.is_prefix_of(d) {
            assert(d.subrange(0, 7)[0] == d[0]);
            assert(Class::LowerHex.has(d[0]));
        }
    }
    laws_of_texts::law_ends_are_taken_off(d, p);
}

proof fn lemma_trim_kept(s: Seq<char>)
    requires
        forall|i: int| 0 <= i < s.len() ==> !text::is_space(#[trigger] s[i]),
    ensures
        text::trim(s) == s,
{
    text::lemma_span_is(s, Class::Space, 0);
    assert(s.skip(0) =~= s);
    text::lemma_span_back_is(s, Class::Space, 0);
    assert(s.take(s.len() as int) =~= s);
}

proof fn lemma_lower_hex(d: Seq<char>)
    requires
        text::all_in(d, Class::LowerHex),
    ensures
        outside::lower(text::trim(d)) == d,
{
    assert forall|i: int| 0 <= i < d.len() implies !text::is_space(#[trigger] d[i])
        && Class::Ascii.has(d[i]) && outside::ascii_lower(d[i]) == d[i] by {
        assert(Class::LowerHex.has(d[i]));
    }
    lemma_trim_kept(d);
    assert(d.map_values(|c: char| outside::ascii_lower(c)) =~= d);
}

proof fn lemma_lower_front(d: Seq<char>)
    requires
        text::all_in(d, Class::LowerHex),
    ensures
        outside::lower(text::trim("sha256:"@ + d)) == "sha256:"@ + d,
{
    reveal_strlit("sha256:");
    let p = "sha256:"@;
    let h = p + d;
    assert forall|i: int| 0 <= i < h.len() implies !text::is_space(#[trigger] h[i])
        && Class::Ascii.has(h[i]) && outside::ascii_lower(h[i]) == h[i] by {
        if i >= 7 {
            assert(Class::LowerHex.has(d[i - 7]));
            assert(h[i] == d[i - 7]);
        } else {
            assert(h[i] == p[i]);
        }
    }
    lemma_trim_kept(h);
    assert(h.map_values(|c: char| outside::ascii_lower(c)) =~= h);
}

/// The tarball of a package is held to PKG_HASH where the package is up to date and
/// has a hash, a URL and a file.
pub proof fn law_hashes_of_current_packages(
    info: &UpstreamInfo,
    parsed: &ParsedMakefile,
    r: Option<(String, String)>,
)
    requires
        call_ensures(upstream::hash_check, (info, parsed), r),
    ensures
        r is Some <==> info@.is_outdated == Some(false) && parsed.pkg_hash is Some
            && parsed.source_url is Some && parsed.source_file is Some,
        r matches Some((url, hash)) ==> hash@ == parsed.pkg_hash->0@ && url@ == (
        if parsed.source_url->0@.len() > 0 && parsed.source_url->0@.last() == '/' {
            parsed.source_url->0@ + parsed.source_file->0@
        } else {
            parsed.source_url->0@ + seq!['/'] + parsed.source_file->0@
        }),
{
    reveal_strlit("/");
    assert("/"@ =~= seq!['/']);
    if parsed.source_url is Some {
        let u = parsed.source_url->0@;
        if "/"@.is_suffix_of(u) {
            assert(u.subrange(u.len() - 1, u.len() as int)[0] == u.last());
        } else if u.len() > 0 {
            if u.last() == '/' {
                assert(u.subrange(u.len() - 1, u.len() as int) =~= "/"@);
            }
        }
    }
}

} // verus!

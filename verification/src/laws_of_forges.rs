//! Which tag, release or commit of a repository is taken.

use crate::forges;
use crate::forges::GitLabTag;
use crate::github;
use crate::github::{GithubCommit, GithubRelease};
use crate::laws_of_answers;
use crate::laws_of_make;
use crate::laws_of_texts;
use crate::laws_of_versions;
use crate::makefile_parser::{ParsedMakefile, TagForm, TagTemplate};
use crate::outside;
use crate::pages;
use crate::tags;
use crate::tags::GithubTag;
use crate::text;
use crate::text::Class;
use crate::upstream::UpstreamInfo;
use crate::version;
use vstd::prelude::*;

verus! {

// ──────────────────────────────── tags and versions ──────────────────────────

/// A tag of the form `v` and a version, or of the version alone, is a candidate for
/// the version; a tag without digits is none.
pub proof fn law_tags_are_candidates(v: Seq<char>, word: Seq<char>)
    requires
        v.len() > 0,
        text::is_digit(v[0]),
        text::all_in(word, Class::NotDigit),
    ensures
        tags::candidate(v, TagForm::WithV) == Some(v),
        tags::candidate(seq!['v'] + v, TagForm::WithV) == Some(v),
        tags::candidate(v, TagForm::Plain) == Some(v),
        tags::candidate(word + v, TagForm::Plain) == Some(v),
        tags::candidate(word, TagForm::Plain) is None,
        tags::candidate(word, TagForm::WithV) is None,
{
    lemma_stripped(v, 'v');
    text::lemma_span_is(v, Class::NotDigit, 0);
    assert(v.skip(0) =~= v);
    text::lemma_span_is(v, Class::Either('v', 'V'), 0);
    let s = word + v;
    let n = word.len() as int;
    assert forall|i: int| 0 <= i < n implies Class::NotDigit.has(#[trigger] s[i]) by {
        assert(s[i] == word[i]);
    }
    assert(s[n] == v[0]);
    text::lemma_span_is(s, Class::NotDigit, n);
    assert(s.skip(n) =~= v);
    lemma_no_digit(word);
    let t = text::trim_start_of(word, Class::Is('v'));
    text::lemma_span(word, Class::Is('v'));
    assert forall|i: int| 0 <= i < t.len() implies Class::NotDigit.has(#[trigger] t[i]) by {
        assert(t[i] == word[i + text::span(word, Class::Is('v'))]);
    }
    lemma_no_digit(t);
}

proof fn lemma_no_digit(w: Seq<char>)
    requires
        text::all_in(w, Class::NotDigit),
    ensures
        tags::from_first_digit(w) == w,
        !text::starts_in(text::trim_start_of(w, Class::Either('v', 'V')), Class::Digit),
{
    text::lemma_span_is(w, Class::NotDigit, w.len() as int);
    let k = Class::Either('v', 'V');
    text::lemma_span(w, k);
    let t = text::trim_start_of(w, k);
    if t.len() > 0 {
        assert(t[0] == w[text::span(w, k) as int]);
        assert(Class::NotDigit.has(w[text::span(w, k) as int]));
    }
}

/// A tag that its template cannot have made stands for no version.
pub proof fn law_tags_of_other_templates(front: Seq<char>, back: Seq<char>, tag: Seq<char>)
    requires
        text::all_in(front, Class::Not('$')),
        text::all_in(back, Class::Not('$')),
        !front.is_prefix_of(tag) || !back.is_suffix_of(tag.skip(front.len() as int)),
    ensures
        tags::tag_version(tag, TagForm::Custom(front + "${VERSION}"@ + back)).len() == 0,
        !is_version_tag(tag, TagForm::Custom(front + "${VERSION}"@ + back)),
{
    tags::lemma_one_mark(front, back);
    let none = Seq::<char>::empty();
    text::lemma_span(none, Class::Either('v', 'V'));
}

/// A tag with a prefix stands for what follows the prefix and a slash or a dash, a
/// `v` left out, or for the digits right behind the prefix; any other tag for itself.
pub proof fn law_prefixes_of_tags(prefix: Seq<char>, v: Seq<char>, other: Seq<char>)
    requires
        prefix.len() > 0,
        prefix.last() != '/',
        prefix.last() != '-',
        v.len() > 0,
        text::is_digit(v[0]),
        !prefix.is_prefix_of(other),
        other.len() > 0,
        other[0] != 'v',
        other[0] != 'V',
    ensures
        tags::prefixed_version(prefix + seq!['/'] + v, prefix) == v,
        tags::prefixed_version(prefix + seq!['-'] + v, prefix) == v,
        tags::prefixed_version(prefix + seq!['/', 'v'] + v, prefix) == v,
        tags::prefixed_version(prefix + seq!['-', 'v'] + v, prefix) == v,
        tags::prefixed_version(prefix + v, prefix) == v,
        tags::prefixed_version(other, prefix) == other,
        tags::prefixed_version(v, Seq::empty()) == v,
        tags::prefixed_version(seq!['v'] + v, Seq::empty()) == v,
{
    reveal_strlit("/");
    reveal_strlit("-");
    assert("/"@ =~= seq!['/']);
    assert("-"@ =~= seq!['-']);
    lemma_bare_prefix(prefix);
    lemma_front_of(prefix, '/', v);
    lemma_front_of(prefix, '-', v);
    lemma_front_of(prefix, '/', seq!['v'] + v);
    lemma_front_of(prefix, '-', seq!['v'] + v);
    assert(prefix + seq!['/', 'v'] + v =~= prefix + seq!['/'] + (seq!['v'] + v));
    assert(prefix + seq!['-', 'v'] + v =~= prefix + seq!['-'] + (seq!['v'] + v));
    lemma_v_off(v);
    let t = prefix + v;
    let n = prefix.len() as int;
    assert(t.subrange(0, n) =~= prefix);
    assert(t.skip(n) =~= v);
    lemma_next_char(prefix, '/', t);
    lemma_next_char(prefix, '-', t);
    lemma_next_char(prefix, '/', other);
    lemma_next_char(prefix, '-', other);
    text::lemma_span_is(other, Class::Either('v', 'V'), 0);
    assert(other.skip(0) =~= other);
}

proof fn lemma_v_off(v: Seq<char>)
    requires
        v.len() > 0,
        text::is_digit(v[0]),
    ensures
        text::trim_start_of(v, Class::Either('v', 'V')) == v,
        text::trim_start_of(seq!['v'] + v, Class::Either('v', 'V')) == v,
{
    let k = Class::Either('v', 'V');
    text::lemma_span_is(v, k, 0);
    assert(v.skip(0) =~= v);
    let w = seq!['v'] + v;
    assert(w[0] == 'v' && w[1] == v[0]);
    text::lemma_span_is(w, k, 1);
    assert(w.skip(1) =~= v);
}

proof fn lemma_bare_prefix(prefix: Seq<char>)
    requires
        prefix.len() > 0,
        prefix.last() != '/',
        prefix.last() != '-',
    ensures
        text::trim_end_matches(text::trim_end_matches(prefix, "/"@), "-"@) == prefix,
{
    reveal_strlit("/");
    reveal_strlit("-");
    let n = prefix.len() as int;
    if "/"@.is_suffix_of(prefix) {
        assert(prefix.subrange(n - 1, n)[0] == prefix.last());
    }
    if "-"@.is_suffix_of(prefix) {
        assert(prefix.subrange(n - 1, n)[0] == prefix.last());
    }
}

proof fn lemma_front_of(prefix: Seq<char>, c: char, v: Seq<char>)
    ensures
        ({
            let front = prefix + seq![c];
            let tag = prefix + seq![c] + v;
            &&& front.is_prefix_of(tag)
            &&& tag.skip(front.len() as int) == v
            &&& forall|d: char|
                d != c ==> !(#[trigger] (prefix + seq![d])).is_prefix_of(tag)
        }),
{
    let front = prefix + seq![c];
    let tag = prefix + seq![c] + v;
    let n = prefix.len() as int;
    assert(tag.subrange(0, n + 1) =~= front);
    assert(tag.skip(n + 1) =~= v);
    assert forall|d: char| d != c implies !(#[trigger] (prefix + seq![d])).is_prefix_of(tag) by {
        if (prefix + seq![d]).is_prefix_of(tag) {
            assert(tag.subrange(0, n + 1)[n] == tag[n]);
            assert((prefix + seq![d])[n] == d);
        }
    }
}

proof fn lemma_next_char(prefix: Seq<char>, c: char, tag: Seq<char>)
    ensures
        (prefix + seq![c]).is_prefix_of(tag) ==> prefix.is_prefix_of(tag) && tag[prefix.len() as int]
            == c,
{
    let n = prefix.len() as int;
    let f = prefix + seq![c];
    if f.is_prefix_of(tag) {
        assert(tag.subrange(0, n + 1)[n] == tag[n]);
        assert(f[n] == c);
        assert(tag.subrange(0, n) =~= tag.subrange(0, n + 1).subrange(0, n));
        assert(f.subrange(0, n) =~= prefix);
    }
}

proof fn lemma_digits_of(a: Seq<char>)
    requires
        text::all_in(a, Class::Digit),
    ensures
        tags::digits_of(a) == a,
    decreases a.len(),
{
    if a.len() > 0 {
        let front = a.drop_last();
        assert forall|i: int| 0 <= i < front.len() implies Class::Digit.has(
            #[trigger] front[i],
        ) by {
            assert(front[i] == a[i]);
        }
        lemma_digits_of(front);
        assert(Class::Digit.has(a[a.len() - 1]));
        assert(front.push(a.last()) =~= a);
    } else {
        assert(tags::digits_of(a) =~= a);
    }
}

/// A tag of a date without dots stands for the date with them.
pub proof fn law_dotless_tags_are_dates(
    front: Seq<char>,
    back: Seq<char>,
    y: Seq<char>,
    m: Seq<char>,
    d: Seq<char>,
)
    requires
        text::all_in(front, Class::Not('$')),
        text::all_in(back, Class::Not('$')),
        y.len() == 4,
        m.len() == 2,
        d.len() == 2,
        text::all_in(y, Class::Digit),
        text::all_in(m, Class::Digit),
        text::all_in(d, Class::Digit),
    ensures
        ({
            let form = TagForm::Custom(front + "${VERSION_NODOT}"@ + back);
            let dot = seq!['.'];
            &&& tags::tag_version(front + y + m + d + back, form) == y + dot + m + dot + d
            &&& tags::tag_version(front + y + m + back, form) == y + dot + m
        }),
{
    reveal_strlit("${VERSION_NODOT}");
    reveal_strlit(".");
    assert("."@ =~= seq!['.']);
    let mark = "${VERSION_NODOT}"@;
    let p = front + mark + back;
    let n = front.len() as int;
    lemma_nodot(front, back);
    let a = y + m + d;
    let b = y + m;
    let s = front + y + m + d + back;
    let t = front + y + m + back;
    assert(s =~= front + a + back);
    assert(t =~= front + b + back);
    lemma_between(front, a, back);
    lemma_between(front, b, back);
    assert forall|i: int| 0 <= i < a.len() implies Class::Digit.has(#[trigger] a[i]) by {
        if i < 4 {
            assert(Class::Digit.has(y[i]));
        } else if i < 6 {
            assert(Class::Digit.has(m[i - 4]));
        } else {
            assert(Class::Digit.has(d[i - 6]));
        }
    }
    assert forall|i: int| 0 <= i < b.len() implies Class::Digit.has(#[trigger] b[i]) by {
        assert(b[i] == a[i]);
    }
    lemma_digits_of(a);
    lemma_digits_of(b);
    assert(a.take(4) =~= y && a.subrange(4, 6) =~= m && a.skip(6) =~= d);
    assert(b.take(4) =~= y && b.skip(4) =~= m);
}

proof fn lemma_nodot(front: Seq<char>, back: Seq<char>)
    requires
        text::all_in(front, Class::Not('$')),
        text::all_in(back, Class::Not('$')),
    ensures
        ({
            let p = front + "${VERSION_NODOT}"@ + back;
            let mark = "${VERSION_NODOT}"@;
            &&& text::contains(p, mark)
            &&& text::before(p, mark) == front
            &&& text::between(p, mark) == back
        }),
{
    reveal_strlit("${VERSION_NODOT}");
    let mark = "${VERSION_NODOT}"@;
    let p = front + mark + back;
    let n = front.len() as int;
    text::lemma_find(p, mark);
    text::lemma_contains(p, mark);
    assert(p.subrange(n, n + mark.len() as int) =~= mark);
    assert(text::occurs_at(p, mark, n));
    let i = text::find(p, mark)->0;
    assert(i == n) by {
        if i < n {
            assert(p.subrange(i, i + mark.len())[0] == p[i]);
            assert(Class::Not('$').has(front[i]));
        }
    }
    assert(p.take(n) =~= front);
    assert(p.skip(n + mark.len()) =~= back);
    text::lemma_find(back, mark);
    if let Some(k) = text::find(back, mark) {
        assert(back.subrange(k, k + mark.len())[0] == back[k]);
        assert(Class::Not('$').has(back[k]));
    }
}

proof fn lemma_between(front: Seq<char>, a: Seq<char>, back: Seq<char>)
    ensures
        tags::without_suffix(tags::without_prefix(front + a + back, front), back) == a,
{
    let s = front + a + back;
    assert(s.subrange(0, front.len() as int) =~= front);
    let t = s.skip(front.len() as int);
    assert(t =~= a + back);
    assert(t.subrange(t.len() - back.len(), t.len() as int) =~= back);
    assert(t.take(t.len() - back.len()) =~= a);
}

// ─────────────────────────────────── places ──────────────────────────────────

/// Where GitHub lists the releases, the tags and the latest commit of a repository.
pub proof fn law_places_on_github(
    owner: &str,
    repo: &str,
    per_page: u64,
    page: u64,
    a: String,
    b: String,
    c: String,
)
    requires
        call_ensures(github::releases_api, (owner, repo), a),
        call_ensures(github::tags_api, (owner, repo, per_page, page), b),
        call_ensures(github::commits_api, (owner, repo), c),
    ensures
        ({
            let front = "https://api.github.com/repos/"@ + owner@ + "/"@ + repo@;
            &&& a@ == front + "/releases?per_page=20"@
            &&& b@ == front + "/tags?per_page="@ + text::decimal(per_page as nat) + "&page="@
                + text::decimal(page as nat)
            &&& c@ == front + "/commits?per_page=1"@
        }),
{
}

/// Where BitBucket and Gitea list the tags of a repository.
pub proof fn law_places_on_forges(
    host: &str,
    owner: &str,
    repo: &str,
    a: String,
    b: String,
)
    requires
        call_ensures(forges::bitbucket_api, (owner, repo), a),
        call_ensures(forges::gitea_api, (host, owner, repo), b),
    ensures
        a@ == "https://api.bitbucket.org/2.0/repositories/"@ + owner@ + "/"@ + repo@
            + "/refs/tags?sort=-name&pagelen=30"@,
        b@ == "https://"@ + host@ + "/api/v1/repos/"@ + owner@ + "/"@ + repo@
            + "/tags?limit=30&page=1"@,
{
}

/// Where GitLab lists the tags and the latest commit of a project.
pub proof fn law_places_on_gitlab(
    host: &str,
    owner: &str,
    repo: &str,
    a: String,
    b: String,
)
    requires
        call_ensures(forges::gitlab_tags_api, (host, owner, repo), a),
        call_ensures(forges::gitlab_commits_api, (host, owner, repo), b),
    ensures
        ({
            let path = owner@ + seq!['/'] + repo@;
            let front = "https://"@ + host@ + "/api/v4/projects/"@ + outside::percent_encoded(path);
            &&& a@ == front + "/repository/tags?per_page=30&order_by=version&sort=desc"@
            &&& b@ == front + "/repository/commits?per_page=1"@
        }),
{
    reveal_strlit("/");
    assert("/"@ =~= seq!['/']);
}

/// Where cgit lists the refs of a repository, whether its URL ends in a slash or not.
pub proof fn law_places_on_cgit(
    dir: Seq<char>,
    repo_url: &str,
    a: String,
    b: String,
)
    requires
        call_ensures(forges::cgit_json_url, (repo_url,), a),
        call_ensures(forges::cgit_page_url, (repo_url,), b),
        dir.len() > 0,
        dir.last() != '/',
        repo_url@ == dir || repo_url@ == dir + seq!['/'],
    ensures
        a@ == dir + "/refs/?format=json"@,
        b@ == dir + "/refs/"@,
{
    reveal_strlit("/");
    assert("/"@ =~= seq!['/']);
    laws_of_texts::law_ends_are_taken_off(dir, "/"@);
    if "/"@.is_suffix_of(dir) {
        assert(dir.subrange(dir.len() - 1, dir.len() as int)[0] == dir.last());
    }
}

/// What the page of refs of a cgit repository tells is found.
pub proof fn law_pages_of_cgit(
    parsed: &ParsedMakefile,
    body: &str,
    repo_url: &str,
    v: Seq<char>,
    r: UpstreamInfo,
)
    requires
        call_ensures(forges::from_cgit_page, (parsed, body, repo_url), r),
    ensures
        pages::index_version(body@, parsed.pkg_version@) == Some(v) ==> laws_of_answers::finds(
            r@,
            *parsed,
            v,
        ) && r@.write_pkg_version == Some(v),
        pages::index_version(body@, parsed.pkg_version@) is None ==> laws_of_answers::finds_none(
            r@,
            *parsed,
            "could not parse cgit tags"@,
        ),
        r@.upstream_url == Some(repo_url@),
{
}

// ────────────────────────────── releases on GitHub ───────────────────────────

proof fn lemma_first_release(rs: Seq<GithubRelease>, k: int, prereleases: bool)
    requires
        0 <= k <= rs.len(),
        k < rs.len() ==> github::is_release(rs[k], prereleases),
        forall|i: int| 0 <= i < k ==> !github::is_release(#[trigger] rs[i], prereleases),
    ensures
        github::first_release(rs, prereleases) == (if k < rs.len() {
            Some(k)
        } else {
            None
        }),
    decreases rs.len(),
{
    if rs.len() > 0 {
        let front = rs.drop_last();
        assert forall|i: int| 0 <= i < front.len() implies #[trigger] front[i] == rs[i] by {}
        if k == rs.len() {
            lemma_first_release(front, k - 1, prereleases);
            assert(rs.last() == rs[rs.len() - 1]);
        } else if k == rs.len() - 1 {
            lemma_first_release(front, k, prereleases);
        } else {
            lemma_first_release(front, k, prereleases);
        }
    }
}

/// Whether a release can be taken: no draft; and where pre-releases do not count,
/// neither marked as one nor named like one.
pub open spec fn can_be_taken(r: GithubRelease, prereleases: bool) -> bool {
    !r.draft && (prereleases || (!r.prerelease && !version::is_prerelease(r.tag_name@)))
}

/// The first release that is no draft and, unless those count, no pre-release is
/// taken; without one the tags are to be asked for.
pub proof fn law_first_release_is_taken(
    parsed: &ParsedMakefile,
    releases: &Vec<GithubRelease>,
    template: &TagTemplate,
    owner: &str,
    repo: &str,
    prereleases: bool,
    k: int,
    r: Option<UpstreamInfo>,
)
    requires
        call_ensures(
            github::from_releases,
            (parsed, releases, template, owner, repo, prereleases),
            r,
        ),
        0 <= k <= releases@.len(),
        k < releases@.len() ==> can_be_taken(releases@[k], prereleases),
        forall|i: int| 0 <= i < k ==> !can_be_taken(#[trigger] releases@[i], prereleases),
    ensures
        r is None <==> k == releases@.len(),
        r matches Some(i) ==> {
            let tag = releases@[k].tag_name@;
            let v = tags::tag_version(tag, template@);
            &&& i@.latest_tag == Some(tag)
            &&& !(template@ is Custom) ==> laws_of_answers::finds(i@, *parsed, v)
                && i@.write_pkg_version == Some(v) && i@.write_pkg_source_version is None
        },
{
    assert forall|i: int| 0 <= i < k implies !github::is_release(
        #[trigger] releases@[i],
        prereleases,
    ) by {
        assert(!can_be_taken(releases@[i], prereleases));
    }
    lemma_first_release(releases@, k, prereleases);
}

/// A tag with a word before its version, such as `release-1.2`, is written whole to
/// PKG_SOURCE_VERSION, and its version with dots for dashes.
pub proof fn law_worded_tags_are_written_whole(
    front: Seq<char>,
    tag: Seq<char>,
    a: Seq<char>,
    b: Seq<char>,
)
    requires
        text::any_in(front, Class::Letter),
        text::all_in(front, Class::Not('$')),
        !a.contains('-'),
        !b.contains('-'),
    ensures
        ({
            let form = TagForm::Custom(front + "${VERSION}"@);
            &&& tags::written_source(tag, form) == Some(tag)
            &&& tags::written_version(a + seq!['-'] + b, form) == a + seq!['.'] + b
            &&& tags::written_version(a, form) == a
            &&& tags::written_version(a + seq!['-'] + b, TagForm::WithV) == a + seq!['-'] + b
            &&& !text::any_in(b, Class::Letter) && text::all_in(b, Class::Not('$'))
                ==> tags::written_source(tag, TagForm::Custom(b + "${VERSION}"@)) is None
            &&& tags::written_source(tag, TagForm::WithV) is None
            &&& tags::written_source(tag, TagForm::Plain) is None
            &&& tags::written_version(a, TagForm::Plain) == a
        }),
{
    reveal_strlit("${VERSION}");
    lemma_before_mark(front);
    if text::all_in(b, Class::Not('$')) {
        lemma_before_mark(b);
    }
    reveal_strlit("-");
    reveal_strlit(".");
    assert("-"@ =~= seq!['-']);
    assert("."@ =~= seq!['.']);
    laws_of_make::lemma_replace_once(a, '-', b, seq!['.']);
    laws_of_make::lemma_replace_none(a, '-', seq!['.']);
}

proof fn lemma_before_mark(front: Seq<char>)
    requires
        text::all_in(front, Class::Not('$')),
    ensures
        text::before(front + "${VERSION}"@, "${VERSION}"@) == front,
{
    reveal_strlit("${VERSION}");
    let mark = "${VERSION}"@;
    let p = front + mark;
    text::lemma_find(p, mark);
    assert(p.subrange(front.len() as int, p.len() as int) =~= mark);
    assert(text::occurs_at(p, mark, front.len() as int));
    let i = text::find(p, mark)->0;
    assert(i == front.len()) by {
        if i < front.len() {
            assert(p.subrange(i, i + mark.len())[0] == p[i]);
            assert(Class::Not('$').has(front[i]));
        }
    }
    assert(p.take(i) =~= front);
}

// ──────────────────────────────── tags on GitHub ─────────────────────────────

proof fn lemma_considered(all: Seq<GithubTag>, prereleases: bool)
    ensures
        ({
            let kept = tags::considered(all, prereleases);
            &&& forall|j: int|
                0 <= j < kept.len() ==> all.contains(#[trigger] kept[j]) && (prereleases
                    || !version::is_prerelease(kept[j].name@))
            &&& forall|i: int|
                0 <= i < all.len() && (prereleases || !version::is_prerelease(
                    (#[trigger] all[i]).name@,
                )) ==> kept.contains(all[i])
        }),
    decreases all.len(),
{
    if all.len() > 0 {
        let front = all.drop_last();
        lemma_considered(front, prereleases);
        let before = tags::considered(front, prereleases);
        let kept = tags::considered(all, prereleases);
        assert forall|j: int| 0 <= j < kept.len() implies all.contains(#[trigger] kept[j]) && (
        prereleases || !version::is_prerelease(kept[j].name@)) by {
            if j < before.len() {
                assert(kept[j] == before[j]);
                let m = choose|m: int| 0 <= m < front.len() && front[m] == before[j];
                assert(all[m] == kept[j]);
            } else {
                assert(all[all.len() - 1] == kept[j]);
            }
        }
        assert forall|i: int|
            0 <= i < all.len() && (prereleases || !version::is_prerelease(
                (#[trigger] all[i]).name@,
            )) implies kept.contains(all[i]) by {
            if i < front.len() {
                assert(front[i] == all[i]);
                let m = choose|m: int| 0 <= m < before.len() && before[m] == all[i];
                assert(kept[m] == all[i]);
            } else {
                assert(kept.last() == all[i]);
                assert(kept[kept.len() - 1] == all[i]);
            }
        }
    }
}

/// Whether a template makes a tag from a version that starts with a digit.
pub open spec fn is_version_tag(name: Seq<char>, form: TagForm) -> bool {
    tags::candidate(name, form) is Some
}

/// Of the tags of a repository that stand for versions, pre-releases left out
/// unless they count, the one of the highest version is taken.  It is written to
/// PKG_SOURCE_VERSION where the makefile has that, else its version to PKG_VERSION.
pub proof fn law_highest_tag_is_taken(
    parsed: &ParsedMakefile,
    all: &Vec<GithubTag>,
    template: &TagTemplate,
    owner: &str,
    repo: &str,
    prereleases: bool,
    k: int,
    r: UpstreamInfo,
)
    requires
        call_ensures(github::from_tags, (parsed, all, template, owner, repo, prereleases), r),
        !(template@ is Custom),
        0 <= k < all@.len(),
        prereleases || !version::is_prerelease(all@[k].name@),
        is_version_tag(all@[k].name@, template@),
        forall|i: int|
            0 <= i < all@.len() && is_version_tag((#[trigger] all@[i]).name@, template@)
                ==> version::is_plain_version(tags::candidate(all@[i].name@, template@)->0),
    ensures
        exists|i: int|
            {
                &&& 0 <= i < all@.len()
                &&& r@.latest_tag == Some((#[trigger] all@[i]).name@)
                &&& r@.latest_commit == Some(text::byte_prefix(all@[i].commit.sha@, 8))
                &&& prereleases || !version::is_prerelease(all@[i].name@)
                &&& is_version_tag(all@[i].name@, template@)
                &&& laws_of_answers::finds(
                    r@,
                    *parsed,
                    tags::candidate(all@[i].name@, template@)->0,
                )
                &&& !laws_of_versions::is_below(
                    tags::candidate(all@[i].name@, template@)->0,
                    tags::candidate(all@[k].name@, template@)->0,
                )
            },
        parsed.pkg_source_version is Some ==> r@.write_pkg_version is None
            && r@.write_pkg_source_version == r@.latest_tag,
        parsed.pkg_source_version is None ==> r@.write_pkg_version == r@.latest_version
            && r@.write_pkg_source_version is None,
{
    let kept = tags::considered(all@, prereleases);
    lemma_considered(all@, prereleases);
    let c = tags::candidates(kept, template@);
    assert forall|i: int| 0 <= i < c.len() && #[trigger] c[i] is Some implies
        version::is_plain_version(c[i]->0) by {
        let m = choose|m: int| 0 <= m < all@.len() && all@[m] == kept[i];
        assert(is_version_tag(all@[m].name@, template@));
    }
    let m = choose|m: int| 0 <= m < kept.len() && kept[m] == all@[k];
    assert(c[m] is Some);
    laws_of_answers::law_newest_is_highest(c);
    let b = tags::newest(c)->0;
    assert(c[b] is Some);
    let i = choose|i: int| 0 <= i < all@.len() && all@[i] == kept[b];
    assert(all@[i].name@ == kept[b].name@);
}

/// Without a tag that stands for a version there is no result; further pages are
/// asked for while a full one has none.
pub proof fn law_without_version_tags(
    parsed: &ParsedMakefile,
    all: &Vec<GithubTag>,
    template: &TagTemplate,
    owner: &str,
    repo: &str,
    prereleases: bool,
    last_page: usize,
    r: UpstreamInfo,
    enough: bool,
)
    requires
        call_ensures(github::from_tags, (parsed, all, template, owner, repo, prereleases), r),
        call_ensures(github::enough_tags, (all, template, last_page, prereleases), enough),
        forall|i: int|
            0 <= i < all@.len() ==> !is_version_tag((#[trigger] all@[i]).name@, template@) || (
            !prereleases && version::is_prerelease(all@[i].name@)),
    ensures
        laws_of_answers::finds_none(r@, *parsed, "no stable releases or tags found"@),
        enough <==> last_page < 100,
{
    let kept = tags::considered(all@, prereleases);
    lemma_considered(all@, prereleases);
    let c = tags::candidates(kept, template@);
    assert forall|i: int| 0 <= i < c.len() implies #[trigger] c[i] is None by {
        let m = choose|m: int| 0 <= m < all@.len() && all@[m] == kept[i];
        assert(!is_version_tag(all@[m].name@, template@) || (!prereleases
            && version::is_prerelease(all@[m].name@)));
    }
    tags::lemma_newest(c);
    if let Some(i) = tags::newest(c) {
        assert(c[i] is None);
    }
}

/// A tag that stands for a version is enough, and so is a page that is not full.
pub proof fn law_a_version_tag_is_enough(
    all: &Vec<GithubTag>,
    template: &TagTemplate,
    last_page: usize,
    prereleases: bool,
    k: int,
    enough: bool,
)
    requires
        call_ensures(github::enough_tags, (all, template, last_page, prereleases), enough),
        0 <= k < all@.len(),
        prereleases || !version::is_prerelease(all@[k].name@),
        is_version_tag(all@[k].name@, template@),
    ensures
        enough,
{
    let kept = tags::considered(all@, prereleases);
    lemma_considered(all@, prereleases);
    let c = tags::candidates(kept, template@);
    let m = choose|m: int| 0 <= m < kept.len() && kept[m] == all@[k];
    assert(c[m] is Some);
    tags::lemma_newest(c);
}

/// Tags whose templates have a prefix may stand on ten pages, others on one.
pub proof fn law_pages_of_tags(template: &TagTemplate, r: u64)
    requires
        call_ensures(github::max_tag_pages, (template,), r),
    ensures
        template@ is Custom <==> r == 10,
        !(template@ is Custom) <==> r == 1,
{
}

proof fn lemma_first_under(
    p: ParsedMakefile,
    all: Seq<GithubTag>,
    prefix: Seq<char>,
    url: Seq<char>,
    prereleases: bool,
    k: int,
)
    requires
        0 <= k < all.len(),
        forall|i: int|
            0 <= i < k ==> !github::under_prefix(#[trigger] all[i], prefix, prereleases),
    ensures
        github::tag_path_result(p, all, prefix, url, prereleases) == github::tag_path_result(
            p,
            all.skip(k),
            prefix,
            url,
            prereleases,
        ),
    decreases k,
{
    if k == 0 {
        assert(all.skip(0) =~= all);
    } else {
        assert(!github::under_prefix(all[0], prefix, prereleases));
        let rest = all.skip(1);
        assert forall|i: int| 0 <= i < k - 1 implies !github::under_prefix(
            #[trigger] rest[i],
            prefix,
            prereleases,
        ) by {
            assert(rest[i] == all[i + 1]);
        }
        lemma_first_under(p, rest, prefix, url, prereleases, k - 1);
        assert(rest.skip(k - 1) =~= all.skip(k));
    }
}

/// Without a tag under the path there is no result.
pub proof fn law_no_tag_of_a_path(
    parsed: &ParsedMakefile,
    all: &Vec<GithubTag>,
    tag_path: &str,
    owner: &str,
    repo: &str,
    prereleases: bool,
    r: UpstreamInfo,
)
    requires
        call_ensures(github::from_tag_path, (parsed, all, tag_path, owner, repo, prereleases), r),
        forall|i: int|
            0 <= i < all@.len() ==> !text::trim_end_matches(tag_path@, "/"@).is_prefix_of(
                (#[trigger] all@[i]).name@,
            ) || (!prereleases && version::is_prerelease(all@[i].name@)),
    ensures
        laws_of_answers::finds_none(r@, *parsed, "no matching tags found"@),
{
    let url = github::place("https://github.com/"@, owner@, repo@, "/tags"@);
    let path = text::trim_end_matches(tag_path@, "/"@);
    lemma_none_under(*parsed, all@, path, url, prereleases);
}

proof fn lemma_none_under(
    p: ParsedMakefile,
    all: Seq<GithubTag>,
    prefix: Seq<char>,
    url: Seq<char>,
    prereleases: bool,
)
    requires
        forall|i: int|
            0 <= i < all.len() ==> !prefix.is_prefix_of((#[trigger] all[i]).name@) || (!prereleases
                && version::is_prerelease(all[i].name@)),
    ensures
        laws_of_answers::finds_none(
            github::tag_path_result(p, all, prefix, url, prereleases),
            p,
            "no matching tags found"@,
        ),
    decreases all.len(),
{
    if all.len() > 0 {
        let rest = all.skip(1);
        assert(!github::under_prefix(all[0], prefix, prereleases));
        assert forall|i: int| 0 <= i < rest.len() implies !prefix.is_prefix_of(
            (#[trigger] rest[i]).name@,
        ) || (!prereleases && version::is_prerelease(rest[i].name@)) by {
            assert(rest[i] == all[i + 1]);
        }
        lemma_none_under(p, rest, prefix, url, prereleases);
    }
}

/// Of the tags under a path the first one that comes into question is taken; what
/// follows the path and a slash is its version.
pub proof fn law_first_tag_of_a_path(
    parsed: &ParsedMakefile,
    all: &Vec<GithubTag>,
    tag_path: &str,
    owner: &str,
    repo: &str,
    prereleases: bool,
    path: Seq<char>,
    v: Seq<char>,
    k: int,
    r: UpstreamInfo,
)
    requires
        call_ensures(github::from_tag_path, (parsed, all, tag_path, owner, repo, prereleases), r),
        path.len() > 0,
        path.last() != '/',
        tag_path@ == path + seq!['/'],
        0 <= k < all@.len(),
        v.len() > 0,
        text::is_digit(v[0]),
        all@[k].name@ == path + seq!['/'] + v,
        prereleases || !version::is_prerelease(all@[k].name@),
        forall|i: int|
            0 <= i < k ==> !path.is_prefix_of((#[trigger] all@[i]).name@) || (!prereleases
                && version::is_prerelease(all@[i].name@)),
    ensures
        laws_of_answers::finds(r@, *parsed, v),
        r@.latest_tag == Some(all@[k].name@),
        r@.latest_commit == Some(text::byte_prefix(all@[k].commit.sha@, 8)),
        r@.write_pkg_version == Some(v),
{
    reveal_strlit("/");
    assert("/"@ =~= seq!['/']);
    laws_of_texts::law_ends_are_taken_off(path, "/"@);
    if "/"@.is_suffix_of(path) {
        assert(path.subrange(path.len() - 1, path.len() as int)[0] == path.last());
    }
    let url = github::place("https://github.com/"@, owner@, repo@, "/tags"@);
    lemma_first_under(*parsed, all@, path, url, prereleases, k);
    let name = all@[k].name@;
    assert(all@.skip(k)[0] == all@[k]);
    assert(name.subrange(0, path.len() as int) =~= path);
    let front = path + "/"@;
    assert(name.subrange(0, front.len() as int) =~= front);
    assert(name.skip(front.len() as int) =~= v);
    text::lemma_span_is(v, Class::Either('v', 'V'), 0);
    assert(v.skip(0) =~= v);
}

// ──────────────────────────── packages at a commit ───────────────────────────

/// A package at a commit is outdated where the latest commit is another one, be it
/// written short or whole.  The commit and its day are written.
pub proof fn law_commits_are_compared(
    parsed: &ParsedMakefile,
    commits: &Vec<GithubCommit>,
    current: &str,
    owner: &str,
    repo: &str,
    day: Seq<char>,
    time: Seq<char>,
    r: UpstreamInfo,
)
    requires
        call_ensures(github::from_commits, (parsed, commits, current, owner, repo), r),
        !day.contains('T'),
    ensures
        commits@.len() == 0 ==> laws_of_answers::finds_none(r@, *parsed, "no commits found"@),
        commits@.len() > 0 ==> {
            let sha = commits@[0].sha@;
            &&& r@.latest_commit == Some(sha)
            &&& r@.write_pkg_source_version == Some(sha)
            &&& r@.write_pkg_version is None
            &&& r@.is_outdated == Some(!(current@.is_prefix_of(sha) || sha.is_prefix_of(current@)))
            &&& current@ == sha ==> r@.is_outdated == Some(false)
            &&& commits@[0].date@ == day + seq!['T'] + time ==> r@.write_pkg_source_date == Some(
                day,
            ) && r@.latest_version == Some(
                day + seq![' ', '('] + text::byte_prefix(sha, 8) + seq![')'],
            )
        },
{
    reveal_strlit("T");
    reveal_strlit(" (");
    reveal_strlit(")");
    assert("T"@ =~= seq!['T']);
    assert(" ("@ =~= seq![' ', '(']);
    assert(")"@ =~= seq![')']);
    laws_of_texts::law_marks_part_texts(day, 'T', day, time);
    if commits@.len() > 0 && current@ == commits@[0].sha@ {
        assert(current@.subrange(0, current@.len() as int) =~= current@);
    }
}

/// A package at a commit is shown with the day of the commit, dashes for dots, and
/// eight digits of the commit; without a day with its version.
pub proof fn law_commits_are_shown(
    v: Seq<char>,
    y: Seq<char>,
    m: Seq<char>,
    short: Seq<char>,
    dated: bool,
)
    requires
        !y.contains('.'),
        !m.contains('.'),
    ensures
        github::commit_shown(v, Some(y + seq!['.'] + m), dated, short) == y + seq!['-'] + m
            + seq![' ', '('] + short + seq![')'],
        github::commit_shown(y + seq!['.'] + m, None, true, short) == y + seq!['-'] + m
            + seq![' ', '('] + short + seq![')'],
        github::commit_shown(v, None, false, short) == v + seq![' ', '('] + short + seq![')'],
{
    reveal_strlit(".");
    reveal_strlit("-");
    reveal_strlit(" (");
    reveal_strlit(")");
    assert("."@ =~= seq!['.']);
    assert("-"@ =~= seq!['-']);
    assert(" ("@ =~= seq![' ', '(']);
    assert(")"@ =~= seq![')']);
    laws_of_make::lemma_replace_once(y, '.', m, seq!['-']);
}

/// A tag is a release of a package at a commit where it is a version, with or
/// without a `v` or a `V`, that holds no `+` and is of the package's format.
pub proof fn law_tags_of_packages_at_a_commit(v: Seq<char>, format: u8)
    requires
        v.len() > 0,
    ensures
        text::is_digit(v[0]) && !v.contains('+') && version::format_of(v) == format
            ==> github::plain_tag(v, format) == Some(v) && github::plain_tag(
            seq!['v'] + v,
            format,
        ) == Some(v) && github::plain_tag(seq!['V'] + v, format) == Some(v),
        text::is_digit(v[0]) && (v.contains('+') || version::format_of(v) != format)
            ==> github::plain_tag(v, format) is None && github::plain_tag(
            seq!['v'] + v,
            format,
        ) is None,
        !text::is_digit(v[0]) && v[0] != 'v' && v[0] != 'V' ==> github::plain_tag(v, format)
            is None,
{
    reveal_strlit("+");
    assert("+"@ =~= seq!['+']);
    if !v.contains('+') {
        laws_of_make::lemma_not_found(v, '+', "+"@);
    } else {
        let j = choose|j: int| 0 <= j < v.len() && v[j] == '+';
        assert(v.subrange(j, j + 1) =~= "+"@);
        assert(text::occurs_at(v, "+"@, j));
    }
    lemma_stripped(v, 'v');
    lemma_stripped(v, 'V');
    let u = seq!['V'] + v;
    text::lemma_span_is(u, Class::Is('v'), 0);
    assert(u.skip(0) =~= u);
}

proof fn lemma_stripped(v: Seq<char>, c: char)
    requires
        v.len() > 0,
    ensures
        v[0] != c ==> text::trim_start_of(v, Class::Is(c)) == v && text::trim_start_of(
            seq![c] + v,
            Class::Is(c),
        ) == v,
{
    if v[0] != c {
        text::lemma_span_is(v, Class::Is(c), 0);
        assert(v.skip(0) =~= v);
        let w = seq![c] + v;
        assert(w[0] == c && w[1] == v[0]);
        text::lemma_span_is(w, Class::Is(c), 1);
        assert(w.skip(1) =~= v);
    }
}

proof fn lemma_first_named(all: Seq<GithubTag>, k: int)
    requires
        0 <= k < all.len(),
    ensures
        ({
            let i = github::first_named(all, all[k].name@);
            0 <= i <= k && all[i].name@ == all[k].name@
        }),
    decreases k,
{
    if all[0].name@ != all[k].name@ {
        assert(all.skip(1)[k - 1] == all[k]);
        lemma_first_named(all.skip(1), k - 1);
    }
}

/// A package at a commit follows the highest of its releases, those that are no
/// pre-releases first; its tag's commit is written, and its version with a `v`
/// where the makefile has one.
pub proof fn law_commits_follow_the_highest_tag(
    parsed: &ParsedMakefile,
    all: &Vec<GithubTag>,
    owner: &str,
    repo: &str,
    prereleases: bool,
    k: int,
    r: Option<UpstreamInfo>,
)
    requires
        call_ensures(github::from_commit_tags, (parsed, all, owner, repo, prereleases), r),
        0 <= k < all@.len(),
        ({
            let format = version::format_of(
                text::trim_start_of(parsed.pkg_version@, Class::Is('v')),
            );
            &&& github::plain_tag(all@[k].name@, format) is Some
            &&& prereleases || !version::is_prerelease(all@[k].name@)
            &&& forall|i: int|
                0 <= i < all@.len() && github::plain_tag((#[trigger] all@[i]).name@, format) is Some
                    ==> version::is_plain_version(github::plain_tag(all@[i].name@, format)->0)
        }),
    ensures
        r is Some,
        ({
            let format = version::format_of(
                text::trim_start_of(parsed.pkg_version@, Class::Is('v')),
            );
            exists|i: int|
                {
                    let v = github::plain_tag((#[trigger] all@[i]).name@, format)->0;
                    &&& 0 <= i < all@.len()
                    &&& prereleases || !version::is_prerelease(all@[i].name@)
                    &&& !laws_of_versions::is_below(
                        v,
                        github::plain_tag(all@[k].name@, format)->0,
                    )
                    &&& r->0@.latest_tag == Some(all@[i].name@)
                    &&& r->0@.write_pkg_version == r->0@.latest_version
                    &&& r->0@.latest_version == Some(
                        if parsed.pkg_version@.len() > 0 && parsed.pkg_version@[0] == 'v' {
                            seq!['v'] + v
                        } else {
                            v
                        },
                    )
                    &&& r->0@.is_outdated == Some(
                        version::is_outdated(
                            text::trim_start_of(parsed.pkg_version@, Class::Is('v')),
                            v,
                        ),
                    )
                }
        }),
        exists|i: int|
            0 <= i < all@.len() && r->0@.latest_tag == Some((#[trigger] all@[i]).name@)
                && r->0@.write_pkg_source_version == Some(all@[i].commit.sha@)
                && r->0@.latest_commit == Some(text::byte_prefix(all@[i].commit.sha@, 8)),
{
    reveal_strlit("v");
    assert("v"@ =~= seq!['v']);
    let format = version::format_of(text::trim_start_of(parsed.pkg_version@, Class::Is('v')));
    let c = github::plain_tags(all@, format, prereleases);
    assert forall|i: int| 0 <= i < c.len() && #[trigger] c[i] is Some implies
        version::is_plain_version(c[i]->0) by {
        assert(github::plain_tag(all@[i].name@, format) is Some);
    }
    assert(c[k] is Some);
    laws_of_answers::law_newest_is_highest(c);
    let b = tags::newest(c)->0;
    assert(c[b] is Some);
    lemma_first_named(all@, b);
    let n = github::first_named(all@, all@[b].name@);
    assert(all@[b].name@ == all@[b].name@);
    assert(all@[n].name@ == all@[b].name@);
}

/// Where all its releases are pre-releases, a package at a commit follows the highest
/// of these; without a release the commits are to be asked for.
pub proof fn law_commits_follow_prereleases_at_last(
    parsed: &ParsedMakefile,
    all: &Vec<GithubTag>,
    owner: &str,
    repo: &str,
    prereleases: bool,
    r: Option<UpstreamInfo>,
)
    requires
        call_ensures(github::from_commit_tags, (parsed, all, owner, repo, prereleases), r),
    ensures
        ({
            let format = version::format_of(
                text::trim_start_of(parsed.pkg_version@, Class::Is('v')),
            );
            r is None <==> forall|i: int|
                0 <= i < all@.len() ==> github::plain_tag(
                    (#[trigger] all@[i]).name@,
                    format,
                ) is None
        }),
        r matches Some(i) ==> i@.pkg_name == parsed.pkg_name@ && i@.current_version
            == parsed.pkg_version@ && i@.source_backend == "github-commit+tags"@ && i@.check_error
            is None && i@.write_pkg_source_date is None,
{
    let format = version::format_of(text::trim_start_of(parsed.pkg_version@, Class::Is('v')));
    let c = github::plain_tags(all@, format, prereleases);
    let d = github::plain_tags(all@, format, true);
    tags::lemma_newest(c);
    tags::lemma_newest(d);
    if r is None {
        assert forall|i: int| 0 <= i < all@.len() implies github::plain_tag(
            (#[trigger] all@[i]).name@,
            format,
        ) is None by {
            assert(d[i] is None);
        }
    } else {
        if tags::newest(c) is Some {
            let b = tags::newest(c)->0;
            assert(c[b] is Some);
            assert(github::plain_tag(all@[b].name@, format) is Some);
        } else {
            let b = tags::newest(d)->0;
            assert(d[b] is Some);
            assert(github::plain_tag(all@[b].name@, format) is Some);
        }
    }
}

// ─────────────────────────── GitLab, BitBucket, Gitea ────────────────────────

/// The first number of a version.
proof fn lemma_major(n: Seq<char>, rest: Seq<char>)
    requires
        n.len() > 0,
        text::all_in(n, Class::Digit),
        text::digits_value(n) <= u64::MAX,
        rest.len() == 0 || !text::is_digit(rest[0]),
    ensures
        forges::major_of(n + rest) == Some(text::digits_value(n)),
{
    let s = n + rest;
    let k = n.len() as int;
    assert forall|i: int| 0 <= i < k implies Class::Digit.has(#[trigger] s[i]) by {
        assert(s[i] == n[i]);
    }
    assert(rest.len() > 0 ==> s[k] == rest[0]);
    text::lemma_span_is(s, Class::Digit, k);
    assert(!Class::NotDigit.has(s[0]));
    text::lemma_span_is(s, Class::NotDigit, 0);
    assert(s.skip(0) =~= s);
    assert(s.take(k) =~= n);
    let runs = text::digit_runs(s);
    assert(runs.len() > 0 && runs[0] == n);
    assert(Class::Digit.has(n[0]));
}

/// A tag on GitLab is taken for a version of the package where its first number is
/// at most one below that of the current version, and not zero; a current version
/// below one takes any.
pub proof fn law_first_numbers_are_near(
    c: Seq<char>,
    t: Seq<char>,
    x: Seq<char>,
    y: Seq<char>,
)
    requires
        c.len() > 0,
        t.len() > 0,
        text::all_in(c, Class::Digit),
        text::all_in(t, Class::Digit),
        text::digits_value(c) <= u64::MAX,
        text::digits_value(t) <= u64::MAX,
        x.len() == 0 || !text::is_digit(x[0]),
        y.len() == 0 || !text::is_digit(y[0]),
    ensures
        text::digits_value(c) == 0 ==> forges::near_major(c + x, t + y),
        text::digits_value(c) > 0 ==> (forges::near_major(c + x, t + y) <==> text::digits_value(t)
            > 0 && text::digits_value(t) >= text::digits_value(c) - 1),
{
    lemma_major(c, x);
    lemma_major(t, y);
}

/// Of the tags on GitLab that are near the current version, pre-releases left out
/// unless they count, the one of the highest version is taken.
pub proof fn law_highest_gitlab_tag_is_taken(
    parsed: &ParsedMakefile,
    all: &Vec<GitLabTag>,
    template: &TagTemplate,
    host: &str,
    owner: &str,
    repo: &str,
    prereleases: bool,
    k: int,
    r: UpstreamInfo,
)
    requires
        call_ensures(
            forges::from_gitlab_tags,
            (parsed, all, template, host, owner, repo, prereleases),
            r,
        ),
        0 <= k < all@.len(),
        prereleases || !version::is_prerelease(all@[k].name@),
        forges::near_major(parsed.in_effect(), tags::tag_version(all@[k].name@, template@)),
        forall|i: int|
            0 <= i < all@.len() ==> version::is_plain_version(
                tags::tag_version((#[trigger] all@[i]).name@, template@),
            ),
    ensures
        exists|i: int|
            {
                let v = tags::tag_version((#[trigger] all@[i]).name@, template@);
                &&& 0 <= i < all@.len()
                &&& prereleases || !version::is_prerelease(all@[i].name@)
                &&& forges::near_major(parsed.in_effect(), v)
                &&& laws_of_answers::finds(r@, *parsed, v)
                &&& r@.latest_tag == Some(all@[i].name@)
                &&& r@.latest_commit == Some(text::byte_prefix(all@[i].commit_id@, 8))
                &&& !laws_of_versions::is_below(v, tags::tag_version(all@[k].name@, template@))
            },
        r@.write_pkg_version is None,
        r@.source_backend == "gitlab("@ + host@ + ")"@,
        r@.upstream_url == Some("https://"@ + host@ + "/"@ + owner@ + "/"@ + repo@),
{
    let c = forges::gitlab_candidates(all@, template@, parsed.in_effect(), prereleases);
    assert forall|i: int| 0 <= i < c.len() && #[trigger] c[i] is Some implies
        version::is_plain_version(c[i]->0) by {
        assert(version::is_plain_version(tags::tag_version(all@[i].name@, template@)));
    }
    assert(c[k] is Some);
    laws_of_answers::law_newest_is_highest(c);
    let b = tags::newest(c)->0;
    assert(c[b] is Some);
    assert(all@[b].name@ == all@[b].name@);
}

/// Without a tag near the current version there is no result.
pub proof fn law_no_gitlab_tag(
    parsed: &ParsedMakefile,
    all: &Vec<GitLabTag>,
    template: &TagTemplate,
    host: &str,
    owner: &str,
    repo: &str,
    prereleases: bool,
    r: UpstreamInfo,
)
    requires
        call_ensures(
            forges::from_gitlab_tags,
            (parsed, all, template, host, owner, repo, prereleases),
            r,
        ),
        forall|i: int|
            0 <= i < all@.len() ==> (!prereleases && version::is_prerelease(
                (#[trigger] all@[i]).name@,
            )) || !forges::near_major(
                parsed.in_effect(),
                tags::tag_version(all@[i].name@, template@),
            ),
    ensures
        laws_of_answers::finds_none(r@, *parsed, "no stable gitlab tags"@),
{
    let c = forges::gitlab_candidates(all@, template@, parsed.in_effect(), prereleases);
    tags::lemma_newest(c);
    if let Some(b) = tags::newest(c) {
        assert(c[b] is Some);
        assert(all@[b].name@ == all@[b].name@);
    }
}

proof fn lemma_first_name(names: Seq<Seq<char>>, prereleases: bool, k: int)
    requires
        0 <= k <= names.len(),
        k < names.len() ==> prereleases || !version::is_prerelease(names[k]),
        forall|i: int| 0 <= i < k ==> !prereleases && version::is_prerelease(#[trigger] names[i]),
    ensures
        forges::first_name(names, prereleases) == (if k < names.len() {
            Some(names[k])
        } else {
            None
        }),
    decreases k,
{
    if k > 0 {
        assert(version::is_prerelease(names[0]));
        let rest = names.skip(1);
        assert forall|i: int| 0 <= i < k - 1 implies !prereleases && version::is_prerelease(
            #[trigger] rest[i],
        ) by {
            assert(rest[i] == names[i + 1]);
        }
        lemma_first_name(rest, prereleases, k - 1);
    }
}

/// The first tag on BitBucket or Gitea that is no pre-release, or the first where
/// those count, is taken; only BitBucket's version is written.
pub proof fn law_first_tag_is_taken(
    parsed: &ParsedMakefile,
    names: &Vec<String>,
    template: &TagTemplate,
    host: &str,
    owner: &str,
    repo: &str,
    prereleases: bool,
    k: int,
    r: UpstreamInfo,
    s: UpstreamInfo,
)
    requires
        call_ensures(
            forges::from_bitbucket_tags,
            (parsed, names, template, owner, repo, prereleases),
            r,
        ),
        call_ensures(
            forges::from_gitea_tags,
            (parsed, names, template, host, owner, repo, prereleases),
            s,
        ),
        0 <= k <= names@.len(),
        k < names@.len() ==> prereleases || !version::is_prerelease(names@[k]@),
        forall|i: int|
            0 <= i < k ==> !prereleases && version::is_prerelease(#[trigger] names@[i]@),
    ensures
        k < names@.len() ==> {
            let v = tags::tag_version(names@[k]@, template@);
            &&& laws_of_answers::finds(r@, *parsed, v)
            &&& laws_of_answers::finds(s@, *parsed, v)
            &&& r@.latest_tag == Some(names@[k]@)
            &&& s@.latest_tag == Some(names@[k]@)
            &&& r@.write_pkg_version == Some(v)
            &&& s@.write_pkg_version is None
        },
        k == names@.len() ==> laws_of_answers::finds_none(
            r@,
            *parsed,
            "no stable bitbucket tags"@,
        ) && laws_of_answers::finds_none(s@, *parsed, "no stable gitea tags"@),
{
    let all = text::texts(names@);
    assert forall|i: int| 0 <= i < k implies !prereleases && version::is_prerelease(
        #[trigger] all[i],
    ) by {
        assert(all[i] == names@[i]@);
    }
    lemma_first_name(all, prereleases, k);
}

/// Of cgit's tags those that are versions, with or without a `v`, count, pre-releases
/// left out unless they do; the highest is taken.
pub proof fn law_highest_cgit_tag_is_taken(
    parsed: &ParsedMakefile,
    names: &Vec<String>,
    repo_url: &str,
    prereleases: bool,
    k: int,
    v: Seq<char>,
    r: Option<UpstreamInfo>,
)
    requires
        call_ensures(forges::from_cgit_tags, (parsed, names, repo_url, prereleases), r),
        0 <= k < names@.len(),
        v.len() > 0,
        text::is_digit(v[0]),
        names@[k]@ == v || names@[k]@ == seq!['v'] + v,
        prereleases || !version::is_prerelease(names@[k]@),
        forall|i: int|
            0 <= i < names@.len() && text::starts_in(
                text::trim_start_of(#[trigger] names@[i]@, Class::Is('v')),
                Class::Digit,
            ) ==> version::is_plain_version(text::trim_start_of(names@[i]@, Class::Is('v'))),
    ensures
        r is Some,
        exists|i: int|
            {
                let t = text::trim_start_of(#[trigger] names@[i]@, Class::Is('v'));
                &&& 0 <= i < names@.len()
                &&& prereleases || !version::is_prerelease(names@[i]@)
                &&& r->0@.latest_tag == Some(names@[i]@)
                &&& laws_of_answers::finds(r->0@, *parsed, t)
                &&& !laws_of_versions::is_below(t, v)
            },
{
    lemma_stripped(v, 'v');
    let all = text::texts(names@);
    let c = forges::cgit_candidates(all, prereleases);
    assert forall|i: int| 0 <= i < c.len() && #[trigger] c[i] is Some implies
        version::is_plain_version(c[i]->0) by {
        assert(all[i] == names@[i]@);
    }
    assert(all[k] == names@[k]@);
    assert(c[k] == Some(v));
    laws_of_answers::law_newest_is_highest(c);
    let b = tags::newest(c)->0;
    assert(c[b] is Some);
    assert(all[b] == names@[b]@);
}

} // verus!

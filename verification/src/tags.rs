//! Tags of repositories: the versions that they stand for, and which is best.

use crate::makefile_parser;
use crate::makefile_parser::{TagForm, TagTemplate};
use crate::text;
use crate::text::Class;
use crate::version;
use vstd::prelude::*;

verus! {

/// The commit of a tag.
#[derive(Debug, Clone)]
pub struct GithubTagCommit {
    pub sha: String,
}

/// A tag of a repository.
#[derive(Debug, Clone)]
pub struct GithubTag {
    pub name: String,
    pub commit: GithubTagCommit,
}

// ───────────────────────────── versions out of tags ──────────────────────────

/// What a tag leads to from its first digit on, or the whole of it.
pub open spec fn from_first_digit(s: Seq<char>) -> Seq<char> {
    let n = text::span(s, Class::NotDigit) as int;
    if n < s.len() {
        s.skip(n)
    } else {
        s
    }
}

/// The ASCII digits of a text.
pub open spec fn digits_of(s: Seq<char>) -> Seq<char>
    decreases s.len(),
{
    if s.len() == 0 {
        Seq::empty()
    } else if text::is_digit(s.last()) {
        digits_of(s.drop_last()).push(s.last())
    } else {
        digits_of(s.drop_last())
    }
}

/// A text without a prefix, if it has it.
pub open spec fn without_prefix(s: Seq<char>, p: Seq<char>) -> Seq<char> {
    if p.is_prefix_of(s) {
        s.skip(p.len() as int)
    } else {
        s
    }
}

/// A text without a suffix, if it has it.
pub open spec fn without_suffix(s: Seq<char>, p: Seq<char>) -> Seq<char> {
    if p.is_suffix_of(s) {
        s.take(s.len() - p.len())
    } else {
        s
    }
}

/// A date of eight or six digits with its dots put back.
pub open spec fn redotted(v: Seq<char>) -> Seq<char> {
    let d = digits_of(v);
    if d.len() == 8 {
        d.take(4) + "."@ + d.subrange(4, 6) + "."@ + d.skip(6)
    } else if d.len() == 6 {
        d.take(4) + "."@ + d.skip(4)
    } else {
        v
    }
}

/// The version that a tag stands for.  A tag that a template could not have made
/// stands for none.
pub open spec fn tag_version(tag: Seq<char>, form: TagForm) -> Seq<char> {
    let mark = makefile_parser::VERSION_MARK@;
    let nodot = makefile_parser::NODOT_MARK@;
    match form {
        TagForm::WithV => from_first_digit(text::trim_start_of(tag, Class::Is('v'))),
        TagForm::Plain => from_first_digit(tag),
        TagForm::Custom(p) => if text::contains(p, nodot) {
            redotted(
                without_suffix(
                    without_prefix(tag, text::before(p, nodot)),
                    text::between(p, nodot),
                ),
            )
        } else if !text::before(p, mark).is_prefix_of(tag) {
            Seq::empty()
        } else {
            let rest = tag.skip(text::before(p, mark).len() as int);
            if !text::between(p, mark).is_suffix_of(rest) {
                Seq::empty()
            } else {
                let v = text::trim_start_of(
                    without_suffix(rest, text::between(p, mark)),
                    Class::Is('v'),
                );
                if text::contains(v, "_"@) && !text::contains(v, "."@) {
                    text::replace(v, "_"@, "."@)
                } else {
                    v
                }
            }
        },
    }
}

/// What a tag leads to from its first digit on, or the whole of it.
fn strip_tag_prefix(s: &str) -> (r: String)
    ensures
        r@ == from_first_digit(s@),
{
    match text::find_class(s, Class::Digit, Class::NotDigit) {
        Some(n) => text::skip(s, n),
        None => text::own(s),
    }
}

/// The ASCII digits of a text.
fn only_digits(s: &str) -> (r: String)
    ensures
        r@ == digits_of(s@),
{
    let x = text::to_chars(s);
    let mut out = text::empty();
    for i in 0..x.len()
        invariant
            out@ == digits_of(x@.take(i as int)),
    {
        proof {
            assert(x@.take(i + 1).drop_last() =~= x@.take(i as int));
        }
        if text::digit(x[i]) {
            out.push(x[i]);
        }
    }
    assert(x@.take(x@.len() as int) =~= x@);
    out
}

/// A text without a prefix, if it has it.
fn drop_prefix(s: &str, p: &str) -> (r: String)
    ensures
        r@ == without_prefix(s@, p@),
{
    match text::strip_prefix(s, p) {
        Some(rest) => rest,
        None => text::own(s),
    }
}

/// A text without a suffix, if it has it.
fn drop_suffix(s: &str, p: &str) -> (r: String)
    ensures
        r@ == without_suffix(s@, p@),
{
    if text::ends_with(s, p) {
        text::take(s, text::length(s) - text::length(p))
    } else {
        text::own(s)
    }
}

/// A date of eight or six digits with its dots put back.
fn put_dots_back(v: &str) -> (r: String)
    ensures
        r@ == redotted(v@),
{
    let d = only_digits(v);
    let n = text::length(&d);
    if n == 8 {
        let mut out = text::concat3(&text::take(&d, 4), ".", &text::slice(&d, 4, 6));
        out.append(".");
        out.append(text::skip(&d, 6).as_str());
        out
    } else if n == 6 {
        text::concat3(&text::take(&d, 4), ".", &text::skip(&d, 4))
    } else {
        text::own(v)
    }
}

/// The version that a tag stands for.
pub fn extract_version_from_tag(tag: &str, template: &TagTemplate) -> (r: String)
    ensures
        r@ == tag_version(tag@, template@),
{
    match template {
        TagTemplate::WithV => strip_tag_prefix(&text::strip_start(tag, Class::Is('v'))),
        TagTemplate::Plain => strip_tag_prefix(tag),
        TagTemplate::Custom(p) => {
            if text::has(p, makefile_parser::NODOT_MARK) {
                let front = text::text_before(p, makefile_parser::NODOT_MARK);
                let back = text::text_between(p, makefile_parser::NODOT_MARK);
                let v = drop_suffix(&drop_prefix(tag, &front), &back);
                return put_dots_back(&v);
            }
            let front = text::text_before(p, makefile_parser::VERSION_MARK);
            let back = text::text_between(p, makefile_parser::VERSION_MARK);
            let rest = match text::strip_prefix(tag, &front) {
                Some(rest) => rest,
                None => {
                    return text::empty();
                },
            };
            if !text::ends_with(&rest, &back) {
                return text::empty();
            }
            let v = text::strip_start(&drop_suffix(&rest, &back), Class::Is('v'));
            if text::has(&v, "_") && !text::has(&v, ".") {
                text::replaced(&v, "_", ".")
            } else {
                v
            }
        },
    }
}

/// What a tag writes to PKG_VERSION: the version; where the template has a
/// textual prefix, with dots in place of dashes.
pub open spec fn written_version(version: Seq<char>, form: TagForm) -> Seq<char> {
    if has_text_prefix(form) {
        text::replace(version, "-"@, "."@)
    } else {
        version
    }
}

/// What a tag writes to PKG_SOURCE_VERSION: where the template has a textual
/// prefix, the tag itself.
pub open spec fn written_source(tag: Seq<char>, form: TagForm) -> Option<Seq<char>> {
    if has_text_prefix(form) {
        Some(tag)
    } else {
        None
    }
}

/// Whether a letter stands before the placeholder of a template.
pub open spec fn has_text_prefix(form: TagForm) -> bool {
    match form {
        TagForm::Custom(p) => text::any_in(
            text::before(p, makefile_parser::VERSION_MARK@),
            Class::Letter,
        ),
        _ => false,
    }
}

/// What a tag writes to PKG_VERSION and to PKG_SOURCE_VERSION.
pub fn tag_write_fields(tag_name: &str, version: &str, template: &TagTemplate) -> (r: (
    String,
    Option<String>,
))
    ensures
        r.0@ == written_version(version@, template@),
        text::opt_text(r.1) == written_source(tag_name@, template@),
{
    if let TagTemplate::Custom(p) = template {
        let front = text::text_before(p, makefile_parser::VERSION_MARK);
        if let Some(_) = text::find_class(&front, Class::Letter, Class::NotLetter) {
            return (text::replaced(version, "-", "."), Some(text::own(tag_name)));
        }
    }
    (text::own(version), None)
}

/// The version that a tag with a path prefix stands for.
pub open spec fn prefixed_version(tag: Seq<char>, prefix: Seq<char>) -> Seq<char> {
    let k = Class::Either('v', 'V');
    let bare = text::trim_end_matches(text::trim_end_matches(prefix, "/"@), "-"@);
    let rest = tag.skip(bare.len() as int);
    if prefix.len() == 0 {
        text::trim_start_of(tag, k)
    } else if (prefix + "/"@).is_prefix_of(tag) {
        text::trim_start_of(tag.skip((prefix + "/"@).len() as int), k)
    } else if (prefix + "-"@).is_prefix_of(tag) {
        text::trim_start_of(tag.skip((prefix + "-"@).len() as int), k)
    } else if bare.len() > 0 && bare.is_prefix_of(tag) && text::starts_in(rest, Class::Digit) {
        rest
    } else {
        text::trim_start_of(tag, k)
    }
}

/// The version that a tag with a path prefix stands for.
pub fn extract_version_from_prefixed_tag(tag: &str, prefix: &str) -> (r: String)
    ensures
        r@ == prefixed_version(tag@, prefix@),
{
    let k = Class::Either('v', 'V');
    if text::length(prefix) == 0 {
        return text::strip_start(tag, k);
    }
    if let Some(rest) = text::strip_prefix(tag, &text::concat(prefix, "/")) {
        return text::strip_start(&rest, k);
    }
    if let Some(rest) = text::strip_prefix(tag, &text::concat(prefix, "-")) {
        return text::strip_start(&rest, k);
    }
    let bare = text::strip_end_matches(&text::strip_end_matches(prefix, "/"), "-");
    if text::length(&bare) > 0 {
        if let Some(rest) = text::strip_prefix(tag, &bare) {
            if text::first_in(&rest, Class::Digit) {
                return rest;
            }
        }
    }
    text::strip_start(tag, k)
}

// ──────────────────────────────── the best of many ───────────────────────────

/// The texts of some optional strings.
pub open spec fn opt_texts(v: Seq<Option<String>>) -> Seq<Option<Seq<char>>> {
    Seq::new(v.len(), |i: int| text::opt_text(v[i]))
}

/// The position of the newest of some candidates, of the first one among equals.
pub open spec fn newest(c: Seq<Option<Seq<char>>>) -> Option<int>
    decreases c.len(),
{
    if c.len() == 0 {
        None
    } else {
        let best = newest(c.drop_last());
        match (c.last(), best) {
            (None, _) => best,
            (Some(v), None) => Some(c.len() - 1),
            (Some(v), Some(b)) => if version::version_sign(v, c[b]->0) > 0 {
                Some(c.len() - 1)
            } else {
                best
            },
        }
    }
}

/// The position of the newest of some candidates, of the last one among equals.
pub open spec fn newest_last(c: Seq<Option<Seq<char>>>) -> Option<int>
    decreases c.len(),
{
    if c.len() == 0 {
        None
    } else {
        let best = newest_last(c.drop_last());
        match (c.last(), best) {
            (None, _) => best,
            (Some(v), None) => Some(c.len() - 1),
            (Some(v), Some(b)) => if version::version_sign(v, c[b]->0) >= 0 {
                Some(c.len() - 1)
            } else {
                best
            },
        }
    }
}

/// The newest of some candidates is one of them.
pub proof fn lemma_newest(c: Seq<Option<Seq<char>>>)
    ensures
        newest(c) matches Some(i) ==> 0 <= i < c.len() && c[i] is Some,
        newest(c) is None ==> forall|i: int| 0 <= i < c.len() ==> #[trigger] c[i] is None,
        newest_last(c) matches Some(i) ==> 0 <= i < c.len() && c[i] is Some,
        newest_last(c) is None ==> forall|i: int| 0 <= i < c.len() ==> #[trigger] c[i] is None,
    decreases c.len(),
{
    if c.len() > 0 {
        let front = c.drop_last();
        lemma_newest(front);
        assert forall|i: int| 0 <= i < c.len() - 1 implies #[trigger] c[i] == front[i] by {}
    }
}

/// The position of the newest of some candidates, of the first one among equals.
pub fn newest_of(c: &Vec<Option<String>>) -> (r: Option<usize>)
    ensures
        match r {
            Some(i) => newest(opt_texts(c@)) == Some(i as int) && i < c@.len()
                && c@[i as int] is Some,
            None => newest(opt_texts(c@)) is None,
        },
{
    let ghost all = opt_texts(c@);
    let mut best: Option<usize> = None;
    for i in 0..c.len()
        invariant
            all == opt_texts(c@),
            match best {
                Some(b) => newest(all.take(i as int)) == Some(b as int) && b < i && c@[b as int] is Some,
                None => newest(all.take(i as int)) is None,
            },
    {
        proof {
            assert(all.take(i + 1).drop_last() =~= all.take(i as int));
        }
        if let Some(v) = &c[i] {
            best = match best {
                Some(b) => {
                    let mut next = b;
                    if let Some(w) = &c[b] {
                        if version::version_order(v, w) > 0 {
                            next = i;
                        }
                    }
                    Some(next)
                },
                None => Some(i),
            };
        }
    }
    assert(all.take(c@.len() as int) =~= all);
    best
}

/// The position of the newest of some candidates, of the last one among equals.
pub fn newest_last_of(c: &Vec<Option<String>>) -> (r: Option<usize>)
    ensures
        match r {
            Some(i) => newest_last(opt_texts(c@)) == Some(i as int) && i < c@.len()
                && c@[i as int] is Some,
            None => newest_last(opt_texts(c@)) is None,
        },
{
    let ghost all = opt_texts(c@);
    let mut best: Option<usize> = None;
    for i in 0..c.len()
        invariant
            all == opt_texts(c@),
            match best {
                Some(b) => newest_last(all.take(i as int)) == Some(b as int) && b < i
                    && c@[b as int] is Some,
                None => newest_last(all.take(i as int)) is None,
            },
    {
        proof {
            assert(all.take(i + 1).drop_last() =~= all.take(i as int));
        }
        if let Some(v) = &c[i] {
            best = match best {
                Some(b) => {
                    let mut next = b;
                    if let Some(w) = &c[b] {
                        if version::version_order(v, w) >= 0 {
                            next = i;
                        }
                    }
                    Some(next)
                },
                None => Some(i),
            };
        }
    }
    assert(all.take(c@.len() as int) =~= all);
    best
}

/// The version for which a tag is a candidate: none where what the tag stands
/// for does not start with a digit.
pub open spec fn candidate(name: Seq<char>, form: TagForm) -> Option<Seq<char>> {
    let v = text::trim_start_of(tag_version(name, form), Class::Either('v', 'V'));
    if text::starts_in(v, Class::Digit) {
        Some(v)
    } else {
        None
    }
}

/// The candidates among some tags.
pub open spec fn candidates(tags: Seq<GithubTag>, form: TagForm) -> Seq<Option<Seq<char>>> {
    Seq::new(tags.len(), |i: int| candidate(tags[i].name@, form))
}

/// The version for which a tag is a candidate.
fn as_candidate(name: &str, template: &TagTemplate) -> (r: Option<String>)
    ensures
        text::opt_text(r) == candidate(name@, template@),
{
    let v = text::strip_start(&extract_version_from_tag(name, template), Class::Either('v', 'V'));
    if text::first_in(&v, Class::Digit) {
        Some(v)
    } else {
        None
    }
}

/// The tag that stands for the newest version, and that version.
pub fn find_best_tag<'a>(
    tags: &'a Vec<GithubTag>,
    template: &TagTemplate,
    _current_version: &str,
) -> (r: Option<(&'a GithubTag, String)>)
    ensures
        match r {
            Some((tag, v)) => newest(candidates(tags@, template@)) matches Some(i) && 0 <= i
                < tags@.len() && *tag == tags@[i] && Some(v@) == candidate(
                tags@[i].name@,
                template@,
            ),
            None => newest(candidates(tags@, template@)) is None,
        },
{
    let mut c: Vec<Option<String>> = Vec::new();
    for i in 0..tags.len()
        invariant
            c@.len() == i,
            forall|j: int|
                0 <= j < i ==> text::opt_text(#[trigger] c@[j]) == candidate(
                    tags@[j].name@,
                    template@,
                ),
    {
        c.push(as_candidate(tags[i].name.as_str(), template));
    }
    assert(opt_texts(c@) =~= candidates(tags@, template@));
    match newest_of(&c) {
        Some(i) => match &c[i] {
            Some(v) => Some((&tags[i], v.clone())),
            None => None,
        },
        None => None,
    }
}

/// The tags that come into question.
pub open spec fn considered(tags: Seq<GithubTag>, prereleases: bool) -> Seq<GithubTag>
    decreases tags.len(),
{
    if tags.len() == 0 {
        Seq::empty()
    } else if version::is_left_out(tags.last().name@, prereleases) {
        considered(tags.drop_last(), prereleases)
    } else {
        considered(tags.drop_last(), prereleases).push(tags.last())
    }
}

/// A copy of a tag.
pub fn copy_tag(t: &GithubTag) -> (r: GithubTag)
    ensures
        r == *t,
{
    GithubTag {
        name: t.name.clone(),
        commit: GithubTagCommit { sha: t.commit.sha.clone() },
    }
}

/// The tags that come into question: those that name no pre-release, or all.
pub fn considered_tags(tags: &Vec<GithubTag>, prereleases: bool) -> (r: Vec<GithubTag>)
    ensures
        r@ == considered(tags@, prereleases),
{
    let mut out: Vec<GithubTag> = Vec::new();
    for i in 0..tags.len()
        invariant
            out@ == considered(tags@.take(i as int), prereleases),
    {
        proof {
            assert(tags@.take(i + 1).drop_last() =~= tags@.take(i as int));
        }
        if !version::left_out(tags[i].name.as_str(), prereleases) {
            out.push(copy_tag(&tags[i]));
        }
    }
    assert(tags@.take(tags@.len() as int) =~= tags@);
    out
}

// ──────────────────────────────────── laws ───────────────────────────────────

/// What a tag leads to is the end of it that starts with its first digit, or the
/// whole of it if it has none; it leads to itself.
pub proof fn law_first_digit_on(s: Seq<char>)
    ensures
        ({
            let r = from_first_digit(s);
            &&& r.is_suffix_of(s)
            &&& text::any_in(s, Class::Digit) ==> text::starts_in(r, Class::Digit) && forall|i: int|
                0 <= i < s.len() - r.len() ==> !text::is_digit(#[trigger] s[i])
            &&& !text::any_in(s, Class::Digit) ==> r == s
            &&& from_first_digit(r) == r
        }),
{
    let n = text::span(s, Class::NotDigit) as int;
    let r = from_first_digit(s);
    text::lemma_span(s, Class::NotDigit);
    if n < s.len() {
        assert(r[0] == s[n]);
        assert(Class::Digit.has(s[n]));
        assert(s.subrange(n, s.len() as int) =~= r);
        text::lemma_span_is(r, Class::NotDigit, 0);
        assert(r.skip(0) =~= r);
    } else {
        assert(s.subrange(0, s.len() as int) =~= s);
        assert forall|i: int| 0 <= i < s.len() implies !Class::Digit.has(#[trigger] s[i]) by {
            assert(Class::NotDigit.has(s[i]));
        }
    }
}

/// Whether the order of versions is transitive among some candidates.
pub open spec fn is_transitive(c: Seq<Option<Seq<char>>>) -> bool {
    forall|i: int, j: int, k: int|
        #![trigger c[i], c[j], c[k]]
        0 <= i < c.len() && 0 <= j < c.len() && 0 <= k < c.len() && c[i] is Some && c[j] is Some
            && c[k] is Some && version::version_sign(c[i]->0, c[j]->0) >= 0
            && version::version_sign(c[j]->0, c[k]->0) >= 0 ==> version::version_sign(
            c[i]->0,
            c[k]->0,
        ) >= 0
}

/// Whether no candidate is newer than the one at a position, and each before it
/// is older.
pub open spec fn is_first_newest(c: Seq<Option<Seq<char>>>, b: int) -> bool {
    &&& 0 <= b < c.len()
    &&& c[b] is Some
    &&& forall|i: int|
        0 <= i < c.len() && #[trigger] c[i] is Some ==> version::version_sign(c[b]->0, c[i]->0) >= 0
    &&& forall|i: int|
        0 <= i < b && #[trigger] c[i] is Some ==> version::version_sign(c[b]->0, c[i]->0) > 0
}

#[verifier::rlimit(60)]
proof fn lemma_newest_is_newest(c: Seq<Option<Seq<char>>>)
    requires
        is_transitive(c),
    ensures
        newest(c) matches Some(b) ==> is_first_newest(c, b),
    decreases c.len(),
{
    if c.len() > 0 {
        let front = c.drop_last();
        let n = c.len() - 1;
        lemma_newest(front);
        lemma_newest(c);
        assert forall|i: int| 0 <= i < n implies #[trigger] front[i] == c[i] by {}
        assert(is_transitive(front)) by {
            assert forall|i: int, j: int, k: int|
                #![trigger front[i], front[j], front[k]]
                0 <= i < n && 0 <= j < n && 0 <= k < n && front[i] is Some && front[j] is Some
                    && front[k] is Some && version::version_sign(front[i]->0, front[j]->0) >= 0
                    && version::version_sign(front[j]->0, front[k]->0) >= 0 implies
                version::version_sign(front[i]->0, front[k]->0) >= 0 by {
                assert(front[i] == c[i] && front[j] == c[j] && front[k] == c[k]);
            }
        }
        lemma_newest_is_newest(front);
        if newest(c) is Some {
            let b = newest(c)->0;
            let was = newest(front);
            if b == n && c[n] is Some {
                version::law_order_is_symmetric(c[n]->0, c[n]->0);
                assert forall|i: int| 0 <= i < n && #[trigger] c[i] is Some implies
                    version::version_sign(c[n]->0, c[i]->0) > 0 by {
                    assert(front[i] is Some);
                    let w = was->0;
                    assert(front[w] == c[w]);
                    version::law_order_is_symmetric(c[n]->0, c[w]->0);
                    version::law_order_is_symmetric(c[n]->0, c[i]->0);
                    assert(version::version_sign(front[w]->0, front[i]->0) >= 0);
                    if version::version_sign(c[n]->0, c[i]->0) <= 0 {
                        assert(version::version_sign(c[w]->0, c[i]->0) >= 0);
                        assert(version::version_sign(c[i]->0, c[n]->0) >= 0);
                        assert(version::version_sign(c[w]->0, c[n]->0) >= 0);
                    }
                }
            } else {
                assert forall|i: int| 0 <= i < c.len() && #[trigger] c[i] is Some implies
                    version::version_sign(c[b]->0, c[i]->0) >= 0 by {
                    if i < n {
                        assert(front[i] is Some);
                        assert(front[b] == c[b]);
                    } else {
                        version::law_order_is_symmetric(c[n]->0, c[b]->0);
                    }
                }
                assert forall|i: int| 0 <= i < b && #[trigger] c[i] is Some implies
                    version::version_sign(c[b]->0, c[i]->0) > 0 by {
                    assert(front[i] is Some);
                    assert(front[b] == c[b]);
                }
            }
        }
    }
}

/// The newest of some candidates among which the order of versions is transitive
/// is not older than any, and newer than each before it; there is one where there
/// is a candidate.
pub proof fn law_newest_is_newest(c: Seq<Option<Seq<char>>>)
    requires
        is_transitive(c),
    ensures
        match newest(c) {
            Some(b) => is_first_newest(c, b),
            None => forall|i: int| 0 <= i < c.len() ==> #[trigger] c[i] is None,
        },
{
    lemma_newest_is_newest(c);
    lemma_newest(c);
}

/// The newest of some versions of plain numbers is the one with the greatest
/// numbers, and the first one that has them.
pub proof fn law_newest_has_greatest_numbers(c: Seq<Option<Seq<char>>>)
    requires
        forall|i: int|
            0 <= i < c.len() && #[trigger] c[i] is Some ==> version::is_plain_version(c[i]->0),
    ensures
        match newest(c) {
            Some(b) => is_first_newest(c, b) && forall|i: int|
                0 <= i < c.len() && #[trigger] c[i] is Some ==> version::numbers_sign(
                    c[b]->0,
                    c[i]->0,
                ) >= (if i < b {
                    1int
                } else {
                    0int
                }),
            None => forall|i: int| 0 <= i < c.len() ==> #[trigger] c[i] is None,
        },
{
    assert forall|i: int, j: int, k: int|
        #![trigger c[i], c[j], c[k]]
        0 <= i < c.len() && 0 <= j < c.len() && 0 <= k < c.len() && c[i] is Some && c[j] is Some
            && c[k] is Some && version::version_sign(c[i]->0, c[j]->0) >= 0
            && version::version_sign(c[j]->0, c[k]->0) >= 0 implies version::version_sign(
        c[i]->0,
        c[k]->0,
    ) >= 0 by {
        version::law_numbers_decide(c[i]->0, c[j]->0);
        version::law_numbers_decide(c[j]->0, c[k]->0);
        version::law_numbers_decide(c[i]->0, c[k]->0);
        version::law_numbers_are_ordered(c[i]->0, c[j]->0, c[k]->0);
    }
    law_newest_is_newest(c);
    if let Some(b) = newest(c) {
        assert forall|i: int| 0 <= i < c.len() && #[trigger] c[i] is Some implies
            version::numbers_sign(c[b]->0, c[i]->0) >= (if i < b {
            1int
        } else {
            0int
        }) by {
            version::law_numbers_decide(c[b]->0, c[i]->0);
        }
    }
}

/// The tag that a template makes from a version.
pub open spec fn made_tag(form: TagForm, version: Seq<char>) -> Seq<char> {
    let mark = makefile_parser::VERSION_MARK@;
    match form {
        TagForm::WithV => "v"@ + version,
        TagForm::Plain => version,
        TagForm::Custom(p) => text::before(p, mark) + version + text::between(p, mark),
    }
}

/// The placeholders start with `$`, and neither holds the other.
proof fn lemma_marks()
    ensures
        makefile_parser::VERSION_MARK@.len() == 10,
        makefile_parser::VERSION_MARK@[0] == '$',
        makefile_parser::VERSION_MARK@[9] == '}',
        forall|i: int|
            0 < i < 10 ==> #[trigger] makefile_parser::VERSION_MARK@[i] != '$',
        makefile_parser::NODOT_MARK@.len() == 16,
        makefile_parser::NODOT_MARK@[0] == '$',
        makefile_parser::NODOT_MARK@[9] == '_',
{
    reveal_strlit("${VERSION}");
    reveal_strlit("${VERSION_NODOT}");
}

/// A placeholder between texts without `$` is the only one.
pub proof fn lemma_one_mark(front: Seq<char>, back: Seq<char>)
    requires
        text::all_in(front, Class::Not('$')),
        text::all_in(back, Class::Not('$')),
    ensures
        ({
            let p = front + makefile_parser::VERSION_MARK@ + back;
            &&& text::before(p, makefile_parser::VERSION_MARK@) == front
            &&& text::between(p, makefile_parser::VERSION_MARK@) == back
            &&& !text::contains(p, makefile_parser::NODOT_MARK@)
        }),
{
    let mark = makefile_parser::VERSION_MARK@;
    let nodot = makefile_parser::NODOT_MARK@;
    let p = front + mark + back;
    let n = front.len() as int;
    lemma_marks();
    assert forall|i: int| 0 <= i < p.len() && i != n implies #[trigger] p[i] != '$' by {
        if i < n {
            assert(p[i] == front[i]);
        } else if i < n + 10 {
            assert(p[i] == mark[i - n]);
        } else {
            assert(p[i] == back[i - n - 10]);
        }
    }
    assert(p.subrange(n, n + 10) =~= mark);
    assert forall|j: int| 0 <= j < n implies !#[trigger] text::occurs_at(p, mark, j) by {
        if text::occurs_at(p, mark, j) {
            assert(p[j] == p.subrange(j, j + 10)[0]);
        }
    }
    text::lemma_find_is(p, mark, n);
    assert(p.take(n) =~= front);
    let rest = p.skip(n + 10);
    assert(rest =~= back);
    text::lemma_find(back, mark);
    if text::find(back, mark) is Some {
        let j = text::find(back, mark)->0;
        assert(back[j] == back.subrange(j, j + 10)[0]);
    }
    if text::contains(p, nodot) {
        let j = choose|j: int| text::occurs_at(p, nodot, j);
        assert(p[j] == p.subrange(j, j + 16)[0]);
        assert(p[j + 9] == p.subrange(j, j + 16)[9]);
        assert(j == n);
        assert(p[n + 9] == mark[9]);
    }
}

/// A tag that a template makes from a version stands for that version: a version
/// that starts with a digit and, where the template has a text round its
/// placeholder, one that has a dot or no underscore.
pub proof fn law_made_tag_stands_for_version(form: TagForm, version: Seq<char>)
    requires
        text::starts_in(version, Class::Digit),
        form matches TagForm::Custom(p) ==> (exists|front: Seq<char>, back: Seq<char>|
            p == #[trigger] (front + makefile_parser::VERSION_MARK@ + back) && text::all_in(
                front,
                Class::Not('$'),
            ) && text::all_in(back, Class::Not('$'))) && (text::contains(version, "."@)
            || !text::contains(version, "_"@)),
    ensures
        tag_version(made_tag(form, version), form) == version,
{
    assert(!Class::NotDigit.has(version[0]));
    text::lemma_span_is(version, Class::NotDigit, 0);
    text::lemma_span_is(version, Class::Is('v'), 0);
    assert(version.skip(0) =~= version);
    match form {
        TagForm::WithV => {
            reveal_strlit("v");
            let tag = "v"@ + version;
            assert(tag[0] == 'v');
            assert(tag[1] == version[0]);
            text::lemma_span_is(tag, Class::Is('v'), 1);
            assert(tag.skip(1) =~= version);
        },
        TagForm::Plain => {},
        TagForm::Custom(p) => {
            let (front, back) = choose|front: Seq<char>, back: Seq<char>|
                p == #[trigger] (front + makefile_parser::VERSION_MARK@ + back) && text::all_in(
                    front,
                    Class::Not('$'),
                ) && text::all_in(back, Class::Not('$'));
            lemma_one_mark(front, back);
            let tag = front + version + back;
            assert(tag.take(front.len() as int) =~= front);
            assert(front.is_prefix_of(tag));
            let rest = tag.skip(front.len() as int);
            assert(rest =~= version + back);
            assert(rest.subrange(rest.len() - back.len(), rest.len() as int) =~= back);
            assert(back.is_suffix_of(rest));
            assert(rest.take(rest.len() - back.len()) =~= version);
        },
    }
}

/// The template that is detected from a tag gives the version back: for a tag
/// that is the version, perhaps with a `v` before it.
pub proof fn law_detected_template_gives_version_back(tag: Seq<char>, version: Seq<char>)
    requires
        text::starts_in(version, Class::Digit),
        tag == version || tag == "v"@ + version,
    ensures
        tag_version(tag, makefile_parser::template_of(tag, version)) == version,
{
    law_made_tag_stands_for_version(TagForm::WithV, version);
    law_made_tag_stands_for_version(TagForm::Plain, version);
}

/// A version with underscores for its dots holds no dot, and gives the version
/// back when they are turned into dots.
proof fn lemma_underscored(version: Seq<char>)
    requires
        text::starts_in(version, Class::Digit),
        text::all_in(version, Class::DigitOrDot),
        text::contains(version, "."@),
    ensures
        ({
            let u = text::replace(version, "."@, "_"@);
            &&& u.len() == version.len()
            &&& u != version
            &&& u[0] == version[0]
            &&& text::contains(u, "_"@)
            &&& !text::contains(u, "."@)
            &&& text::replace(u, "_"@, "."@) == version
        }),
{
    reveal_strlit(".");
    reveal_strlit("_");
    assert("."@ =~= seq!['.']);
    assert("_"@ =~= seq!['_']);
    let u = text::replace(version, "."@, "_"@);
    text::lemma_replace_char(version, '.', '_');
    text::lemma_replace_char(u, '_', '.');
    let d = choose|i: int| text::occurs_at(version, "."@, i);
    assert(version[d] == version.subrange(d, d + 1)[0]);
    assert(version[d] == '.');
    assert(u[d] == '_');
    assert(u.subrange(d, d + 1) =~= "_"@);
    assert(text::occurs_at(u, "_"@, d));
    if text::contains(u, "."@) {
        let i = choose|i: int| text::occurs_at(u, "."@, i);
        assert(u[i] == u.subrange(i, i + 1)[0]);
    }
    assert forall|i: int| 0 <= i < version.len() implies #[trigger] version[i] == text::replace(
        u,
        "_"@,
        "."@,
    )[i] by {
        assert(Class::DigitOrDot.has(version[i]));
    }
    assert(text::replace(u, "_"@, "."@) =~= version);
}

/// A tag that ends in a version with underscores is made by the template of what
/// stands before it.
proof fn lemma_underscored_template(front: Seq<char>, version: Seq<char>, u: Seq<char>)
    requires
        u == text::replace(version, "."@, "_"@),
        u.len() == version.len(),
        u.len() > 0,
        u != version,
        text::all_in(front, Class::Not(u[0])),
    ensures
        makefile_parser::template_of(front + u, version) == TagForm::Custom(
            front + makefile_parser::VERSION_MARK@,
        ),
{
    let tag = front + u;
    reveal_strlit("v");
    assert(tag.skip(front.len() as int) =~= u);
    if tag == version {
        assert(front.len() == 0);
        assert(tag =~= u);
    }
    if tag == "v"@ + version {
        assert(front.len() == 1);
        assert(("v"@ + version).skip(1) =~= version);
    }
    assert(tag.subrange(front.len() as int, tag.len() as int) =~= u);
    assert(text::occurs_at(tag, u, front.len() as int));
    text::lemma_replace_end(front, u, makefile_parser::VERSION_MARK@);
}

/// The template that is detected from a tag that writes underscores for the dots of
/// a version of digits and dots, behind a text without digits, gives the version
/// back.
pub proof fn law_underscored_tag_gives_version_back(front: Seq<char>, version: Seq<char>)
    requires
        text::starts_in(version, Class::Digit),
        text::all_in(version, Class::DigitOrDot),
        text::contains(version, "."@),
        text::all_in(front, Class::NotDigit),
        text::all_in(front, Class::Not('$')),
    ensures
        ({
            let tag = front + text::replace(version, "."@, "_"@);
            tag_version(tag, makefile_parser::template_of(tag, version)) == version
        }),
{
    let mark = makefile_parser::VERSION_MARK@;
    let u = text::replace(version, "."@, "_"@);
    let tag = front + u;
    lemma_underscored(version);
    assert forall|i: int| 0 <= i < front.len() implies Class::Not(u[0]).has(
        #[trigger] front[i],
    ) by {
        assert(Class::NotDigit.has(front[i]));
    }
    lemma_underscored_template(front, version, u);
    assert(front + mark =~= front + mark + Seq::<char>::empty());
    lemma_one_mark(front, Seq::empty());
    assert(tag.take(front.len() as int) =~= front);
    assert(tag.skip(front.len() as int) =~= u);
    assert(u.subrange(u.len() as int, u.len() as int) =~= Seq::<char>::empty());
    assert(u.take(u.len() - 0) =~= u);
    text::lemma_span_is(u, Class::Is('v'), 0);
    assert(u.skip(0) =~= u);
}

/// The dots cannot be left out of a version, which starts and ends with digits,
/// without its digits coming together.
proof fn lemma_dotless_elsewhere(front: Seq<char>, version: Seq<char>)
    requires
        text::starts_in(version, Class::Digit),
        text::is_digit(version.last()),
        text::all_in(version, Class::DigitOrDot),
        text::contains(version, "."@),
        text::all_in(front, Class::NotDigit),
    ensures
        ({
            let dotless = text::replace(version, "."@, ""@);
            !text::contains(front + version, dotless)
        }),
{
    reveal_strlit(".");
    reveal_strlit("");
    let none = Seq::<char>::empty();
    assert("."@ =~= seq!['.']);
    assert(""@ =~= none);
    let d = text::replace(version, seq!['.'], none);
    let tag = front + version;
    if text::contains(tag, d) {
        let p = choose|p: int| text::occurs_at(tag, d, p);
        let at = choose|i: int| text::occurs_at(version, "."@, i);
        assert(version[at] == version.subrange(at, at + 1)[0]);
        assert(version[at] == '.');
        lemma_digits_only(version);
        assert(d.len() > 0) by {
            assert(version + none =~= version);
            text::lemma_leave_out(version, none, '.');
        }
        assert forall|j: int| p <= j < p + d.len() implies text::is_digit(#[trigger] tag[j]) by {
            assert(tag[j] == tag.subrange(p, p + d.len())[j - p]);
            assert(Class::Digit.has(d[j - p]));
        }
        let q = p - front.len();
        assert(q >= 0) by {
            if q < 0 {
                assert(tag[p] == front[p]);
                assert(Class::NotDigit.has(front[p]));
            }
        }
        let n = d.len() as int;
        let a = version.take(q);
        let w = version.subrange(q, q + n);
        let b = version.skip(q + n);
        assert forall|j: int| 0 <= j < w.len() implies Class::Not('.').has(#[trigger] w[j]) by {
            assert(w[j] == tag[p + j]);
        }
        assert(version =~= a + (w + b));
        text::lemma_leave_out(a, w + b, '.');
        text::lemma_leave_out(w, b, '.');
        if at < q {
            assert(a[0] == version[0]);
        } else {
            assert(at >= q + n) by {
                if at < q + n {
                    assert(tag[at + front.len()] == version[at]);
                }
            }
            let f = b.drop_last();
            let l = seq![b.last()];
            assert(b =~= f + l);
            assert(b.last() == version.last());
            text::lemma_leave_out(f, l, '.');
            assert(l + none =~= l);
            text::lemma_leave_out(l, none, '.');
        }
    }
}

/// A version without its dots is made of digits.
proof fn lemma_digits_only(version: Seq<char>)
    requires
        text::all_in(version, Class::DigitOrDot),
    ensures
        text::all_in(text::replace(version, seq!['.'], Seq::empty()), Class::Digit),
    decreases version.len(),
{
    let none = Seq::<char>::empty();
    let d = text::replace(version, seq!['.'], none);
    if version.len() > 0 {
        let rest = version.skip(1);
        assert forall|i: int| 0 <= i < rest.len() implies Class::DigitOrDot.has(
            #[trigger] rest[i],
        ) by {
            assert(rest[i] == version[i + 1]);
        }
        lemma_digits_only(rest);
        assert(Class::DigitOrDot.has(version[0]));
        assert(version.subrange(0, 1) =~= seq![version[0]]);
        assert(seq![version[0]][0] == version[0] && seq!['.'][0] == '.');
        let e = text::replace(rest, seq!['.'], none);
        if version[0] == '.' {
            assert(none + e =~= e);
        }
    }
}

/// A text without digits does not change the numbers behind it.
proof fn lemma_same_numbers(front: Seq<char>, version: Seq<char>)
    requires
        text::starts_in(version, Class::Digit),
        text::all_in(front, Class::NotDigit),
    ensures
        text::span(front + version, Class::NotDigit) == front.len(),
        text::digit_runs(front + version) == text::digit_runs(version),
        text::digit_runs(version).len() > 0,
{
    let tag = front + version;
    let n = front.len() as int;
    assert forall|j: int| 0 <= j < n implies Class::NotDigit.has(#[trigger] tag[j]) by {
        assert(tag[j] == front[j]);
    }
    assert(tag[n] == version[0]);
    text::lemma_span_is(tag, Class::NotDigit, n);
    text::lemma_span_is(version, Class::NotDigit, 0);
    assert(tag.skip(n) =~= version);
    assert(version.skip(0) =~= version);
    text::lemma_span(version, Class::Digit);
}

/// The template of a tag that puts a text without digits before a version with
/// dots.
proof fn lemma_prefixed_template(front: Seq<char>, version: Seq<char>)
    requires
        text::starts_in(version, Class::Digit),
        text::is_digit(version.last()),
        text::all_in(version, Class::DigitOrDot),
        text::contains(version, "."@),
        text::all_in(front, Class::NotDigit),
        front.len() > 0,
        front + version != "v"@ + version,
    ensures
        makefile_parser::template_of(front + version, version) == TagForm::Custom(
            front + makefile_parser::VERSION_MARK@,
        ),
{
    let tag = front + version;
    let n = front.len() as int;
    let u = text::replace(version, "."@, "_"@);
    lemma_underscored(version);
    assert(tag.subrange(n, n + version.len()) =~= version);
    if text::contains(tag, u) {
        let p = choose|p: int| text::occurs_at(tag, u, p);
        assert(tag[p] == tag.subrange(p, p + u.len())[0]);
        assert(p == n) by {
            if p < n {
                assert(tag[p] == front[p]);
                assert(Class::NotDigit.has(front[p]));
            }
        }
    }
    lemma_dotless_elsewhere(front, version);
    lemma_same_numbers(front, version);
    assert(tag.take(n) =~= front);
    assert(tag != version) by {
        assert(tag.len() > version.len());
    }
    assert(makefile_parser::numbered_template(tag, version) == Some(
        front + makefile_parser::VERSION_MARK@,
    ));
}

/// The template of a tag that puts a text without digits before a version without
/// dots.
proof fn lemma_prefixed_number(front: Seq<char>, version: Seq<char>)
    requires
        text::starts_in(version, Class::Digit),
        !text::contains(version, "."@),
        text::all_in(front, Class::NotDigit),
        front.len() > 0,
        front + version != "v"@ + version,
    ensures
        makefile_parser::template_of(front + version, version) == TagForm::Custom(
            front + makefile_parser::VERSION_MARK@,
        ),
{
    let tag = front + version;
    let n = front.len() as int;
    let u = text::replace(version, "."@, "_"@);
    reveal_strlit(".");
    reveal_strlit("_");
    assert("."@ =~= seq!['.']);
    assert("_"@ =~= seq!['_']);
    text::lemma_replace_char(version, '.', '_');
    assert forall|i: int| 0 <= i < version.len() implies #[trigger] version[i] == u[i] by {
        if version[i] == '.' {
            assert(version.subrange(i, i + 1) =~= "."@);
            assert(text::occurs_at(version, "."@, i));
        }
    }
    assert(u =~= version);
    assert(tag.subrange(n, n + version.len()) =~= version);
    assert(text::occurs_at(tag, version, n));
    assert forall|i: int| 0 <= i < front.len() implies Class::Not(version[0]).has(
        #[trigger] front[i],
    ) by {
        assert(Class::NotDigit.has(front[i]));
    }
    text::lemma_replace_end(front, version, makefile_parser::VERSION_MARK@);
    assert(tag != version) by {
        assert(tag.len() > version.len());
    }
}

/// The template that is detected from a tag that puts a text without digits before
/// a version, of digits and dots and ending in a digit, gives the version back.
pub proof fn law_prefixed_tag_gives_version_back(front: Seq<char>, version: Seq<char>)
    requires
        text::starts_in(version, Class::Digit),
        text::is_digit(version.last()),
        text::all_in(version, Class::DigitOrDot),
        text::all_in(front, Class::NotDigit),
        text::all_in(front, Class::Not('$')),
    ensures
        tag_version(front + version, makefile_parser::template_of(front + version, version))
            == version,
{
    let mark = makefile_parser::VERSION_MARK@;
    let tag = front + version;
    if front.len() == 0 {
        assert(tag =~= version);
        law_detected_template_gives_version_back(tag, version);
    } else if tag == "v"@ + version {
        law_detected_template_gives_version_back(tag, version);
    } else {
        if text::contains(version, "."@) {
            lemma_prefixed_template(front, version);
        } else {
            lemma_prefixed_number(front, version);
        }
        assert(front + mark =~= front + mark + Seq::<char>::empty());
        lemma_one_mark(front, Seq::empty());
        assert(!text::contains(version, "_"@)) by {
            reveal_strlit("_");
            if text::contains(version, "_"@) {
                let i = choose|i: int| text::occurs_at(version, "_"@, i);
                assert(version[i] == version.subrange(i, i + 1)[0]);
                assert(Class::DigitOrDot.has(version[i]));
            }
        }
        law_made_tag_stands_for_version(TagForm::Custom(front + mark), version);
        assert(front + version + Seq::<char>::empty() =~= tag);
    }
}

} // verus!

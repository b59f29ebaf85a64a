//! Versions: pre-release markers, formats, and which of two is newer.

use crate::expand;
use crate::markers;
use crate::outside;
use crate::patterns;
use crate::text;
use crate::text::Class;
use std::cmp::Ordering;
use vstd::prelude::*;

verus! {

// ──────────────────────────────── pre-releases ───────────────────────────────

/// Whether what stands from `p` to `e` in a text is not enclosed by a letter or
/// digit before it and a letter behind it.
pub open spec fn stands_out(s: Seq<char>, p: int, e: int) -> bool {
    ||| p <= 0
    ||| e >= s.len()
    ||| !(text::is_digit(s[p - 1]) || text::is_letter(s[p - 1]))
    ||| !text::is_letter(s[e])
}

/// Whether a keyword marks a pre-release in a text in lower case: an occurrence
/// of it does not stand between a letter or digit and a letter.
pub open spec fn is_marked(s: Seq<char>, keyword: Seq<char>) -> bool {
    exists|p: int| #[trigger]
        text::occurs_at(s, keyword, p) && stands_out(s, p, p + keyword.len())
}

/// Whether a text in lower case names a pre-release.
pub open spec fn names_prerelease(s: Seq<char>) -> bool {
    ||| is_marked(s, "alpha"@)
    ||| is_marked(s, "beta"@)
    ||| is_marked(s, "rc"@)
    ||| is_marked(s, "dev"@)
    ||| is_marked(s, "pre"@)
    ||| is_marked(s, "nightly"@)
    ||| is_marked(s, "snapshot"@)
    ||| is_marked(s, "test"@)
    ||| is_marked(s, "next"@)
    ||| is_marked(s, "preview"@)
}

/// Whether a tag names a pre-release.
pub open spec fn is_prerelease(tag: Seq<char>) -> bool {
    names_prerelease(outside::lower(tag))
}

/// Whether a keyword marks a pre-release in a text in lower case.
fn marked(s: &str, keyword: &str) -> (r: bool)
    ensures
        r == is_marked(s@, keyword@),
{
    let x = text::to_chars(s);
    let k = text::to_chars(keyword);
    for p in 0..x.len()
        invariant
            x@ == s@,
            k@ == keyword@,
            forall|q: int|
                0 <= q < p && #[trigger] text::occurs_at(s@, keyword@, q) ==> !stands_out(
                    s@,
                    q,
                    q + keyword@.len(),
                ),
    {
        if text::matches_at(&x, &k, p) {
            let e = p + k.len();
            if p == 0 || e >= x.len() || !(text::digit(x[p - 1]) || text::letter(x[p - 1]))
                || !text::letter(x[e]) {
                assert(text::occurs_at(s@, keyword@, p as int));
                return true;
            }
        }
    }
    let at_end = text::matches_at(&x, &k, x.len());
    assert(at_end == text::occurs_at(s@, keyword@, s@.len() as int));
    at_end
}

/// Whether a text in lower case names a pre-release.
pub fn is_prerelease_lower(lower: &str) -> (r: bool)
    ensures
        r == names_prerelease(lower@),
{
    marked(lower, "alpha") || marked(lower, "beta") || marked(lower, "rc") || marked(lower, "dev")
        || marked(lower, "pre") || marked(lower, "nightly") || marked(lower, "snapshot") || marked(
        lower,
        "test",
    ) || marked(lower, "next") || marked(lower, "preview")
}

/// Whether a tag names a pre-release.
pub fn is_prerelease_tag(tag: &str) -> (r: bool)
    ensures
        r == is_prerelease(tag@),
{
    let lower = outside::to_lowercase(tag);
    is_prerelease_lower(&lower)
}

/// Whether a tag does not come into question, where `prereleases` says whether
/// pre-releases do.
pub open spec fn is_left_out(tag: Seq<char>, prereleases: bool) -> bool {
    !prereleases && is_prerelease(tag)
}

/// Whether a tag does not come into question.
pub fn left_out(tag: &str, prereleases: bool) -> (r: bool)
    ensures
        r == is_left_out(tag@, prereleases),
{
    !prereleases && is_prerelease_tag(tag)
}

/// A text of at least one digit and nothing else.
pub open spec fn is_number(s: Seq<char>) -> bool {
    s.len() > 0 && text::all_in(s, Class::Digit)
}

/// A version of one or two numbers filled up to three.
pub open spec fn padded(s: Seq<char>) -> Seq<char> {
    let p = text::split_on(s, '.');
    if p.len() == 1 && is_number(p[0]) {
        s + ".0.0"@
    } else if p.len() == 2 && is_number(p[0]) && is_number(p[1]) {
        s + ".0"@
    } else {
        s
    }
}

/// A pre-release in the form of semantic versions: what stands before the
/// marker, up to its last digit or dot, then the keyword and the number.
pub open spec fn marked_form(base: Seq<char>, keyword: Seq<char>, number: Seq<char>) -> Seq<char> {
    let n = match text::parse_uint(number, u64::MAX as nat) {
        Some(n) => n,
        None => 0,
    };
    padded(text::trim_end_of(base, Class::NotDigitNorDot)) + "-"@ + keyword + "."@ + text::decimal(n)
}

/// A version whose pre-release marker, if it has one, is in the form of
/// semantic versions: `3.0.0_beta1` becomes `3.0.0-beta.1`.
pub open spec fn canonical(v: Seq<char>) -> Seq<char> {
    match outside::before_marker(v) {
        Some(base) => {
            let g = match outside::marker_captured(v) {
                Some(g) => g,
                None => Seq::empty(),
            };
            marked_form(base, outside::lower(outside::group(g, 1)), outside::group(g, 3))
        },
        None => v,
    }
}

/// Whether a text is a number.
fn number(s: &str) -> (r: bool)
    ensures
        r == is_number(s@),
{
    text::length(s) > 0 && text::all_of(s, Class::Digit)
}

/// A version of one or two numbers filled up to three.
fn pad(s: &str) -> (r: String)
    ensures
        r@ == padded(s@),
{
    let p = text::parts_of(s, '.');
    if p.len() == 1 && number(p[0].as_str()) {
        text::concat(s, ".0.0")
    } else if p.len() == 2 && number(p[0].as_str()) && number(p[1].as_str()) {
        text::concat(s, ".0")
    } else {
        text::own(s)
    }
}

/// A pre-release in the form of semantic versions.
pub fn with_marker(base: &str, keyword: &str, number: &str) -> (r: String)
    ensures
        r@ == marked_form(base@, keyword@, number@),
{
    let n: u64 = match text::parse_number(number, u64::MAX) {
        Some(n) => n,
        None => 0,
    };
    let stem = text::strip_end(base, Class::NotDigitNorDot);
    let mut out = text::concat3(&pad(&stem), "-", keyword);
    out.append(".");
    out.append(text::decimal_of(n).as_str());
    out
}

/// A version whose pre-release marker is in the form of semantic versions.
pub fn canonicalize_prerelease(v: &str) -> (r: String)
    ensures
        r@ == canonical(v@),
{
    match outside::find(patterns::PRERELEASE, v) {
        Some((base, _)) => {
            let (keyword, number) = match outside::captures(patterns::PRERELEASE, v) {
                Some(g) => (
                    crate::makefile_parser::group_text(&g, 1),
                    crate::makefile_parser::group_text(&g, 3),
                ),
                None => (text::empty(), text::empty()),
            };
            let keyword = outside::to_lowercase(&keyword);
            with_marker(&base, &keyword, &number)
        },
        None => text::own(v),
    }
}

// ────────────────────────────────── formats ──────────────────────────────────

/// A version text without white space and without what follows ` (`.
pub open spec fn bare_version(v: Seq<char>) -> Seq<char> {
    let t = text::trim(v);
    match text::find(t, " ("@) {
        Some(p) => text::trim(t.take(p)),
        None => t,
    }
}

/// The format of a bare version: 0 for a commit hash, 1 for a date or a version
/// that starts with a year of this century, 2 for other numeric versions, 3 for
/// anything else.
pub open spec fn format_by(v: Seq<char>, hash: bool, date: bool, numeric: bool) -> u8 {
    let digits = text::trim_start_of(v, Class::Is('v'));
    let leading = digits.take(text::span(digits, Class::Digit) as int);
    if hash {
        0
    } else if date {
        1
    } else if numeric {
        match text::parse_uint(leading, u64::MAX as nat) {
            Some(n) => if 2000 <= n <= 2099 {
                1
            } else {
                2
            },
            None => 2,
        }
    } else {
        3
    }
}

/// The format of a version.
pub open spec fn format_of(v: Seq<char>) -> u8 {
    let b = bare_version(v);
    format_by(b, outside::is_hash(b), outside::date_matches(b), outside::numeric_matches(b))
}

/// The format of a bare version.
pub fn classify_format(v: &str, hash: bool, date: bool, numeric: bool) -> (r: u8)
    ensures
        r == format_by(v@, hash, date, numeric),
{
    if hash {
        return 0;
    }
    if date {
        return 1;
    }
    if numeric {
        let digits = text::strip_start(v, Class::Is('v'));
        let leading = text::prefix_in(&digits, Class::Digit);
        if let Some(n) = text::parse_number(&leading, u64::MAX) {
            if n >= 2000 && n <= 2099 {
                return 1;
            }
        }
        return 2;
    }
    3
}

/// The format of a version: 0 for a commit hash, 1 for a calendar date, 2 for
/// a semantic or numeric version, 3 for anything else.
pub fn version_format_class(v: &str) -> (r: u8)
    ensures
        r == format_of(v@),
{
    let t = text::trimmed(v);
    let b = match text::find_str(&t, " (") {
        Some(p) => text::trimmed(&text::take(&t, p)),
        None => t,
    };
    let hash = outside::is_match(patterns::FORMAT_HASH, &b);
    let date = outside::is_match(patterns::FORMAT_DATE, &b);
    let numeric = outside::is_match(patterns::FORMAT_NUMERIC, &b);
    classify_format(&b, hash, date, numeric)
}

/// Whether two versions are of different formats, so that comparing them means
/// nothing.
pub fn versions_format_incompatible(current: &str, latest: &str) -> (r: bool)
    ensures
        r == (format_of(current@) != format_of(latest@)),
{
    version_format_class(current) != version_format_class(latest)
}

// ─────────────────────────────────── order ───────────────────────────────────

/// Underscores between the numbers of a version that has no dots turned into
/// dots, without what stands before the first digit.
pub open spec fn dotted(v: Seq<char>) -> Seq<char> {
    let digits = text::trim_start_of(v, Class::NotDigit);
    if text::contains(v, "_"@) && !text::contains(v, "."@) && digits.len() > 0 {
        text::replace(digits, "_"@, "."@)
    } else {
        v
    }
}

/// The digits that a version part starts with, or zero.
pub open spec fn leading_number(p: Seq<char>) -> Seq<char> {
    let n = text::span(p, Class::Digit);
    if n == 0 {
        "0"@
    } else {
        p.take(n as int)
    }
}

/// The numeric part of a version as three parts.
pub open spec fn three_parts(base: Seq<char>) -> Seq<char> {
    let p = text::split_on(base, '.');
    if p.len() == 1 {
        p[0] + ".0.0"@
    } else if p.len() == 2 {
        p[0] + "."@ + p[1] + ".0"@
    } else {
        text::join(
            seq![leading_number(p[0]), leading_number(p[1]), leading_number(p[2])],
            "."@,
        )
    }
}

/// A canonical version with its numeric part brought to three parts; what
/// follows the first dash stays.
pub open spec fn normal_form(canon: Seq<char>) -> Seq<char> {
    let v = dotted(canon);
    match text::find(v, "-"@) {
        Some(p) => three_parts(v.take(p)) + v.skip(p),
        None => three_parts(v),
    }
}

/// A version in the form in which it is compared.
pub open spec fn normalized(v: Seq<char>) -> Seq<char> {
    normal_form(canonical(text::trim_start_of(v, Class::Is('v'))))
}

/// Whether a text is a semantic version.
pub open spec fn is_semantic(s: Seq<char>) -> bool {
    outside::release_of(s) is Some || outside::is_marked_release(s) || outside::semver_parses(s)
}

/// The order of two semantic versions.  Which of the two texts comes first decides
/// which way round the order of `semver` is asked for, so that the two directions
/// are opposite by definition; `semver` tells the same either way.
pub open spec fn semantic_sign(a: Seq<char>, b: Seq<char>) -> int {
    if outside::release_of(a) is Some && outside::release_of(b) is Some {
        outside::release_sign(outside::release_of(a)->0, outside::release_of(b)->0)
    } else if a == b {
        0
    } else if outside::is_prerelease_of(b, a) {
        1
    } else if outside::is_prerelease_of(a, b) {
        -1
    } else if expand::precedes(a, b) {
        outside::semver_sign(a, b)
    } else {
        -outside::semver_sign(b, a)
    }
}

/// The number that a version part writes, or zero.
pub open spec fn part_value(p: Seq<char>) -> nat {
    match text::parse_uint(p, u64::MAX as nat) {
        Some(n) => n,
        None => 0,
    }
}

/// The number that the part at a position writes, or zero.
pub open spec fn part_at(parts: Seq<Seq<char>>, i: int) -> nat {
    if 0 <= i < parts.len() {
        part_value(parts[i])
    } else {
        0
    }
}

/// The order of two lists of version parts by their first difference from `i`
/// on.
pub open spec fn parts_sign(a: Seq<Seq<char>>, b: Seq<Seq<char>>, i: int) -> int
    decreases a.len() + b.len() - i,
{
    if i >= a.len() && i >= b.len() {
        0
    } else if part_at(a, i) != part_at(b, i) {
        outside::sign_between(part_at(a, i) as int, part_at(b, i) as int)
    } else {
        parts_sign(a, b, i + 1)
    }
}

/// The numbers of a version: those that the parts of its numeric part start with.
pub open spec fn numbers(v: Seq<char>) -> Seq<Seq<char>> {
    let d = dotted(canonical(text::trim_start_of(v, Class::Is('v'))));
    let p = text::split_on(text::before(d, "-"@), '.');
    Seq::new(p.len(), |i: int| leading_number(p[i]))
}

/// The order of two versions by what follows their first three numbers, where
/// those are equal.
pub open spec fn further_sign(a: Seq<char>, b: Seq<char>) -> int {
    let x = numbers(a);
    let y = numbers(b);
    if part_at(x, 0) == part_at(y, 0) && part_at(x, 1) == part_at(y, 1) && part_at(x, 2) == part_at(
        y,
        2,
    ) {
        parts_sign(x, y, 3)
    } else {
        0
    }
}

/// The order of two normalized versions.
pub open spec fn normal_sign(a: Seq<char>, b: Seq<char>) -> int {
    if is_semantic(a) && is_semantic(b) {
        semantic_sign(a, b)
    } else {
        parts_sign(text::split_on(a, '.'), text::split_on(b, '.'), 0)
    }
}

/// The order of two versions: positive, zero or negative as the first is newer
/// than, as new as or older than the second.  Numbers behind the third decide
/// before pre-release markers do.
pub open spec fn version_sign(a: Seq<char>, b: Seq<char>) -> int {
    if further_sign(a, b) != 0 {
        further_sign(a, b)
    } else {
        normal_sign(normalized(a), normalized(b))
    }
}

/// The order of two versions that are compared in normal form: what that form
/// drops, the numbers behind the third, is compared before.
pub open spec fn newer_sign(a: Seq<char>, b: Seq<char>) -> int {
    if further_sign(a, b) != 0 {
        further_sign(a, b)
    } else {
        version_sign(normalized(a), normalized(b))
    }
}

/// Whether `latest` is newer than `current` and comparing them means something.
pub open spec fn is_outdated(current: Seq<char>, latest: Seq<char>) -> bool {
    let c = normalized(current);
    let l = normalized(latest);
    format_of(current) == format_of(latest) && (if further_sign(latest, current) == 0
        && is_semantic(c) && is_semantic(l) {
        semantic_sign(l, c) > 0
    } else {
        newer_sign(latest, current) > 0
    })
}

/// The number of an ordering.
pub open spec fn number_of(o: Ordering) -> int {
    match o {
        Ordering::Less => -1,
        Ordering::Equal => 0,
        Ordering::Greater => 1,
    }
}

/// Underscores of a version that has no dots turned into dots.
fn dot_underscores(v: &str) -> (r: String)
    ensures
        r@ == dotted(v@),
{
    if text::has(v, "_") && !text::has(v, ".") {
        let digits = text::strip_start(v, Class::NotDigit);
        if text::length(&digits) > 0 {
            return text::replaced(&digits, "_", ".");
        }
    }
    text::own(v)
}

/// The digits that a version part starts with, or zero.
fn number_at_start(p: &str) -> (r: String)
    ensures
        r@ == leading_number(p@),
{
    let digits = text::prefix_in(p, Class::Digit);
    if text::length(&digits) == 0 {
        proof {
            text::lemma_span(p@, Class::Digit);
        }
        text::own("0")
    } else {
        digits
    }
}

/// The numeric part of a version as three parts.
fn in_three_parts(base: &str) -> (r: String)
    ensures
        r@ == three_parts(base@),
{
    let p = text::parts_of(base, '.');
    proof {
        assert(text::split_on(base@, '.').len() > 0);
    }
    if p.len() == 1 {
        return text::concat(p[0].as_str(), ".0.0");
    }
    if p.len() == 2 {
        let mut out = text::concat3(p[0].as_str(), ".", p[1].as_str());
        out.append(".0");
        return out;
    }
    let mut three: Vec<String> = Vec::new();
    three.push(number_at_start(p[0].as_str()));
    three.push(number_at_start(p[1].as_str()));
    three.push(number_at_start(p[2].as_str()));
    let r = text::joined(&three, ".");
    assert(text::texts(three@) =~= seq![
        leading_number(p@[0]@),
        leading_number(p@[1]@),
        leading_number(p@[2]@),
    ]);
    r
}

/// A canonical version with its numeric part brought to three parts.
pub fn normalize_canonical(canon: &str) -> (r: String)
    ensures
        r@ == normal_form(canon@),
{
    let v = dot_underscores(canon);
    match text::find_str(&v, "-") {
        Some(p) => {
            let base = in_three_parts(&text::take(&v, p));
            let rest = text::skip(&v, p);
            text::concat(&base, &rest)
        },
        None => in_three_parts(&v),
    }
}

/// A version in the form in which it is compared.
pub fn normalize_version(v: &str) -> (r: String)
    ensures
        r@ == normalized(v@),
{
    let bare = text::strip_start(v, Class::Is('v'));
    let canon = canonicalize_prerelease(&bare);
    normalize_canonical(&canon)
}

/// Whether a text is a semantic version.
fn semantic(s: &str) -> (r: bool)
    ensures
        r == is_semantic(s@),
        r ==> outside::semver_parses(s@),
{
    outside::is_semver(s)
}

/// The order of two semantic versions.
fn semantic_order(a: &str, b: &str) -> (r: i8)
    requires
        outside::semver_parses(a@),
        outside::semver_parses(b@),
    ensures
        r == semantic_sign(a@, b@),
        -1 <= r <= 1,
{
    outside::semver_order(a, b)
}

/// The number that a version part writes, or zero.
fn value_at(parts: &Vec<String>, i: usize) -> (r: u64)
    ensures
        r == part_at(text::texts(parts@), i as int),
{
    if i < parts.len() {
        match text::parse_number(parts[i].as_str(), u64::MAX) {
            Some(n) => n,
            None => 0,
        }
    } else {
        0
    }
}

/// The order of two lists of version parts by their first difference from
/// `from` on.
fn parts_order(x: &Vec<String>, y: &Vec<String>, from: usize) -> (r: i8)
    ensures
        r == parts_sign(text::texts(x@), text::texts(y@), from as int),
        -1 <= r <= 1,
{
    let ghost p = text::texts(x@);
    let ghost q = text::texts(y@);
    let len = if x.len() > y.len() {
        x.len()
    } else {
        y.len()
    };
    let mut i: usize = from;
    while i < len
        invariant
            p == text::texts(x@),
            q == text::texts(y@),
            len >= x@.len(),
            len >= y@.len(),
            len == x@.len() || len == y@.len(),
            parts_sign(p, q, i as int) == parts_sign(p, q, from as int),
        decreases len - i,
    {
        let m = value_at(x, i);
        let n = value_at(y, i);
        if m > n {
            return 1;
        }
        if m < n {
            return -1;
        }
        i += 1;
    }
    0
}

/// The order of two normalized versions.
pub fn normal_order(a: &str, b: &str) -> (r: i8)
    ensures
        r == normal_sign(a@, b@),
        -1 <= r <= 1,
{
    if semantic(a) && semantic(b) {
        return semantic_order(a, b);
    }
    let x = text::parts_of(a, '.');
    let y = text::parts_of(b, '.');
    parts_order(&x, &y, 0)
}

/// The numbers of a version.
fn version_numbers(v: &str) -> (r: Vec<String>)
    ensures
        text::texts(r@) == numbers(v@),
{
    let bare = text::strip_start(v, Class::Is('v'));
    let d = dot_underscores(&canonicalize_prerelease(&bare));
    let p = text::parts_of(&text::text_before(&d, "-"), '.');
    let mut out: Vec<String> = Vec::new();
    for i in 0..p.len()
        invariant
            out@.len() == i,
            forall|j: int| 0 <= j < i ==> (#[trigger] out@[j])@ == leading_number(p@[j]@),
    {
        out.push(number_at_start(p[i].as_str()));
    }
    assert(text::texts(out@) =~= numbers(v@)) by {
        assert(text::texts(p@).len() == p@.len());
        assert forall|j: int| 0 <= j < p@.len() implies text::texts(out@)[j] == numbers(
            v@,
        )[j] by {
            assert(text::texts(p@)[j] == p@[j]@);
        }
    }
    out
}

/// The order of two versions by what follows their first three numbers, where
/// those are equal.
fn further_order(a: &str, b: &str) -> (r: i8)
    ensures
        r == further_sign(a@, b@),
        -1 <= r <= 1,
{
    let x = version_numbers(a);
    let y = version_numbers(b);
    if value_at(&x, 0) == value_at(&y, 0) && value_at(&x, 1) == value_at(&y, 1) && value_at(&x, 2)
        == value_at(&y, 2) {
        parts_order(&x, &y, 3)
    } else {
        0
    }
}

/// The order of two versions.
pub fn version_order(a: &str, b: &str) -> (r: i8)
    ensures
        r == version_sign(a@, b@),
        -1 <= r <= 1,
{
    let further = further_order(a, b);
    if further != 0 {
        return further;
    }
    let x = normalize_version(a);
    let y = normalize_version(b);
    normal_order(&x, &y)
}

/// The order of two versions that are compared in normal form: what that form
/// drops, the numbers behind the third, is compared before.
pub fn newer_order(a: &str, b: &str) -> (r: i8)
    ensures
        r == newer_sign(a@, b@),
        -1 <= r <= 1,
{
    let further = further_order(a, b);
    if further != 0 {
        return further;
    }
    let x = normalize_version(a);
    let y = normalize_version(b);
    version_order(&x, &y)
}

/// The order of two versions.
pub fn version_cmp(a: &str, b: &str) -> (r: Ordering)
    ensures
        number_of(r) == version_sign(a@, b@),
{
    let n = version_order(a, b);
    if n > 0 {
        Ordering::Greater
    } else if n < 0 {
        Ordering::Less
    } else {
        Ordering::Equal
    }
}

/// Whether `latest` is newer than `current`.  Versions of different formats are
/// not compared: then it is not.
pub fn compare_versions(current: &str, latest: &str) -> (r: bool)
    ensures
        r == is_outdated(current@, latest@),
{
    if versions_format_incompatible(current, latest) {
        return false;
    }
    if further_order(latest, current) == 0 {
        let c = normalize_version(current);
        let l = normalize_version(latest);
        if semantic(&c) && semantic(&l) {
            return semantic_order(&l, &c) > 0;
        }
    }
    newer_order(latest, current) > 0
}

// ──────────────────────────────────── laws ───────────────────────────────────

proof fn lemma_parts_sign_flips(a: Seq<Seq<char>>, b: Seq<Seq<char>>, i: int)
    ensures
        parts_sign(a, b, i) == -parts_sign(b, a, i),
        parts_sign(a, a, i) == 0,
    decreases a.len() + b.len() - i,
{
    if i < a.len() || i < b.len() {
        lemma_parts_sign_flips(a, b, i + 1);
    }
    if i < a.len() {
        lemma_parts_sign_zero(a, i);
    }
}

proof fn lemma_parts_sign_zero(a: Seq<Seq<char>>, i: int)
    ensures
        parts_sign(a, a, i) == 0,
    decreases a.len() - i,
{
    if i < a.len() {
        lemma_parts_sign_zero(a, i + 1);
    }
}

proof fn lemma_normal_sign_flips(a: Seq<char>, b: Seq<char>)
    ensures
        normal_sign(a, b) == -normal_sign(b, a),
        normal_sign(a, a) == 0,
{
    expand::lemma_precedes_total(a, b);
    lemma_parts_sign_flips(text::split_on(a, '.'), text::split_on(b, '.'), 0);
}

pub proof fn lemma_further_sign_flips(a: Seq<char>, b: Seq<char>)
    ensures
        further_sign(a, b) == -further_sign(b, a),
        further_sign(a, a) == 0,
{
    lemma_parts_sign_flips(numbers(a), numbers(b), 3);
}

/// Seen from the other side the order of two versions is the reverse, and a
/// version is as new as itself.
pub proof fn law_order_is_symmetric(a: Seq<char>, b: Seq<char>)
    ensures
        version_sign(a, b) == -version_sign(b, a),
        version_sign(a, a) == 0,
{
    lemma_normal_sign_flips(normalized(a), normalized(b));
    lemma_further_sign_flips(a, b);
}

/// Seen from the other side the order is the reverse here too.
pub proof fn lemma_newer_sign_flips(a: Seq<char>, b: Seq<char>)
    ensures
        newer_sign(a, b) == -newer_sign(b, a),
        newer_sign(a, a) == 0,
{
    lemma_further_sign_flips(a, b);
    law_order_is_symmetric(normalized(a), normalized(b));
}

/// Of two versions at most one is outdated by the other, and none by itself.
pub proof fn law_not_both_outdated(a: Seq<char>, b: Seq<char>)
    ensures
        !(is_outdated(a, b) && is_outdated(b, a)),
        !is_outdated(a, a),
{
    let x = normalized(a);
    let y = normalized(b);
    lemma_normal_sign_flips(x, y);
    lemma_normal_sign_flips(x, x);
    lemma_further_sign_flips(a, b);
    lemma_newer_sign_flips(a, b);
}

/// Versions of different formats do not outdate each other.
pub proof fn law_formats_do_not_mix(current: Seq<char>, latest: Seq<char>)
    requires
        format_of(current) != format_of(latest),
    ensures
        !is_outdated(current, latest),
        !is_outdated(latest, current),
{
}

/// A text holds what its parts hold, and separators.
pub proof fn lemma_parts_in(s: Seq<char>, c: char, k: Class)
    requires
        forall|i: int|
            0 <= i < text::split_on(s, c).len() ==> text::all_in(
                #[trigger] text::split_on(s, c)[i],
                k,
            ),
    ensures
        forall|j: int| 0 <= j < s.len() ==> #[trigger] s[j] == c || k.has(s[j]),
    decreases s.len(),
{
    let n = text::span(s, Class::Not(c)) as int;
    text::lemma_span(s, Class::Not(c));
    let p = text::split_on(s, c);
    assert(text::all_in(p[0], k));
    if s.len() > 0 && n < s.len() {
        let rest = s.skip(n + 1);
        let q = text::split_on(rest, c);
        assert forall|i: int| 0 <= i < q.len() implies text::all_in(#[trigger] q[i], k) by {
            assert(q[i] == p[i + 1]);
        }
        lemma_parts_in(rest, c, k);
        assert forall|j: int| 0 <= j < s.len() implies #[trigger] s[j] == c || k.has(s[j]) by {
            if j < n {
                assert(s[j] == p[0][j]);
            } else if j > n {
                assert(s[j] == rest[j - n - 1]);
            }
        }
    }
}

/// Whether a version is plain numbers with dots between them.
pub open spec fn is_plain_version(s: Seq<char>) -> bool {
    forall|i: int|
        0 <= i < text::split_on(s, '.').len() ==> outside::is_plain_number(
            #[trigger] text::split_on(s, '.')[i],
        )
}

/// The order of two versions of plain numbers: that of their first numbers that
/// differ, where a number that is not there is zero.
pub open spec fn numbers_sign(a: Seq<char>, b: Seq<char>) -> int {
    parts_sign(text::split_on(a, '.'), text::split_on(b, '.'), 0)
}

/// Texts of digits and dots hold neither letters nor marks.
pub proof fn lemma_digits_and_dots(s: Seq<char>)
    requires
        text::all_in(s, Class::DigitOrDot),
    ensures
        text::trim_start_of(s, Class::Is('v')) == s,
        canonical(s) == s,
        dotted(s) == s,
        text::find(s, "-"@) is None,
{
    assert forall|i: int| 0 <= i < s.len() implies Class::Ascii.has(#[trigger] s[i])
        && Class::NotLetter.has(s[i]) && s[i] != 'v' && s[i] != '_' && s[i] != '-' by {
        assert(Class::DigitOrDot.has(s[i]));
    }
    markers::lemma_no_marker(s);
    text::lemma_span_is(s, Class::Is('v'), 0);
    assert(s.skip(0) =~= s);
    reveal_strlit("_");
    reveal_strlit("-");
    text::lemma_find(s, "-"@);
    if text::find(s, "-"@) is Some {
        let i = text::find(s, "-"@)->0;
        assert(s[i] == s.subrange(i, i + 1)[0]);
    }
    text::lemma_find(s, "_"@);
    text::lemma_contains(s, "_"@);
    if text::find(s, "_"@) is Some {
        let i = text::find(s, "_"@)->0;
        assert(s[i] == s.subrange(i, i + 1)[0]);
    }
}

/// A plain number is its own leading number, is worth what its digits write,
/// and holds no dot.
pub proof fn lemma_plain_number(p: Seq<char>)
    requires
        outside::is_plain_number(p),
    ensures
        leading_number(p) == p,
        part_value(p) == text::digits_value(p),
        text::all_in(p, Class::Not('.')),
{
    assert forall|i: int| 0 <= i < p.len() implies Class::Not('.').has(#[trigger] p[i]) by {
        assert(Class::Digit.has(p[i]));
    }
    text::lemma_span_is(p, Class::Digit, p.len() as int);
    assert(p.take(p.len() as int) =~= p);
    assert(Class::Digit.has(p[0]));
}

proof fn lemma_zero()
    ensures
        outside::is_plain_number("0"@),
        part_value("0"@) == 0,
        text::digits_value("0"@) == 0,
        ".0"@ == seq!['.'] + "0"@,
        ".0.0"@ == seq!['.'] + "0"@ + seq!['.'] + "0"@,
        text::split_on("0"@, '.') == seq!["0"@],
{
    reveal_strlit("0");
    reveal_strlit(".0");
    reveal_strlit(".0.0");
    let z = "0"@;
    assert(z.drop_last() =~= Seq::<char>::empty());
    assert(text::digits_value(z.drop_last()) == 0);
    assert(text::digits_value(z) == 0);
    lemma_plain_number(z);
    assert(".0"@ =~= seq!['.'] + z);
    assert(".0.0"@ =~= seq!['.'] + z + seq!['.'] + z);
    text::lemma_split_front(z, z, '.');
}

pub proof fn lemma_numbers_text(s: Seq<char>)
    requires
        is_plain_version(s),
    ensures
        text::all_in(s, Class::DigitOrDot),
{
    let p = text::split_on(s, '.');
    assert forall|i: int| 0 <= i < p.len() implies text::all_in(#[trigger] p[i], Class::Digit) by {
        assert(outside::is_plain_number(p[i]));
    }
    lemma_parts_in(s, '.', Class::Digit);
}

/// Three plain numbers with dots between them are a release.
proof fn lemma_release(x: Seq<char>, y: Seq<char>, z: Seq<char>)
    requires
        outside::is_plain_number(x),
        outside::is_plain_number(y),
        outside::is_plain_number(z),
    ensures
        outside::release_of(x + seq!['.'] + (y + seq!['.'] + z)) == Some(
            (part_value(x), part_value(y), part_value(z)),
        ),
{
    lemma_plain_number(x);
    lemma_plain_number(y);
    lemma_plain_number(z);
    text::lemma_split_front(z, z, '.');
    text::lemma_split_front(y, z, '.');
    text::lemma_split_front(x, y + seq!['.'] + z, '.');
    assert(text::split_on(x + seq!['.'] + (y + seq!['.'] + z), '.') =~= seq![x, y, z]);
}

/// A version of plain numbers is compared as a release of three of them.
pub proof fn lemma_numbers_normalized(s: Seq<char>)
    requires
        is_plain_version(s),
    ensures
        ({
            let p = text::split_on(s, '.');
            &&& numbers(s) == p
            &&& outside::release_of(normalized(s)) == Some(
                (part_at(p, 0), part_at(p, 1), part_at(p, 2)),
            )
        }),
{
    let p = text::split_on(s, '.');
    lemma_numbers_text(s);
    lemma_digits_and_dots(s);
    lemma_zero();
    assert(normalized(s) == three_parts(s));
    text::lemma_join_split(s, '.');
    let z = "0"@;
    let dot = seq!['.'];
    assert("."@ =~= dot) by {
        reveal_strlit(".");
    }
    assert(numbers(s) =~= p) by {
        assert forall|i: int| 0 <= i < p.len() implies leading_number(#[trigger] p[i]) == p[i] by {
            lemma_plain_number(p[i]);
        }
    }
    assert(outside::is_plain_number(p[0]));
    if p.len() == 1 {
        assert(three_parts(s) =~= p[0] + dot + (z + dot + z));
        lemma_release(p[0], z, z);
    } else if p.len() == 2 {
        assert(outside::is_plain_number(p[1]));
        assert(three_parts(s) =~= p[0] + dot + (p[1] + dot + z));
        lemma_release(p[0], p[1], z);
    } else {
        assert(outside::is_plain_number(p[1]));
        assert(outside::is_plain_number(p[2]));
        lemma_plain_number(p[0]);
        lemma_plain_number(p[1]);
        lemma_plain_number(p[2]);
        let three = seq![p[0], p[1], p[2]];
        let two = seq![p[1], p[2]];
        let one = seq![p[2]];
        assert(three.drop_first() =~= two);
        assert(two.drop_first() =~= one);
        text::lemma_join_front(p[0], two, "."@);
        text::lemma_join_front(p[1], one, "."@);
        assert(seq![p[0]] + two =~= three);
        assert(seq![p[1]] + one =~= two);
        assert(one.drop_last() =~= Seq::<Seq<char>>::empty());
        assert(text::join(one, "."@) =~= p[2]);
        assert(three_parts(s) =~= p[0] + dot + (p[1] + dot + p[2]));
        lemma_release(p[0], p[1], p[2]);
    }
}

proof fn lemma_parts_of_one(a: Seq<char>)
    requires
        outside::is_plain_number(a),
    ensures
        text::split_on(a + ".0.0"@, '.') == seq![a, "0"@, "0"@],
{
    lemma_zero();
    let z = "0"@;
    let dot = seq!['.'];
    lemma_plain_number(a);
    lemma_plain_number(z);
    text::lemma_split_front(z, z, '.');
    text::lemma_split_front(a, z + dot + z, '.');
    assert(a + ".0.0"@ =~= a + dot + (z + dot + z));
    assert(seq![a] + (seq![z] + seq![z]) =~= seq![a, z, z]);
}

proof fn lemma_parts_of_two(a: Seq<char>, b: Seq<char>)
    requires
        outside::is_plain_number(a),
        outside::is_plain_number(b),
    ensures
        text::split_on(a + seq!['.'] + b + ".0"@, '.') == seq![a, b, "0"@],
{
    lemma_zero();
    let z = "0"@;
    let dot = seq!['.'];
    lemma_plain_number(a);
    lemma_plain_number(b);
    text::lemma_split_front(b, z, '.');
    text::lemma_split_front(a, b + dot + z, '.');
    assert(a + dot + b + ".0"@ =~= a + dot + (b + dot + z));
    assert(seq![a] + (seq![b] + seq![z]) =~= seq![a, b, z]);
}

/// The parts of a version of plain numbers that is filled up.
proof fn lemma_padded_parts(s: Seq<char>)
    requires
        is_plain_version(s),
    ensures
        ({
            let p = text::split_on(s, '.');
            &&& p.len() > 0
            &&& text::split_on(padded(s), '.') == (if p.len() == 1 {
                seq![p[0], "0"@, "0"@]
            } else if p.len() == 2 {
                seq![p[0], p[1], "0"@]
            } else {
                p
            })
        }),
{
    let p = text::split_on(s, '.');
    text::lemma_join_split(s, '.');
    assert(outside::is_plain_number(p[0]));
    if p.len() == 1 {
        assert(s == p[0]);
        lemma_parts_of_one(p[0]);
    } else if p.len() == 2 {
        assert(outside::is_plain_number(p[1]));
        assert(p =~= seq![p[0]] + seq![p[1]]);
        text::lemma_join_front(p[0], seq![p[1]], seq!['.']);
        assert(s == p[0] + seq!['.'] + p[1]);
        lemma_parts_of_two(p[0], p[1]);
    }
}

/// Filling up a version of plain numbers does not change its numeric part.
proof fn lemma_padded_three(s: Seq<char>)
    requires
        is_plain_version(s),
    ensures
        three_parts(padded(s)) == three_parts(s),
{
    let p = text::split_on(s, '.');
    lemma_padded_parts(s);
    lemma_zero();
    let z = "0"@;
    assert("."@ =~= seq!['.']) by {
        reveal_strlit(".");
    }
    assert(outside::is_plain_number(p[0]));
    lemma_plain_number(p[0]);
    lemma_plain_number(z);
    if p.len() == 1 {
        lemma_join_three(p[0], z, z);
        assert(three_parts(padded(s)) =~= three_parts(s));
    } else if p.len() == 2 {
        assert(outside::is_plain_number(p[1]));
        lemma_plain_number(p[1]);
        lemma_join_three(p[0], p[1], z);
        assert(three_parts(padded(s)) =~= three_parts(s));
    }
}

/// Filling up a version of plain numbers adds zeros, and does not change what it
/// is compared as.
pub proof fn lemma_padded_numbers(s: Seq<char>)
    requires
        is_plain_version(s),
    ensures
        is_plain_version(padded(s)),
        three_parts(padded(s)) == three_parts(s),
        ({
            let x = text::split_on(padded(s), '.');
            let y = text::split_on(s, '.');
            &&& forall|i: int| #[trigger] part_at(x, i) == part_at(y, i)
            &&& parts_sign(x, y, 3) == 0
        }),
{
    let p = text::split_on(s, '.');
    let x = text::split_on(padded(s), '.');
    lemma_padded_parts(s);
    lemma_padded_three(s);
    lemma_zero();
    lemma_parts_sign_zero(p, 3);
    assert forall|i: int| 0 <= i < x.len() implies outside::is_plain_number(#[trigger] x[i]) by {
        if i < p.len() {
            assert(outside::is_plain_number(p[i]));
        }
    }
}

pub proof fn lemma_join_three(a: Seq<char>, b: Seq<char>, c: Seq<char>)
    ensures
        text::join(seq![a, b, c], "."@) == a + "."@ + b + "."@ + c,
{
    let three = seq![a, b, c];
    let two = seq![a, b];
    assert(three.drop_last() =~= two);
    assert(two.drop_last() =~= seq![a]);
    assert(text::join(seq![a], "."@) == a);
    assert(text::join(two, "."@) == a + "."@ + b);
}

/// Versions of plain numbers are ordered by their first numbers that differ,
/// however many they hold.
pub proof fn law_numbers_decide(a: Seq<char>, b: Seq<char>)
    requires
        is_plain_version(a),
        is_plain_version(b),
    ensures
        version_sign(a, b) == numbers_sign(a, b),
{
    lemma_numbers_normalized(a);
    lemma_numbers_normalized(b);
    let x = text::split_on(a, '.');
    let y = text::split_on(b, '.');
    lemma_parts_sign_step(x, y, 0);
    lemma_parts_sign_step(x, y, 1);
    lemma_parts_sign_step(x, y, 2);
}

/// The order of versions of plain numbers is transitive.
pub proof fn law_numbers_are_ordered(a: Seq<char>, b: Seq<char>, c: Seq<char>)
    requires
        numbers_sign(a, b) >= 0,
        numbers_sign(b, c) >= 0,
    ensures
        numbers_sign(a, c) >= 0,
{
    lemma_parts_sign_transitive(
        text::split_on(a, '.'),
        text::split_on(b, '.'),
        text::split_on(c, '.'),
        0,
    );
}

proof fn lemma_parts_sign_step(a: Seq<Seq<char>>, b: Seq<Seq<char>>, i: int)
    requires
        0 <= i,
    ensures
        parts_sign(a, b, i) == (if part_at(a, i) != part_at(b, i) {
            outside::sign_between(part_at(a, i) as int, part_at(b, i) as int)
        } else {
            parts_sign(a, b, i + 1)
        }),
{
}

proof fn lemma_parts_sign_transitive(
    a: Seq<Seq<char>>,
    b: Seq<Seq<char>>,
    c: Seq<Seq<char>>,
    i: int,
)
    requires
        0 <= i,
        parts_sign(a, b, i) >= 0,
        parts_sign(b, c, i) >= 0,
    ensures
        parts_sign(a, c, i) >= 0,
    decreases a.len() + b.len() + c.len() - i,
{
    lemma_parts_sign_step(a, b, i);
    lemma_parts_sign_step(b, c, i);
    lemma_parts_sign_step(a, c, i);
    if i < a.len() + b.len() + c.len() && part_at(a, i) == part_at(b, i) && part_at(b, i)
        == part_at(c, i) {
        lemma_parts_sign_transitive(a, b, c, i + 1);
    }
}

/// Trimming puts no detail into a text that holds none.
proof fn lemma_trim_without_detail(v: Seq<char>)
    requires
        !text::contains(v, " ("@),
    ensures
        text::find(text::trim(v), " ("@) is None,
{
    reveal_strlit(" (");
    let mark = " ("@;
    let a = text::span(v, Class::Space) as int;
    text::lemma_span(v, Class::Space);
    let w = text::trim(v);
    text::lemma_span_back(v.skip(a), Class::Space);
    text::lemma_find(w, mark);
    if let Some(j) = text::find(w, mark) {
        assert(v.subrange(a + j, a + j + 2) =~= w.subrange(j, j + 2));
        assert(text::occurs_at(v, mark, a + j));
    }
}

/// The first detail of a text that holds none and has one put behind it is that
/// one.
proof fn lemma_first_detail(u: Seq<char>, h: Seq<char>)
    requires
        !text::contains(u, " ("@),
    ensures
        text::find(u + " ("@ + h + ")"@, " ("@) == Some(u.len() as int),
{
    reveal_strlit(" (");
    let mark = " ("@;
    let t = u + mark + h + ")"@;
    let n = u.len() as int;
    assert(t.subrange(n, n + 2) =~= mark);
    assert forall|j: int| 0 <= j < n implies !#[trigger] text::occurs_at(t, mark, j) by {
        if text::occurs_at(t, mark, j) {
            assert(t.subrange(j, j + 2)[1] == t[j + 1]);
            if j + 1 < n {
                assert(u.subrange(j, j + 2) =~= t.subrange(j, j + 2));
                assert(text::occurs_at(u, mark, j));
            } else {
                assert(t[j + 1] == mark[0]);
            }
        }
    }
    text::lemma_find_is(t, mark, n);
}

/// A text in front of a detail in brackets, where it is not blank and holds none
/// itself, is what the bare version of the whole is taken from.
proof fn lemma_bare_of_detailed(v: Seq<char>, h: Seq<char>)
    requires
        text::trim(v).len() > 0,
        !text::contains(v, " ("@),
    ensures
        bare_version(v + " ("@ + h + ")"@) == bare_version(v),
{
    reveal_strlit(" (");
    reveal_strlit(")");
    let mark = " ("@;
    let d = mark + h + ")"@;
    let x = v + mark + h + ")"@;
    assert(x =~= v + d);
    let a = text::span(v, Class::Space) as int;
    text::lemma_span(v, Class::Space);
    let u = v.skip(a);
    assert(a < v.len()) by {
        if a == v.len() {
            assert(u =~= Seq::<char>::empty());
        }
    }
    assert forall|j: int| 0 <= j < a implies Class::Space.has(#[trigger] x[j]) by {
        assert(x[j] == v[j]);
    }
    assert(x[a] == v[a]);
    text::lemma_span_is(x, Class::Space, a);
    let t = x.skip(a);
    assert(t =~= u + d);
    assert(t.last() == ')');
    text::lemma_span_back_is(t, Class::Space, 0);
    assert(t.take(t.len() as int) =~= t);
    let n = u.len() as int;
    assert(!text::contains(u, mark)) by {
        if text::contains(u, mark) {
            let j = choose|j: int| text::occurs_at(u, mark, j);
            assert(v.subrange(a + j, a + j + 2) =~= u.subrange(j, j + 2));
            assert(text::occurs_at(v, mark, a + j));
        }
    }
    lemma_first_detail(u, h);
    assert(t =~= u + mark + h + ")"@);
    assert(t.take(n) =~= u);
    assert(u[0] == v[a]);
    text::lemma_span_is(u, Class::Space, 0);
    assert(u.skip(0) =~= u);
    assert(text::trim(u) == text::trim(v));
    lemma_trim_without_detail(v);
}

/// A text that starts with a bracket is none of the formats that are told apart.
proof fn lemma_bracket_format(b: Seq<char>)
    requires
        b.len() > 0 ==> b[0] == '(',
    ensures
        format_by(b, outside::is_hash(b), outside::date_matches(b), outside::numeric_matches(b))
            == 3,
{
    if b.len() > 0 {
        assert(!Class::LowerHex.has(b[0]));
        if b.len() >= 4 {
            assert(b.take(4)[0] == b[0]);
            assert(!Class::Digit.has(b.take(4)[0]));
        }
        assert(!Class::Digit.has(b[0]));
    }
}

/// A blank text is of no format, with a detail in brackets behind it or without.
proof fn lemma_blank_format(v: Seq<char>, h: Seq<char>)
    requires
        text::trim(v).len() == 0,
    ensures
        format_of(v) == 3,
        format_of(v + " ("@ + h + ")"@) == 3,
{
    reveal_strlit(" (");
    reveal_strlit(")");
    let mark = " ("@;
    let none = Seq::<char>::empty();
    let u = text::trim_start_of(v, Class::Space);
    text::lemma_span(v, Class::Space);
    text::lemma_span_back(u, Class::Space);
    if u.len() > 0 {
        assert(u[0] == v[text::span(v, Class::Space) as int]);
        assert(Class::Space.has(u[0]));
    }
    let a = v.len() as int;
    assert(text::trim(v) =~= none);
    text::lemma_find(none, mark);
    assert(bare_version(v) =~= none);
    lemma_bracket_format(none);
    let x = v + mark + h + ")"@;
    assert forall|j: int| 0 <= j < a + 1 implies Class::Space.has(#[trigger] x[j]) by {
        if j < a {
            assert(x[j] == v[j]);
        } else {
            assert(x[j] == mark[0]);
        }
    }
    assert(x[a + 1] == mark[1]);
    text::lemma_span_is(x, Class::Space, a + 1);
    let t = x.skip(a + 1);
    assert(t =~= seq!['('] + h + seq![')']);
    assert(t.last() == ')');
    text::lemma_span_back_is(t, Class::Space, 0);
    assert(t.take(t.len() as int) =~= t);
    text::lemma_find(t, mark);
    if let Some(p) = text::find(t, mark) {
        if p == 0 {
            assert(t.subrange(0, 2)[0] == t[0]);
        }
        let s = t.take(p);
        assert(s[0] == '(');
        text::lemma_span_is(s, Class::Space, 0);
        assert(s.skip(0) =~= s);
        text::lemma_span_back(s, Class::Space);
        let b = text::trim(s);
        if b.len() > 0 {
            assert(b[0] == s[0]);
        }
        lemma_bracket_format(b);
    } else {
        lemma_bracket_format(t);
    }
}

/// A detail in brackets behind a version, such as a commit, does not change its
/// format, and there are four formats.
pub proof fn law_detail_keeps_the_format(v: Seq<char>, h: Seq<char>)
    requires
        !text::contains(v, " ("@),
    ensures
        format_of(v + " ("@ + h + ")"@) == format_of(v),
        format_of(v) <= 3,
{
    if text::trim(v).len() > 0 {
        lemma_bare_of_detailed(v, h);
    } else {
        lemma_blank_format(v, h);
    }
}

} // verus!

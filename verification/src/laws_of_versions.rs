//! What versions are compared for: which of two is newer, which ones are
//! pre-releases, and which cannot be compared.

use crate::laws_of_make;
use crate::markers;
use crate::outside;
use crate::text;
use crate::text::Class;
use crate::version;
use vstd::prelude::*;

verus! {

// ─────────────────────────────────── numbers ─────────────────────────────────

/// The number at a position of a version of plain numbers; beyond its end, zero.
pub open spec fn number_at(v: Seq<char>, i: int) -> nat {
    if 0 <= i < text::split_on(v, '.').len() {
        text::digits_value(text::split_on(v, '.')[i])
    } else {
        0
    }
}

/// Whether a version of plain numbers is below another: at the first position at
/// which their numbers differ its number is the smaller one.
pub open spec fn is_below(a: Seq<char>, b: Seq<char>) -> bool {
    exists|k: int|
        0 <= k && #[trigger] number_at(a, k) < number_at(b, k) && forall|j: int|
            0 <= j < k ==> #[trigger] number_at(a, j) == number_at(b, j)
}

/// Whether two versions of plain numbers have the same numbers.
pub open spec fn is_level(a: Seq<char>, b: Seq<char>) -> bool {
    forall|j: int| 0 <= j ==> #[trigger] number_at(a, j) == number_at(b, j)
}

proof fn lemma_number_at(v: Seq<char>)
    requires
        version::is_plain_version(v),
    ensures
        forall|i: int| 0 <= i ==> #[trigger] version::part_at(text::split_on(v, '.'), i) == number_at(v, i),
{
    let p = text::split_on(v, '.');
    assert forall|i: int| 0 <= i implies #[trigger] version::part_at(p, i) == number_at(v, i) by {
        if i < p.len() {
            assert(outside::is_plain_number(p[i]));
            version::lemma_plain_number(p[i]);
        }
    }
}

proof fn lemma_first_difference(a: Seq<char>, b: Seq<char>, i: int)
    requires
        version::is_plain_version(a),
        version::is_plain_version(b),
        0 <= i,
        forall|j: int| 0 <= j < i ==> #[trigger] number_at(a, j) == number_at(b, j),
    ensures
        ({
            let s = version::parts_sign(text::split_on(a, '.'), text::split_on(b, '.'), i);
            &&& s < 0 ==> is_below(a, b)
            &&& s > 0 ==> is_below(b, a)
            &&& s == 0 ==> is_level(a, b)
        }),
    decreases text::split_on(a, '.').len() + text::split_on(b, '.').len() - i,
{
    let p = text::split_on(a, '.');
    let q = text::split_on(b, '.');
    lemma_number_at(a);
    lemma_number_at(b);
    assert(version::part_at(p, i) == number_at(a, i));
    assert(version::part_at(q, i) == number_at(b, i));
    if i >= p.len() && i >= q.len() {
        assert forall|j: int| 0 <= j implies #[trigger] number_at(a, j) == number_at(b, j) by {}
    } else if number_at(a, i) == number_at(b, i) {
        lemma_first_difference(a, b, i + 1);
    } else if number_at(a, i) > number_at(b, i) {
        assert(number_at(b, i) < number_at(a, i));
        assert forall|j: int| 0 <= j < i implies #[trigger] number_at(b, j) == number_at(a, j) by {
            assert(number_at(a, j) == number_at(b, j));
        }
    }
}

proof fn lemma_below_is_one_way(a: Seq<char>, b: Seq<char>)
    ensures
        !(is_below(a, b) && is_below(b, a)),
        !(is_below(a, b) && is_level(a, b)),
        !(is_below(b, a) && is_level(a, b)),
{
    if is_below(a, b) {
        let k = choose|k: int|
            0 <= k && #[trigger] number_at(a, k) < number_at(b, k) && forall|j: int|
                0 <= j < k ==> #[trigger] number_at(a, j) == number_at(b, j);
        if is_below(b, a) {
            let n = choose|n: int|
                0 <= n && #[trigger] number_at(b, n) < number_at(a, n) && forall|j: int|
                    0 <= j < n ==> #[trigger] number_at(b, j) == number_at(a, j);
            assert(number_at(a, k) < number_at(b, k));
            assert(number_at(b, n) < number_at(a, n));
            if k < n {
                assert(number_at(b, k) == number_at(a, k));
            } else if n < k {
                assert(number_at(a, n) == number_at(b, n));
            }
        }
    }
    if is_below(b, a) && is_level(a, b) {
        let n = choose|n: int|
            0 <= n && #[trigger] number_at(b, n) < number_at(a, n) && forall|j: int|
                0 <= j < n ==> #[trigger] number_at(b, j) == number_at(a, j);
        assert(number_at(a, n) == number_at(b, n));
    }
}

/// Versions of plain numbers are ordered by the first numbers that differ, however
/// many they hold; with the same numbers they are equally new.
pub proof fn law_first_difference_orders(a: Seq<char>, b: Seq<char>)
    requires
        version::is_plain_version(a),
        version::is_plain_version(b),
    ensures
        version::version_sign(a, b) < 0 <==> is_below(a, b),
        version::version_sign(a, b) > 0 <==> is_below(b, a),
        version::version_sign(a, b) == 0 <==> is_level(a, b),
{
    version::law_numbers_decide(a, b);
    lemma_first_difference(a, b, 0);
    lemma_below_is_one_way(a, b);
    lemma_below_is_one_way(b, a);
}

// ─────────────────────────────────── formats ─────────────────────────────────

/// Whether a version starts with a year of this century.
pub open spec fn is_of_a_year(v: Seq<char>) -> bool {
    2000 <= number_at(v, 0) <= 2099
}

/// Whether a version of plain numbers is neither a hash nor a date of eight digits.
pub open spec fn is_numeric(v: Seq<char>) -> bool {
    &&& version::is_plain_version(v)
    &&& text::split_on(v, '.').len() > 1 || (v.len() != 8 && v.len() < 12)
}

/// The format of a version of plain numbers: that of a date where it starts with a
/// year of this century, else that of a number.
pub proof fn law_numeric_format(v: Seq<char>)
    requires
        is_numeric(v),
    ensures
        version::format_of(v) == (if is_of_a_year(v) {
            1u8
        } else {
            2u8
        }),
{
    let p = text::split_on(v, '.');
    let n = p[0];
    version::lemma_numbers_text(v);
    assert(outside::is_plain_number(n));
    version::lemma_plain_number(n);
    text::lemma_span(v, Class::Not('.'));
    let k = text::span(v, Class::Not('.')) as int;
    assert forall|i: int| 0 <= i < v.len() implies Class::Ascii.has(#[trigger] v[i])
        && !text::is_space(v[i]) && v[i] != 'v' && v[i] != '-' && v[i] != '(' && (v[i] == '.'
        || text::is_digit(v[i])) by {
        assert(Class::DigitOrDot.has(v[i]));
    }
    assert(n.len() > 0);
    assert(v[0] == n[0]);
    assert(Class::Digit.has(n[0]));
    lemma_bare(v);
    // where another number follows, the version holds a dot
    if p.len() > 1 {
        assert(k < v.len());
        assert(v[k] == '.');
        assert(n == v.take(k));
        assert(!Class::LowerHex.has(v[k]));
        assert(!outside::is_hash(v));
        assert(!Class::Digit.has(v[k]));
    } else {
        if k < v.len() {
            text::lemma_join_split(v.skip(k + 1), '.');
        }
        assert(n == v);
    }
    if outside::is_date_with(v, Class::Is('-')) {
        assert(Class::Is('-').has(v[4]));
    }
    text::lemma_span_is(v, Class::Is('v'), 0);
    assert(v.skip(0) =~= v);
    assert forall|j: int| 0 <= j < n.len() implies Class::Digit.has(#[trigger] v[j]) by {
        assert(v[j] == n[j]);
        assert(Class::Digit.has(n[j]));
    }
    text::lemma_span_is(v, Class::Digit, n.len() as int);
    assert(v.take(n.len() as int) =~= n);
    assert(text::parse_uint(n, u64::MAX as nat) == Some(text::digits_value(n)));
}

/// A version of digits and dots is its own bare version.
proof fn lemma_bare(v: Seq<char>)
    requires
        v.len() > 0,
        forall|i: int| 0 <= i < v.len() ==> !text::is_space(#[trigger] v[i]),
    ensures
        version::bare_version(v) == v,
{
    assert(!text::is_space(v[0]));
    assert(!text::is_space(v[v.len() - 1]));
    text::lemma_span_is(v, Class::Space, 0);
    assert(v.skip(0) =~= v);
    text::lemma_span_back_is(v, Class::Space, 0);
    assert(v.take(v.len() as int) =~= v);
    reveal_strlit(" (");
    text::lemma_find(v, " ("@);
    if let Some(j) = text::find(v, " ("@) {
        assert(v.subrange(j, j + 2)[0] == v[j]);
    }
}

/// A package whose versions are plain numbers is outdated exactly where the latest
/// version is above the current one: neither of them, or both, starting with a year.
/// A year and another number are not compared.
pub proof fn law_outdated_by_numbers(current: Seq<char>, latest: Seq<char>)
    requires
        is_numeric(current),
        is_numeric(latest),
    ensures
        is_of_a_year(current) == is_of_a_year(latest) ==> (version::is_outdated(current, latest)
            <==> is_below(current, latest)),
        is_of_a_year(current) != is_of_a_year(latest) ==> !version::is_outdated(current, latest),
{
    law_numeric_format(current);
    law_numeric_format(latest);
    law_first_difference_orders(latest, current);
    version::lemma_numbers_normalized(current);
    version::lemma_numbers_normalized(latest);
    let c = version::normalized(current);
    let l = version::normalized(latest);
    assert(version::is_semantic(c) && version::is_semantic(l));
    assert(version::version_sign(latest, current) == (if version::further_sign(latest, current)
        != 0 {
        version::further_sign(latest, current)
    } else {
        version::semantic_sign(l, c)
    }));
}

/// Twelve to forty hexadecimal digits in lower case are a commit hash, eight digits
/// or a year, a month and a day with dashes are a date.
pub proof fn law_hashes_and_dates(h: Seq<char>, y: Seq<char>, m: Seq<char>, d: Seq<char>)
    requires
        12 <= h.len() <= 40,
        text::all_in(h, Class::LowerHex),
        y.len() == 4,
        m.len() == 2,
        d.len() == 2,
        text::all_in(y, Class::Digit),
        text::all_in(m, Class::Digit),
        text::all_in(d, Class::Digit),
    ensures
        version::format_of(h) == 0,
        version::format_of(y + m + d) == 1,
        version::format_of(y + seq!['-'] + m + seq!['-'] + d) == 1,
{
    assert forall|i: int| 0 <= i < h.len() implies !text::is_space(#[trigger] h[i]) by {
        assert(Class::LowerHex.has(h[i]));
    }
    lemma_bare(h);
    let a = y + m + d;
    let b = y + seq!['-'] + m + seq!['-'] + d;
    assert forall|i: int| 0 <= i < a.len() implies Class::Digit.has(#[trigger] a[i])
        && !text::is_space(a[i]) && Class::Ascii.has(a[i]) by {
        if i < 4 {
            assert(Class::Digit.has(y[i]));
        } else if i < 6 {
            assert(Class::Digit.has(m[i - 4]));
        } else {
            assert(Class::Digit.has(d[i - 6]));
        }
    }
    lemma_bare(a);
    assert forall|i: int| 0 <= i < b.len() implies !text::is_space(#[trigger] b[i])
        && Class::Ascii.has(b[i]) by {
        if i < 4 {
            assert(Class::Digit.has(y[i]));
        } else if 5 <= i < 7 {
            assert(Class::Digit.has(m[i - 5]));
        } else if i >= 8 {
            assert(Class::Digit.has(d[i - 8]));
        }
    }
    lemma_bare(b);
    assert(b.take(4) =~= y);
    assert(b.subrange(5, 7) =~= m);
    assert(b.skip(8) =~= d);
    assert(b[4] == '-' && b[7] == '-');
    assert(!Class::LowerHex.has(b[4]));
}

// ──────────────────────────────── pre-releases ───────────────────────────────

/// A word that marks a pre-release.
pub open spec fn is_mark(k: Seq<char>) -> bool {
    k == "alpha"@ || k == "beta"@ || k == "rc"@ || k == "dev"@ || k == "pre"@ || k == "nightly"@ || k
        == "snapshot"@ || k == "test"@ || k == "next"@ || k == "preview"@
}

proof fn lemma_mark(k: Seq<char>)
    requires
        is_mark(k),
    ensures
        k.len() >= 2,
        text::all_in(k, Class::Ascii),
        k.map_values(|c: char| outside::ascii_lower(c)) == k,
{
    reveal_strlit("alpha");
    reveal_strlit("beta");
    reveal_strlit("rc");
    reveal_strlit("dev");
    reveal_strlit("pre");
    reveal_strlit("nightly");
    reveal_strlit("snapshot");
    reveal_strlit("test");
    reveal_strlit("next");
    reveal_strlit("preview");
    assert(k.map_values(|c: char| outside::ascii_lower(c)) =~= k);
}

/// A text with a mark in it, in letters of either case, is a pre-release where no
/// letter follows the mark, and where neither a letter nor a digit stands before it.
pub proof fn law_marks_are_prereleases(x: Seq<char>, mark: Seq<char>, y: Seq<char>)
    requires
        text::all_in(x, Class::Ascii),
        text::all_in(mark, Class::Ascii),
        text::all_in(y, Class::Ascii),
        is_mark(mark.map_values(|c: char| outside::ascii_lower(c))),
        (y.len() == 0 || !text::is_letter(y[0])) || (x.len() == 0 || !(text::is_letter(x.last())
            || text::is_digit(x.last()))),
    ensures
        version::is_prerelease(x + mark + y),
{
    let s = x + mark + y;
    let l = outside::lower(s);
    let k = mark.map_values(|c: char| outside::ascii_lower(c));
    lemma_mark(k);
    assert forall|i: int| 0 <= i < s.len() implies Class::Ascii.has(#[trigger] s[i]) by {
        if i < x.len() {
            assert(s[i] == x[i]);
        } else if i < x.len() + mark.len() {
            assert(s[i] == mark[i - x.len()]);
        } else {
            assert(s[i] == y[i - x.len() - mark.len()]);
        }
    }
    let p = x.len() as int;
    let e = p + k.len();
    assert(l.subrange(p, e) =~= k);
    assert(text::occurs_at(l, k, p));
    if y.len() > 0 && !text::is_letter(y[0]) {
        assert(l[e] == outside::ascii_lower(y[0]));
    }
    if x.len() > 0 && !(text::is_letter(x.last()) || text::is_digit(x.last())) {
        assert(l[p - 1] == outside::ascii_lower(x.last()));
    }
    assert(version::stands_out(l, p, e));
    assert(version::is_marked(l, k));
}

/// Numbers with a mark and digits behind them are a pre-release, with or without a
/// separator.
pub proof fn law_numbered_marks_are_prereleases(
    numbers: Seq<char>,
    mark: Seq<char>,
    digits: Seq<char>,
    separator: char,
)
    requires
        text::all_in(numbers, Class::DigitOrDot),
        is_mark(mark),
        text::all_in(digits, Class::Digit),
        separator == '-' || separator == '_' || separator == '.' || separator == '~',
    ensures
        version::is_prerelease(numbers + mark + digits),
        version::is_prerelease(numbers + seq![separator] + mark + digits),
{
    lemma_mark(mark);
    assert(text::all_in(numbers, Class::Ascii)) by {
        assert forall|i: int| 0 <= i < numbers.len() implies Class::Ascii.has(
            #[trigger] numbers[i],
        ) by {
            assert(Class::DigitOrDot.has(numbers[i]));
        }
    }
    assert(text::all_in(digits, Class::Ascii)) by {
        assert forall|i: int| 0 <= i < digits.len() implies Class::Ascii.has(
            #[trigger] digits[i],
        ) by {
            assert(Class::Digit.has(digits[i]));
        }
    }
    if digits.len() > 0 {
        assert(Class::Digit.has(digits[0]));
    }
    law_marks_are_prereleases(numbers, mark, digits);
    let front = numbers + seq![separator];
    assert forall|i: int| 0 <= i < front.len() implies Class::Ascii.has(#[trigger] front[i]) by {
        if i < numbers.len() {
            assert(front[i] == numbers[i]);
        }
    }
    law_marks_are_prereleases(front, mark, digits);
}

/// A text without any of the marks is no pre-release; no more is one that holds
/// them only in the middle of words.
pub proof fn law_other_texts_are_stable(s: Seq<char>)
    requires
        text::all_in(s, Class::Ascii),
        forall|k: Seq<char>, p: int|
            is_mark(k) && #[trigger] text::occurs_at(outside::lower(s), k, p) ==> 0 < p && p
                + k.len() < s.len() && (text::is_letter(s[p - 1]) || text::is_digit(s[p - 1]))
                && text::is_letter(s[p + k.len()]),
    ensures
        !version::is_prerelease(s),
{
    let l = outside::lower(s);
    assert forall|k: Seq<char>| is_mark(k) implies !#[trigger] version::is_marked(l, k) by {
        if version::is_marked(l, k) {
            let p = choose|p: int| #[trigger]
                text::occurs_at(l, k, p) && version::stands_out(l, p, p + k.len());
            assert(text::occurs_at(l, k, p));
            assert(l[p - 1] == outside::ascii_lower(s[p - 1]));
            assert(l[p + k.len()] == outside::ascii_lower(s[p + k.len()]));
        }
    }
}

// ─────────────────────────────────── writings ────────────────────────────────

/// A `v` in front of a version does not count.
pub proof fn law_v_in_front_does_not_count(a: Seq<char>, b: Seq<char>)
    ensures
        version::normalized(seq!['v'] + a) == version::normalized(a),
        version::version_sign(seq!['v'] + a, b) == version::version_sign(a, b),
        version::version_sign(a, seq!['v'] + b) == version::version_sign(a, b),
        version::version_sign(seq!['v'] + a, a) == 0,
{
    lemma_v_in_front(a);
    lemma_v_in_front(b);
    version::law_order_is_symmetric(a, a);
}

proof fn lemma_v_in_front(a: Seq<char>)
    ensures
        text::trim_start_of(seq!['v'] + a, Class::Is('v')) == text::trim_start_of(
            a,
            Class::Is('v'),
        ),
{
    let n = text::span(a, Class::Is('v')) as int;
    text::lemma_span(a, Class::Is('v'));
    let s = seq!['v'] + a;
    assert forall|i: int| 0 <= i < n + 1 implies Class::Is('v').has(#[trigger] s[i]) by {
        if i > 0 {
            assert(s[i] == a[i - 1]);
        }
    }
    if n < a.len() {
        assert(s[n + 1] == a[n]);
    }
    text::lemma_span_is(s, Class::Is('v'), n + 1);
    assert(s.skip(n + 1) =~= a.skip(n));
}

/// Underscores between the numbers of a version without dots are dots, and what
/// stands before its first digit is not part of it.
pub proof fn law_underscores_are_dots(front: Seq<char>, a: Seq<char>, b: Seq<char>)
    requires
        text::all_in(front, Class::NotDigit),
        !front.contains('.'),
        a.len() > 0,
        text::all_in(a, Class::Digit),
        text::all_in(b, Class::Digit),
    ensures
        version::dotted(front + a + seq!['_'] + b) == a + seq!['.'] + b,
        version::dotted(a + seq!['.'] + b) == a + seq!['.'] + b,
{
    reveal_strlit("_");
    reveal_strlit(".");
    assert("_"@ =~= seq!['_']);
    assert("."@ =~= seq!['.']);
    let t = a + seq!['_'] + b;
    let s = front + a + seq!['_'] + b;
    assert(s =~= front + t);
    let n = front.len() as int;
    assert forall|i: int| 0 <= i < n implies Class::NotDigit.has(#[trigger] s[i]) by {
        assert(s[i] == front[i]);
    }
    assert(Class::Digit.has(a[0]));
    assert(s[n] == a[0]);
    text::lemma_span_is(s, Class::NotDigit, n);
    assert(s.skip(n) =~= t);
    let k = n + a.len();
    assert(s.subrange(k, k + 1) =~= "_"@);
    assert(text::occurs_at(s, "_"@, k));
    assert(!s.contains('.')) by {
        if s.contains('.') {
            let i = choose|i: int| 0 <= i < s.len() && s[i] == '.';
            if i < n {
                assert(front.contains(front[i]));
            } else if i < k {
                assert(Class::Digit.has(a[i - n]));
            } else if i > k {
                assert(Class::Digit.has(b[i - k - 1]));
            }
        }
    }
    laws_of_make::lemma_not_found(s, '.', "."@);
    lemma_digits_hold_no(a, '_');
    lemma_digits_hold_no(b, '_');
    laws_of_make::lemma_replace_once(a, '_', b, seq!['.']);
    let d = a + seq!['.'] + b;
    let m = a.len() as int;
    assert(d.subrange(m, m + 1) =~= "."@);
    assert(text::occurs_at(d, "."@, m));
}

proof fn lemma_digits_hold_no(a: Seq<char>, c: char)
    requires
        text::all_in(a, Class::Digit),
        !text::is_digit(c),
    ensures
        !a.contains(c),
{
    if a.contains(c) {
        let i = choose|i: int| 0 <= i < a.len() && a[i] == c;
        assert(Class::Digit.has(a[i]));
    }
}

/// Of the parts of a version the digits at their start count; of a part without any
/// zero does.  Versions of one or two parts are filled up with zeros, of more than
/// three the first three are compared.
pub proof fn law_parts_count_by_their_digits(
    a: Seq<char>,
    b: Seq<char>,
    c: Seq<char>,
    x: Seq<char>,
    y: Seq<char>,
    z: Seq<char>,
    rest: Seq<char>,
)
    requires
        a.len() > 0,
        b.len() > 0,
        c.len() > 0,
        text::all_in(a, Class::Digit),
        text::all_in(b, Class::Digit),
        text::all_in(c, Class::Digit),
        is_tail(x),
        is_tail(y),
        is_tail(z),
        rest.len() == 0 || rest[0] == '.',
    ensures
        ({
            let dot = seq!['.'];
            &&& version::leading_number(a + x) == a
            &&& version::leading_number(x) == "0"@
            &&& version::three_parts(a + x + dot + b + y + dot + c + z + rest) == a + dot + b + dot
                + c
            &&& version::three_parts(a) == a + ".0.0"@
            &&& version::three_parts(a + dot + b) == a + dot + b + ".0"@
        }),
{
    reveal_strlit(".");
    assert("."@ =~= seq!['.']);
    let dot = seq!['.'];
    lemma_leading(a, x);
    lemma_leading(b, y);
    lemma_leading(c, z);
    lemma_tail_alone(x);
    lemma_part_text(a, x);
    lemma_part_text(b, y);
    lemma_part_text(c, z);
    let p = a + x;
    let q = b + y;
    let r = c + z;
    let s = a + x + dot + b + y + dot + c + z + rest;
    let tail = r + rest;
    assert(s =~= p + dot + (q + dot + tail));
    text::lemma_split_front(p, q + dot + tail, '.');
    text::lemma_split_front(q, tail, '.');
    if rest.len() == 0 {
        assert(tail =~= r);
        text::lemma_split_front(r, r, '.');
    } else {
        let more = rest.skip(1);
        assert(tail =~= r + dot + more);
        text::lemma_split_front(r, more, '.');
    }
    let parts = text::split_on(s, '.');
    assert(parts.len() >= 3 && parts[0] == p && parts[1] == q && parts[2] == r);
    version::lemma_join_three(a, b, c);
    lemma_not_dot(a);
    lemma_not_dot(b);
    text::lemma_split_front(a, b, '.');
    text::lemma_split_front(b, b, '.');
    assert(text::split_on(a + dot + b, '.') =~= seq![a, b]);
    assert(text::split_on(a, '.') =~= seq![a]);
}

/// Whether a text can follow the digits of a version part: it starts with no digit
/// and holds no dot.
pub open spec fn is_tail(x: Seq<char>) -> bool {
    (x.len() == 0 || !text::is_digit(x[0])) && !x.contains('.')
}

proof fn lemma_leading(a: Seq<char>, x: Seq<char>)
    requires
        a.len() > 0,
        text::all_in(a, Class::Digit),
        is_tail(x),
    ensures
        version::leading_number(a + x) == a,
{
    let s = a + x;
    let n = a.len() as int;
    assert forall|i: int| 0 <= i < n implies Class::Digit.has(#[trigger] s[i]) by {
        assert(s[i] == a[i]);
    }
    assert(x.len() > 0 ==> s[n] == x[0]);
    text::lemma_span_is(s, Class::Digit, n);
    assert(s.take(n) =~= a);
}

proof fn lemma_tail_alone(x: Seq<char>)
    requires
        is_tail(x),
    ensures
        version::leading_number(x) == "0"@,
{
    text::lemma_span_is(x, Class::Digit, 0);
}

proof fn lemma_part_text(a: Seq<char>, x: Seq<char>)
    requires
        text::all_in(a, Class::Digit),
        is_tail(x),
    ensures
        text::all_in(a + x, Class::Not('.')),
{
    let s = a + x;
    assert forall|i: int| 0 <= i < s.len() implies Class::Not('.').has(#[trigger] s[i]) by {
        if i < a.len() {
            assert(Class::Digit.has(a[i]));
        } else {
            assert(s[i] == x[i - a.len()]);
            assert(x.contains(x[i - a.len()]));
        }
    }
}

/// A pre-release is written with three numbers, a dash, its keyword, a dot and its
/// number; without a number it is the zeroth.
pub proof fn law_prereleases_are_written(
    a: Seq<char>,
    b: Seq<char>,
    c: Seq<char>,
    keyword: Seq<char>,
    n: nat,
)
    requires
        a.len() > 0,
        b.len() > 0,
        c.len() > 0,
        text::all_in(a, Class::Digit),
        text::all_in(b, Class::Digit),
        text::all_in(c, Class::Digit),
        n <= u64::MAX,
    ensures
        ({
            let dot = seq!['.'];
            let three = a + dot + b + dot + c;
            let end = "-"@ + keyword + "."@ + text::decimal(n);
            &&& version::marked_form(three, keyword, text::decimal(n)) == three + end
            &&& version::marked_form(a + dot + b, keyword, text::decimal(n)) == a + dot + b + ".0"@
                + end
            &&& version::marked_form(a, keyword, text::decimal(n)) == a + ".0.0"@ + end
            &&& version::marked_form(a, keyword, Seq::empty()) == a + ".0.0"@ + "-"@ + keyword
                + "."@ + text::decimal(0)
            &&& version::marked_form(a + seq!['-'], keyword, text::decimal(n)) == a + ".0.0"@ + end
        }),
{
    laws_of_make::lemma_number_read(n, u64::MAX as nat);
    let dot = seq!['.'];
    let two = a + dot + b;
    let three = two + dot + c;
    lemma_not_dot(a);
    lemma_not_dot(b);
    lemma_not_dot(c);
    text::lemma_split_front(c, a, '.');
    text::lemma_split_front(b, c, '.');
    text::lemma_split_front(b, b, '.');
    text::lemma_split_front(a, b, '.');
    text::lemma_split_front(a, b + dot + c, '.');
    assert(three =~= a + dot + (b + dot + c));
    assert(text::split_on(three, '.').len() == 3);
    assert(text::split_on(two, '.') =~= seq![a, b]);
    assert(text::split_on(a, '.') =~= seq![a]);
    assert(text::all_in(two, Class::DigitOrDot)) by {
        lemma_all_numbers(a, b);
    }
    lemma_all_numbers(two, c);
    lemma_end_kept(a);
    lemma_end_kept(two);
    lemma_end_kept(three);
    lemma_end_dropped(a);
    let end = "-"@ + keyword + "."@ + text::decimal(n);
    assert(three + "-"@ + keyword + "."@ + text::decimal(n) =~= three + end);
    assert(two + ".0"@ + "-"@ + keyword + "."@ + text::decimal(n) =~= two + ".0"@ + end);
    assert(a + ".0.0"@ + "-"@ + keyword + "."@ + text::decimal(n) =~= a + ".0.0"@ + end);
}

proof fn lemma_not_dot(a: Seq<char>)
    requires
        text::all_in(a, Class::Digit),
    ensures
        text::all_in(a, Class::Not('.')),
        text::all_in(a, Class::DigitOrDot),
{
    assert forall|i: int| 0 <= i < a.len() implies Class::Not('.').has(#[trigger] a[i])
        && Class::DigitOrDot.has(a[i]) by {
        assert(Class::Digit.has(a[i]));
    }
}

proof fn lemma_all_numbers(x: Seq<char>, a: Seq<char>)
    requires
        text::all_in(x, Class::DigitOrDot) || text::all_in(x, Class::Digit),
        text::all_in(a, Class::Digit),
    ensures
        text::all_in(x + seq!['.'] + a, Class::DigitOrDot),
{
    let s = x + seq!['.'] + a;
    assert forall|i: int| 0 <= i < s.len() implies Class::DigitOrDot.has(#[trigger] s[i]) by {
        if i < x.len() {
            assert(s[i] == x[i]);
            if text::all_in(x, Class::Digit) {
                assert(Class::Digit.has(x[i]));
            } else {
                assert(Class::DigitOrDot.has(x[i]));
            }
        } else if i > x.len() {
            assert(s[i] == a[i - x.len() - 1]);
            assert(Class::Digit.has(a[i - x.len() - 1]));
        }
    }
}

proof fn lemma_end_kept(s: Seq<char>)
    requires
        s.len() > 0,
        text::all_in(s, Class::DigitOrDot),
    ensures
        text::trim_end_of(s, Class::NotDigitNorDot) == s,
{
    assert(Class::DigitOrDot.has(s[s.len() - 1]));
    text::lemma_span_back_is(s, Class::NotDigitNorDot, 0);
    assert(s.take(s.len() as int) =~= s);
}

proof fn lemma_end_dropped(a: Seq<char>)
    requires
        a.len() > 0,
        text::all_in(a, Class::Digit),
    ensures
        text::trim_end_of(a + seq!['-'], Class::NotDigitNorDot) == a,
{
    let s = a + seq!['-'];
    assert(Class::Digit.has(a[a.len() - 1]));
    assert(s[s.len() - 2] == a[a.len() - 1]);
    text::lemma_span_back_is(s, Class::NotDigitNorDot, 1);
    assert(s.take(s.len() - 1) =~= a);
}

// ──────────────────────────────── marked versions ────────────────────────────

/// A keyword with something but letters behind it is as long as it is.
proof fn lemma_keyword_alone(k: Seq<char>, d: Seq<char>)
    requires
        markers::is_keyword(outside::lower(k)),
        text::all_in(k, Class::Ascii),
        d.len() == 0 || !text::is_letter(d[0]),
    ensures
        outside::keyword_length(k + d) == k.len(),
{
    reveal_strlit("alpha");
    reveal_strlit("beta");
    reveal_strlit("rc");
    reveal_strlit("dev");
    reveal_strlit("pre");
    reveal_strlit("nightly");
    reveal_strlit("snapshot");
    reveal_strlit("next");
    let w = outside::lower(k);
    markers::lemma_keyword(w);
    let s = k + d;
    let l = s.map_values(|c: char| outside::ascii_lower(c));
    assert forall|i: int| 0 <= i < k.len() implies #[trigger] l[i] == w[i] by {
        assert(s[i] == k[i]);
    }
    assert(l.subrange(0, k.len() as int) =~= w);
    lemma_word_front(l, "alpha"@);
    lemma_word_front(l, "beta"@);
    lemma_word_front(l, "rc"@);
    lemma_word_front(l, "dev"@);
    lemma_word_front(l, "pre"@);
    lemma_word_front(l, "nightly"@);
    lemma_word_front(l, "snapshot"@);
    lemma_word_front(l, "next"@);
}

proof fn lemma_word_front(l: Seq<char>, w: Seq<char>)
    requires
        l.len() >= 2,
        w.len() >= 2,
    ensures
        w.is_prefix_of(l) ==> l[0] == w[0] && l[1] == w[1],
{
    if w.is_prefix_of(l) {
        assert(l.subrange(0, w.len() as int)[0] == l[0]);
        assert(l.subrange(0, w.len() as int)[1] == l[1]);
    }
}

/// Whether a text is empty or a single dash, underscore or dot.
pub open spec fn is_separator(s: Seq<char>) -> bool {
    s.len() == 0 || s.len() == 1 && (s[0] == '-' || s[0] == '_' || s[0] == '.')
}

/// A version with a pre-release marker is brought to one form, whether separators
/// stand round the keyword or not: what stands before it is filled up to three
/// numbers, then come a dash, the keyword in lower case, a dot and the number.
pub proof fn law_marked_versions_have_one_form(
    numbers: Seq<char>,
    x: Seq<char>,
    keyword: Seq<char>,
    y: Seq<char>,
    n: nat,
)
    requires
        numbers.len() > 0,
        text::all_in(numbers, Class::DigitOrDot),
        text::is_digit(numbers.last()),
        markers::is_keyword(outside::lower(keyword)),
        text::all_in(keyword, Class::Ascii),
        is_separator(x),
        is_separator(y),
        n <= u64::MAX,
    ensures
        version::canonical(numbers + x + keyword + y + text::decimal(n)) == version::padded(numbers)
            + "-"@ + outside::lower(keyword) + "."@ + text::decimal(n),
{
    let d = text::decimal(n);
    let v = numbers + x + keyword + y + d;
    let m = x + keyword + y + d;
    let i = numbers.len() as int;
    assert(v =~= numbers + m);
    markers::lemma_decimal(n);
    laws_of_make::lemma_number_read(n, u64::MAX as nat);
    lemma_marker_groups(x, keyword, y, d);
    lemma_marker_front(numbers, m);
    lemma_marker_ascii(numbers, x, keyword, y, d);
    assert(v.skip(i) =~= m);
    assert(v.take(i) =~= numbers);
    lemma_end_kept(numbers);
}

/// The marker of a version stands behind its numbers.
proof fn lemma_marker_front(numbers: Seq<char>, m: Seq<char>)
    requires
        numbers.len() > 0,
        text::all_in(numbers, Class::DigitOrDot),
        text::is_digit(numbers.last()),
        outside::starts_with_marker(m),
    ensures
        outside::marker_at(numbers + m) == Some(numbers.len() as int),
{
    let v = numbers + m;
    let i = numbers.len() as int;
    assert(v.skip(i) =~= m);
    assert forall|j: int| 0 <= j < i implies !outside::starts_with_marker(
        #[trigger] v.skip(j),
    ) by {
        let t = v.skip(j);
        let q = outside::keyword_start(t);
        assert(t[0] == v[j] && v[j] == numbers[j]);
        assert(Class::DigitOrDot.has(numbers[j]));
        if q == 1 {
            assert(j + 1 < i);
            assert(t.skip(1)[0] == numbers[j + 1]);
            assert(Class::DigitOrDot.has(numbers[j + 1]));
            markers::lemma_no_keyword(t.skip(1));
        } else {
            assert(t.skip(0) =~= t);
            markers::lemma_no_keyword(t);
        }
    }
    markers::lemma_marker_is(v, i);
}

/// What a marker holds.
proof fn lemma_marker_groups(x: Seq<char>, keyword: Seq<char>, y: Seq<char>, d: Seq<char>)
    requires
        markers::is_keyword(outside::lower(keyword)),
        text::all_in(keyword, Class::Ascii),
        is_separator(x),
        is_separator(y),
        d.len() > 0,
        text::all_in(d, Class::Digit),
    ensures
        ({
            let m = x + keyword + y + d;
            let g = outside::marker_groups(m);
            &&& outside::starts_with_marker(m)
            &&& outside::group(g, 1) == keyword
            &&& outside::group(g, 3) == d
        }),
{
    let m = x + keyword + y + d;
    let tail = y + d;
    let a = x.len() as int;
    let b = a + keyword.len();
    assert(Class::Digit.has(d[0]));
    assert(tail[0] == (if y.len() == 0 {
        d[0]
    } else {
        y[0]
    }));
    lemma_keyword_alone(keyword, tail);
    let w = outside::lower(keyword);
    markers::lemma_keyword(w);
    assert(w[0] == outside::ascii_lower(keyword[0]));
    assert('a' <= w[0] <= 'z');
    assert(m[0] == (if x.len() == 0 {
        keyword[0]
    } else {
        x[0]
    }));
    assert(outside::keyword_start(m) == a);
    assert(m.skip(a) =~= keyword + tail);
    assert(m.skip(b) =~= tail);
    assert(m.subrange(a, b) =~= keyword);
    lemma_number_behind(y, d);
}

/// A version with a marker is ASCII.
proof fn lemma_marker_ascii(
    numbers: Seq<char>,
    x: Seq<char>,
    keyword: Seq<char>,
    y: Seq<char>,
    d: Seq<char>,
)
    requires
        text::all_in(numbers, Class::DigitOrDot),
        text::all_in(keyword, Class::Ascii),
        is_separator(x),
        is_separator(y),
        text::all_in(d, Class::Digit),
    ensures
        text::all_in(numbers + x + keyword + y + d, Class::Ascii),
{
    let v = numbers + x + keyword + y + d;
    let i = numbers.len() as int;
    let a = x.len() as int;
    let b = a + keyword.len();
    assert forall|k: int| 0 <= k < v.len() implies Class::Ascii.has(#[trigger] v[k]) by {
        if k < i {
            assert(Class::DigitOrDot.has(numbers[k]));
        } else if k < i + a {
            assert(v[k] == x[k - i]);
        } else if k < i + b {
            assert(v[k] == keyword[k - i - a]);
        } else if k < i + b + y.len() {
            assert(v[k] == y[k - i - b]);
        } else {
            assert(v[k] == d[k - i - b - y.len()]);
            assert(Class::Digit.has(d[k - i - b - y.len()]));
        }
    }
}

proof fn lemma_number_behind(y: Seq<char>, d: Seq<char>)
    requires
        is_separator(y),
        d.len() > 0,
        text::all_in(d, Class::Digit),
    ensures
        ({
            let tail = y + d;
            let g = text::span(tail, Class::Separator) as int;
            &&& g == y.len()
            &&& text::span(tail.skip(g), Class::Digit) == d.len()
            &&& tail.subrange(g, g + d.len() as int) == d
        }),
{
    let tail = y + d;
    let g = y.len() as int;
    assert(Class::Digit.has(d[0]));
    assert(tail[g] == d[0]);
    assert(g > 0 ==> tail[0] == y[0]);
    text::lemma_span_is(tail, Class::Separator, g);
    assert(tail.skip(g) =~= d);
    text::lemma_span_is(d, Class::Digit, d.len() as int);
    assert(tail.subrange(g, g + d.len() as int) =~= d);
}

} // verus!

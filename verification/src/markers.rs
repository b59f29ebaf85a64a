//! Pre-release markers: where they stand, that their canonical form is final, and
//! that a pre-release is older than its release.

use crate::outside;
use crate::text;
use crate::text::Class;
use crate::version;
use vstd::prelude::*;

verus! {

/// A keyword that marks a pre-release.
pub open spec fn is_keyword(w: Seq<char>) -> bool {
    w == "alpha"@ || w == "beta"@ || w == "rc"@ || w == "dev"@ || w == "pre"@ || w == "nightly"@ || w
        == "snapshot"@ || w == "next"@
}

/// Keywords are letters in lower case.
pub proof fn lemma_keyword(w: Seq<char>)
    requires
        is_keyword(w),
    ensures
        2 <= w.len() <= 8,
        forall|i: int| 0 <= i < w.len() ==> 'a' <= #[trigger] w[i] <= 'z',
{
    reveal_strlit("alpha");
    reveal_strlit("beta");
    reveal_strlit("rc");
    reveal_strlit("dev");
    reveal_strlit("pre");
    reveal_strlit("nightly");
    reveal_strlit("snapshot");
    reveal_strlit("next");
}

/// The keyword that a text starts with is as long as it is told.
proof fn lemma_keyword_length(s: Seq<char>)
    requires
        outside::keyword_length(s) > 0,
    ensures
        outside::keyword_length(s) <= s.len(),
        is_keyword(
            s.map_values(|c: char| outside::ascii_lower(c)).take(outside::keyword_length(s)),
        ),
{
    let l = s.map_values(|c: char| outside::ascii_lower(c));
    reveal_strlit("alpha");
    reveal_strlit("beta");
    reveal_strlit("rc");
    reveal_strlit("dev");
    reveal_strlit("pre");
    reveal_strlit("nightly");
    reveal_strlit("snapshot");
    reveal_strlit("next");
    let k = outside::keyword_length(s);
    if outside::starts_with_word(s, "alpha"@) {
        assert(l.take(5) =~= "alpha"@);
    } else if outside::starts_with_word(s, "beta"@) {
        assert(l.take(4) =~= "beta"@);
    } else if outside::starts_with_word(s, "rc"@) {
        assert(l.take(2) =~= "rc"@);
    } else if outside::starts_with_word(s, "dev"@) {
        assert(l.take(3) =~= "dev"@);
    } else if outside::starts_with_word(s, "pre"@) {
        assert(l.take(3) =~= "pre"@);
    } else if outside::starts_with_word(s, "nightly"@) {
        assert(l.take(7) =~= "nightly"@);
    } else if outside::starts_with_word(s, "snapshot"@) {
        assert(l.take(8) =~= "snapshot"@);
    } else {
        assert(l.take(4) =~= "next"@);
    }
}

/// A keyword is made of letters.
proof fn lemma_keyword_letters(s: Seq<char>)
    requires
        outside::keyword_length(s) > 0,
    ensures
        outside::keyword_length(s) <= s.len(),
        forall|i: int|
            0 <= i < outside::keyword_length(s) ==> text::is_letter(#[trigger] s[i]),
{
    lemma_keyword_length(s);
    let l = s.map_values(|c: char| outside::ascii_lower(c));
    let k = outside::keyword_length(s);
    lemma_keyword(l.take(k));
    assert forall|i: int| 0 <= i < k implies text::is_letter(#[trigger] s[i]) by {
        assert(l.take(k)[i] == outside::ascii_lower(s[i]));
    }
}

/// A text that starts with a keyword starts with one however it goes on.
proof fn lemma_keyword_stays(s: Seq<char>, t: Seq<char>)
    requires
        outside::keyword_length(s) > 0,
        outside::keyword_length(s) <= t.len(),
        t.take(outside::keyword_length(s)) == s.take(outside::keyword_length(s)),
    ensures
        outside::keyword_length(t) > 0,
{
    lemma_keyword_length(s);
    let k = outside::keyword_length(s);
    let l = s.map_values(|c: char| outside::ascii_lower(c));
    let m = t.map_values(|c: char| outside::ascii_lower(c));
    assert(m.take(k) =~= l.take(k)) by {
        assert forall|i: int| 0 <= i < k implies m.take(k)[i] == l.take(k)[i] by {
            assert(t.take(k)[i] == s.take(k)[i]);
        }
    }
    assert(l.take(k).is_prefix_of(m));
}

/// A text that does not start with a letter starts with no keyword.
pub proof fn lemma_no_keyword(s: Seq<char>)
    requires
        s.len() == 0 || !text::is_letter(s[0]),
    ensures
        outside::keyword_length(s) == 0,
{
    if outside::keyword_length(s) > 0 {
        lemma_keyword_letters(s);
    }
}

/// A text without letters holds no marker.
pub proof fn lemma_no_marker(s: Seq<char>)
    requires
        text::all_in(s, Class::NotLetter),
    ensures
        outside::marker_at(s) is None,
    decreases s.len(),
{
    let t = s.skip(outside::keyword_start(s));
    if t.len() > 0 {
        assert(t[0] == s[outside::keyword_start(s)]);
        assert(Class::NotLetter.has(t[0]));
    }
    lemma_no_keyword(t);
    if s.len() > 0 {
        let rest = s.skip(1);
        assert forall|i: int| 0 <= i < rest.len() implies Class::NotLetter.has(
            #[trigger] rest[i],
        ) by {
            assert(rest[i] == s[i + 1]);
        }
        lemma_no_marker(rest);
    }
}

/// What the first marker is: one with none before it, or nothing if there is none.
proof fn lemma_marker_at(s: Seq<char>)
    ensures
        match outside::marker_at(s) {
            Some(i) => 0 <= i <= s.len() && outside::starts_with_marker(s.skip(i)) && forall|j: int|
                0 <= j < i ==> !outside::starts_with_marker(#[trigger] s.skip(j)),
            None => forall|j: int|
                0 <= j <= s.len() ==> !outside::starts_with_marker(#[trigger] s.skip(j)),
        },
    decreases s.len(),
{
    assert(s.skip(0) =~= s);
    if !outside::starts_with_marker(s) && s.len() > 0 {
        let rest = s.skip(1);
        lemma_marker_at(rest);
        if let Some(i) = outside::marker_at(rest) {
            assert(rest.skip(i) =~= s.skip(i + 1));
            assert forall|j: int| 0 <= j < i + 1 implies !outside::starts_with_marker(
                #[trigger] s.skip(j),
            ) by {
                if j > 0 {
                    assert(rest.skip(j - 1) =~= s.skip(j));
                }
            }
        } else {
            assert forall|j: int| 0 <= j <= s.len() implies !outside::starts_with_marker(
                #[trigger] s.skip(j),
            ) by {
                if j > 0 {
                    assert(rest.skip(j - 1) =~= s.skip(j));
                }
            }
        }
    }
}

/// A marker with none before it is the first one.
pub proof fn lemma_marker_is(s: Seq<char>, i: int)
    requires
        0 <= i <= s.len(),
        outside::starts_with_marker(s.skip(i)),
        forall|j: int| 0 <= j < i ==> !outside::starts_with_marker(#[trigger] s.skip(j)),
    ensures
        outside::marker_at(s) == Some(i),
{
    lemma_marker_at(s);
    if let Some(k) = outside::marker_at(s) {
        if k < i {
            assert(!outside::starts_with_marker(s.skip(k)));
        } else if k > i {
            assert(!outside::starts_with_marker(s.skip(i)));
        }
    } else {
        assert(!outside::starts_with_marker(s.skip(i)));
    }
}

/// A keyword at a place is a marker there, or one from a separator before it on.
proof fn lemma_keyword_is_marker(s: Seq<char>, q: int)
    requires
        0 <= q <= s.len(),
        outside::keyword_length(s.skip(q)) > 0,
    ensures
        outside::starts_with_marker(s.skip(q)),
{
    let t = s.skip(q);
    lemma_keyword_letters(t);
    assert(t.skip(0) =~= t);
}

/// A number in base ten is digits, and they write the number.
pub proof fn lemma_decimal(n: nat)
    ensures
        text::decimal(n).len() > 0,
        text::all_in(text::decimal(n), Class::Digit),
        text::digits_value(text::decimal(n)) == n,
    decreases n,
{
    let d = text::decimal(n);
    if n < 10 {
        let c = (n + '0' as u32) as char;
        assert(c as u32 == n + 48);
        assert(d.drop_last() =~= Seq::<char>::empty());
        assert(text::digits_value(d.drop_last()) == 0);
    } else {
        lemma_decimal(n / 10);
        let c = (n % 10 + '0' as u32) as char;
        assert(c as u32 == n % 10 + 48);
        assert(d.drop_last() =~= text::decimal(n / 10));
        assert forall|i: int| 0 <= i < d.len() implies Class::Digit.has(#[trigger] d[i]) by {
            if i < d.len() - 1 {
                assert(d[i] == text::decimal(n / 10)[i]);
            }
        }
    }
}

/// Filling up a version leaves it in front, adds dots and zeros, and is final.
proof fn lemma_padded(t: Seq<char>)
    requires
        t.len() > 0 ==> Class::DigitOrDot.has(t.last()),
    ensures
        ({
            let p = version::padded(t);
            &&& t.len() <= p.len()
            &&& p.take(t.len() as int) == t
            &&& forall|i: int| t.len() <= i < p.len() ==> #[trigger] p[i] == '.' || p[i] == '0'
            &&& p.len() > 0 ==> Class::DigitOrDot.has(p.last())
            &&& version::padded(p) == p
        }),
{
    reveal_strlit(".0.0");
    reveal_strlit(".0");
    reveal_strlit("0");
    let parts = text::split_on(t, '.');
    let p = version::padded(t);
    let z = "0"@;
    let dot = seq!['.'];
    assert(text::all_in(z, Class::Not('.')));
    text::lemma_split_front(z, z, '.');
    text::lemma_split_front(z, z, '.');
    text::lemma_join_split(t, '.');
    if parts.len() == 1 && version::is_number(parts[0]) {
        assert(text::join(parts, dot) == parts[0]);
        assert(t == parts[0]);
        lemma_number_without_dots(t);
        text::lemma_split_front(z, z, '.');
        text::lemma_split_front(t, z + dot + z, '.');
        assert(t + ".0.0"@ =~= t + dot + (z + dot + z));
        assert(text::split_on(p, '.').len() == 3);
        assert(p.take(t.len() as int) =~= t);
    } else if parts.len() == 2 && version::is_number(parts[0]) && version::is_number(parts[1]) {
        lemma_number_without_dots(parts[0]);
        lemma_number_without_dots(parts[1]);
        assert(parts =~= seq![parts[0]] + seq![parts[1]]);
        text::lemma_join_front(parts[0], seq![parts[1]], dot);
        assert(t =~= parts[0] + dot + parts[1]);
        text::lemma_split_front(parts[1], z, '.');
        text::lemma_split_front(parts[0], parts[1] + dot + z, '.');
        assert(t + ".0"@ =~= parts[0] + dot + (parts[1] + dot + z));
        assert(text::split_on(p, '.').len() == 3);
        assert(p.take(t.len() as int) =~= t);
    } else {
        assert(p.take(t.len() as int) =~= t);
    }
}

proof fn lemma_number_without_dots(s: Seq<char>)
    requires
        version::is_number(s),
    ensures
        text::all_in(s, Class::Not('.')),
{
    assert forall|i: int| 0 <= i < s.len() implies Class::Not('.').has(#[trigger] s[i]) by {
        assert(Class::Digit.has(s[i]));
    }
}

/// A keyword in lower case with a dot behind it starts with the words that the text
/// it was taken from starts with, as far as they are no longer than it.
proof fn lemma_word_in_form(s: Seq<char>, k: int, r: Seq<char>, w: Seq<char>)
    requires
        is_keyword(w),
        0 <= k <= s.len(),
    ensures
        ({
            let x = s.map_values(|c: char| outside::ascii_lower(c)).take(k) + seq!['.'] + r;
            &&& w.len() <= k ==> outside::starts_with_word(x, w) == outside::starts_with_word(s, w)
            &&& w.len() > k ==> !outside::starts_with_word(x, w)
        }),
{
    let l = s.map_values(|c: char| outside::ascii_lower(c));
    let x = l.take(k) + seq!['.'] + r;
    let m = x.map_values(|c: char| outside::ascii_lower(c));
    lemma_keyword(w);
    assert forall|i: int| 0 <= i < k implies #[trigger] m[i] == l[i] by {
        assert(x[i] == l[i]);
        assert(l[i] == outside::ascii_lower(s[i]));
    }
    assert(x[k] == '.');
    assert(m[k] == '.');
    if w.len() <= k {
        assert(m.take(w.len() as int) =~= l.take(w.len() as int));
        assert(w.is_prefix_of(m) == w.is_prefix_of(l));
    } else if w.is_prefix_of(m) {
        assert(w[k] == m.take(w.len() as int)[k]);
    }
}

/// A keyword in lower case with a dot behind it starts with itself.
proof fn lemma_keyword_in_form(s: Seq<char>, r: Seq<char>)
    requires
        outside::keyword_length(s) > 0,
    ensures
        ({
            let k = outside::keyword_length(s);
            outside::keyword_length(
                s.map_values(|c: char| outside::ascii_lower(c)).take(k) + seq!['.'] + r,
            ) == k
        }),
{
    let k = outside::keyword_length(s);
    lemma_keyword_length(s);
    lemma_word_in_form(s, k, r, "alpha"@);
    lemma_word_in_form(s, k, r, "beta"@);
    lemma_word_in_form(s, k, r, "rc"@);
    lemma_word_in_form(s, k, r, "dev"@);
    lemma_word_in_form(s, k, r, "pre"@);
    lemma_word_in_form(s, k, r, "nightly"@);
    lemma_word_in_form(s, k, r, "snapshot"@);
    lemma_word_in_form(s, k, r, "next"@);
    reveal_strlit("alpha");
    reveal_strlit("beta");
    reveal_strlit("rc");
    reveal_strlit("dev");
    reveal_strlit("pre");
    reveal_strlit("nightly");
    reveal_strlit("snapshot");
    reveal_strlit("next");
}

/// What is kept of the text before the first marker holds none.
proof fn lemma_no_marker_in_front(v: Seq<char>, i: int, n: int, p: Seq<char>, w: Seq<char>, j: int)
    requires
        outside::marker_at(v) == Some(i),
        0 <= n <= i,
        n <= p.len() < w.len(),
        p.take(n) == v.take(n),
        forall|x: int| n <= x < p.len() ==> #[trigger] p[x] == '.' || p[x] == '0',
        w.take(p.len() as int) == p,
        w[p.len() as int] == '-',
        0 <= j < p.len(),
    ensures
        !outside::starts_with_marker(w.skip(j)),
{
    lemma_marker_at(v);
    let y = w.skip(j);
    let q = j + outside::keyword_start(y);
    if outside::starts_with_marker(y) {
        let z = w.skip(q);
        assert(y.skip(outside::keyword_start(y)) =~= z);
        let k = outside::keyword_length(z);
        lemma_keyword_letters(z);
        assert forall|x: int| n <= x <= p.len() implies !text::is_letter(#[trigger] w[x]) by {
            if x < p.len() {
                assert(w.take(p.len() as int)[x] == p[x]);
            }
        }
        assert(z[0] == w[q]);
        assert(q < n);
        if q + k > n {
            assert(z[n - q] == w[n]);
        }
        assert(v.skip(q).take(k) =~= z.take(k)) by {
            assert forall|x: int| 0 <= x < k implies v.skip(q).take(k)[x] == z.take(k)[x] by {
                assert(z[x] == w[q + x]);
                assert(w[q + x] == w.take(p.len() as int)[q + x]);
                assert(p[q + x] == p.take(n)[q + x]);
                assert(v[q + x] == v.take(n)[q + x]);
            }
        }
        lemma_keyword_stays(z, v.skip(q));
        lemma_keyword_is_marker(v, q);
    }
}

/// A marker in canonical form is taken apart into its keyword and its number.
proof fn lemma_form_groups(u: Seq<char>, n: nat)
    requires
        outside::keyword_length(u) > 0,
    ensures
        ({
            let k = outside::keyword_length(u);
            let keyword = u.map_values(|c: char| outside::ascii_lower(c)).take(k);
            let m = seq!['-'] + keyword + seq!['.'] + text::decimal(n);
            &&& outside::starts_with_marker(m)
            &&& outside::marker_groups(m).len() == 4
            &&& outside::marker_groups(m)[1] == Some(keyword)
            &&& outside::marker_groups(m)[3] == Some(text::decimal(n))
        }),
{
    let k = outside::keyword_length(u);
    let keyword = u.map_values(|c: char| outside::ascii_lower(c)).take(k);
    let d = text::decimal(n);
    let m = seq!['-'] + keyword + seq!['.'] + d;
    lemma_keyword_length(u);
    lemma_keyword_in_form(u, d);
    lemma_decimal(n);
    assert(m[0] == '-');
    assert(m.skip(1) =~= keyword + seq!['.'] + d);
    let rest = m.skip(1 + k);
    assert(rest =~= seq!['.'] + d);
    assert(rest[0] == '.');
    assert(rest[1] == d[0]);
    assert(Class::Digit.has(d[0]));
    text::lemma_span_is(rest, Class::Separator, 1);
    assert(rest.skip(1) =~= d);
    text::lemma_span_is(d, Class::Digit, d.len() as int);
    assert(m.subrange(1, 1 + k) =~= keyword);
    assert(rest.subrange(1, 1 + d.len() as int) =~= d);
}

/// What is kept of the text before the first marker.
spec fn stem(v: Seq<char>, i: int) -> Seq<char> {
    version::padded(text::trim_end_of(v.take(i), Class::NotDigitNorDot))
}

/// A marker in canonical form.
spec fn form(keyword: Seq<char>, n: nat) -> Seq<char> {
    seq!['-'] + keyword + seq!['.'] + text::decimal(n)
}

/// What is kept of the text before the first marker is final, and ASCII if the
/// text is.
proof fn lemma_stem(v: Seq<char>, i: int)
    requires
        text::all_in(v, Class::Ascii),
        0 <= i <= v.len(),
    ensures
        ({
            let t = text::trim_end_of(v.take(i), Class::NotDigitNorDot);
            let p = stem(v, i);
            &&& t.len() <= i
            &&& t.len() <= p.len()
            &&& p.take(t.len() as int) == v.take(t.len() as int)
            &&& forall|x: int| t.len() <= x < p.len() ==> #[trigger] p[x] == '.' || p[x] == '0'
        }),
        text::all_in(stem(v, i), Class::Ascii),
        text::trim_end_of(stem(v, i), Class::NotDigitNorDot) == stem(v, i),
        version::padded(stem(v, i)) == stem(v, i),
{
    let base = v.take(i);
    let t = text::trim_end_of(base, Class::NotDigitNorDot);
    let p = stem(v, i);
    text::lemma_span_back(base, Class::NotDigitNorDot);
    if t.len() > 0 {
        assert(t.last() == base[t.len() - 1]);
    }
    lemma_padded(t);
    assert(t =~= v.take(t.len() as int));
    assert forall|x: int| 0 <= x < p.len() implies Class::Ascii.has(#[trigger] p[x]) by {
        if x < t.len() {
            assert(p.take(t.len() as int)[x] == p[x]);
            assert(v.take(t.len() as int)[x] == v[x]);
        }
    }
    text::lemma_span_back_is(p, Class::NotDigitNorDot, 0);
    assert(p.take(p.len() as int) =~= p);
}

/// A marker in canonical form is ASCII.
proof fn lemma_form_ascii(keyword: Seq<char>, n: nat)
    requires
        is_keyword(keyword),
    ensures
        text::all_in(form(keyword, n), Class::Ascii),
        text::all_in(keyword, Class::Ascii),
        outside::lower(keyword) == keyword,
{
    lemma_keyword(keyword);
    lemma_decimal(n);
    let d = text::decimal(n);
    let m = form(keyword, n);
    let k = keyword.len();
    assert forall|y: int| 0 <= y < m.len() implies Class::Ascii.has(#[trigger] m[y]) by {
        if 1 <= y <= k {
            assert(m[y] == keyword[y - 1]);
        } else if y > k + 1 {
            assert(m[y] == d[y - k - 2]);
            assert(Class::Digit.has(d[y - k - 2]));
        }
    }
    assert(text::all_in(keyword, Class::Ascii));
    assert(outside::lower(keyword) =~= keyword);
}

/// The first marker of a version in canonical form is the one that was put there.
proof fn lemma_form_found(v: Seq<char>, i: int, u: Seq<char>, n: nat)
    requires
        text::all_in(v, Class::Ascii),
        outside::marker_at(v) == Some(i),
        0 <= i <= v.len(),
        outside::keyword_length(u) > 0,
    ensures
        ({
            let k = outside::keyword_length(u);
            let keyword = u.map_values(|c: char| outside::ascii_lower(c)).take(k);
            let w = stem(v, i) + form(keyword, n);
            &&& outside::marker_at(w) == Some(stem(v, i).len() as int)
            &&& w.skip(stem(v, i).len() as int) == form(keyword, n)
        }),
{
    let k = outside::keyword_length(u);
    let keyword = u.map_values(|c: char| outside::ascii_lower(c)).take(k);
    let t = text::trim_end_of(v.take(i), Class::NotDigitNorDot);
    let p = stem(v, i);
    let m = form(keyword, n);
    let w = p + m;
    lemma_stem(v, i);
    assert(w.take(p.len() as int) =~= p);
    assert(w[p.len() as int] == m[0]);
    lemma_form_groups(u, n);
    assert(w.skip(p.len() as int) =~= m);
    assert forall|j: int| 0 <= j < p.len() implies !outside::starts_with_marker(
        #[trigger] w.skip(j),
    ) by {
        lemma_no_marker_in_front(v, i, t.len() as int, p, w, j);
    }
    lemma_marker_is(w, p.len() as int);
}

/// A version in canonical form is read again as the parts it was made of.
proof fn lemma_form_read(v: Seq<char>, i: int, u: Seq<char>, n: nat)
    requires
        text::all_in(v, Class::Ascii),
        outside::marker_at(v) == Some(i),
        0 <= i <= v.len(),
        outside::keyword_length(u) > 0,
        n <= u64::MAX,
    ensures
        ({
            let k = outside::keyword_length(u);
            let keyword = u.map_values(|c: char| outside::ascii_lower(c)).take(k);
            let w = stem(v, i) + "-"@ + keyword + "."@ + text::decimal(n);
            version::canonical(w) == w
        }),
{
    let k = outside::keyword_length(u);
    let keyword = u.map_values(|c: char| outside::ascii_lower(c)).take(k);
    let p = stem(v, i);
    let d = text::decimal(n);
    let w = p + "-"@ + keyword + "."@ + d;
    reveal_strlit("-");
    reveal_strlit(".");
    assert(w =~= p + form(keyword, n));
    lemma_stem(v, i);
    lemma_form_found(v, i, u, n);
    lemma_form_groups(u, n);
    lemma_keyword_length(u);
    lemma_form_ascii(keyword, n);
    lemma_decimal(n);
    assert(text::all_in(w, Class::Ascii)) by {
        assert forall|x: int| 0 <= x < w.len() implies Class::Ascii.has(#[trigger] w[x]) by {
            if x < p.len() {
                assert(w[x] == p[x]);
            } else {
                assert(w[x] == form(keyword, n)[x - p.len()]);
            }
        }
    }
    assert(w.take(p.len() as int) =~= p);
    assert(Class::Digit.has(d[0]));
    assert(text::parse_uint(d, u64::MAX as nat) == Some(n));
}

/// What the canonical form of a version with a marker is made of: the text that
/// starts with the keyword, and the number.
proof fn lemma_canonical_of(v: Seq<char>, i: int) -> (r: (Seq<char>, nat))
    requires
        text::all_in(v, Class::Ascii),
        outside::marker_at(v) == Some(i),
    ensures
        0 <= i <= v.len(),
        outside::keyword_length(r.0) > 0,
        r.1 <= u64::MAX,
        ({
            let k = outside::keyword_length(r.0);
            let keyword = r.0.map_values(|c: char| outside::ascii_lower(c)).take(k);
            version::canonical(v) == stem(v, i) + "-"@ + keyword + "."@ + text::decimal(r.1)
        }),
{
    lemma_marker_at(v);
    let t = v.skip(i);
    let a = outside::keyword_start(t);
    let u = t.skip(a);
    let k = outside::keyword_length(u);
    let g = outside::marker_groups(t);
    lemma_keyword_length(u);
    let taken = t.subrange(a, a + k);
    assert(g[1] == Some(taken));
    assert(text::all_in(taken, Class::Ascii)) by {
        assert forall|x: int| 0 <= x < taken.len() implies Class::Ascii.has(#[trigger] taken[x]) by {
            assert(taken[x] == v[i + a + x]);
        }
    }
    assert(outside::lower(taken) =~= u.map_values(|c: char| outside::ascii_lower(c)).take(k));
    let n = match text::parse_uint(outside::group(g, 3), u64::MAX as nat) {
        Some(n) => n,
        None => 0,
    };
    (u, n)
}

/// The canonical form of a version with a marker: what is kept of the text before
/// it, a keyword and a number.
proof fn lemma_canonical_parts(v: Seq<char>, i: int) -> (r: (Seq<char>, nat))
    requires
        text::all_in(v, Class::Ascii),
        outside::marker_at(v) == Some(i),
    ensures
        0 <= i <= v.len(),
        is_keyword(r.0),
        r.1 <= u64::MAX,
        version::canonical(v) == stem(v, i) + form(r.0, r.1),
{
    let (u, n) = lemma_canonical_of(v, i);
    lemma_keyword_length(u);
    let keyword = u.map_values(|c: char| outside::ascii_lower(c)).take(outside::keyword_length(u));
    reveal_strlit("-");
    reveal_strlit(".");
    assert(stem(v, i) + "-"@ + keyword + "."@ + text::decimal(n) =~= stem(v, i) + form(keyword, n));
    (keyword, n)
}

/// Bringing an ASCII version into canonical form twice is bringing it there once.
pub proof fn law_canonical_form_is_final(v: Seq<char>)
    requires
        text::all_in(v, Class::Ascii),
    ensures
        version::canonical(version::canonical(v)) == version::canonical(v),
{
    if let Some(i) = outside::marker_at(v) {
        let (u, n) = lemma_canonical_of(v, i);
        lemma_form_read(v, i, u, n);
    }
}

/// An ASCII version that holds no pre-release keyword is in canonical form.
pub proof fn law_version_without_keyword_kept(v: Seq<char>)
    requires
        text::all_in(v, Class::Ascii),
        forall|w: Seq<char>| #[trigger] is_keyword(w) ==> !text::contains(outside::lower(v), w),
    ensures
        version::canonical(v) == v,
{
    lemma_marker_at(v);
    if let Some(i) = outside::marker_at(v) {
        let t = v.skip(i);
        let a = outside::keyword_start(t);
        let u = t.skip(a);
        let k = outside::keyword_length(u);
        lemma_keyword_length(u);
        let w = u.map_values(|c: char| outside::ascii_lower(c)).take(k);
        assert(is_keyword(w));
        assert(outside::lower(v).subrange(i + a, i + a + k) =~= w);
        assert(text::occurs_at(outside::lower(v), w, i + a));
    }
}

/// A number in base ten is a plain number, without a zero in front.
pub proof fn lemma_decimal_plain(n: nat)
    requires
        n <= u64::MAX,
    ensures
        outside::is_plain_number(text::decimal(n)),
{
    lemma_decimal(n);
    lemma_decimal_front(n);
}

proof fn lemma_decimal_front(n: nat)
    ensures
        text::decimal(n).len() > 0,
        n > 0 ==> text::decimal(n)[0] != '0',
        text::decimal(n).len() > 1 ==> n > 0,
    decreases n,
{
    if n >= 10 {
        lemma_decimal_front(n / 10);
        assert(text::decimal(n)[0] == text::decimal(n / 10)[0]);
    } else {
        let c = (n + '0' as u32) as char;
        assert(c as u32 == n + 48);
    }
}

/// A release with a marker behind it is taken apart at the dash and at the dot.
proof fn lemma_marked_release(release: Seq<char>, keyword: Seq<char>, n: nat)
    requires
        outside::release_of(release) is Some,
        is_keyword(keyword),
        n <= u64::MAX,
    ensures
        outside::is_marked_release(release + form(keyword, n)),
        outside::is_prerelease_of(release + form(keyword, n), release),
        outside::release_of(release + form(keyword, n)) is None,
{
    let d = text::decimal(n);
    let m = form(keyword, n);
    let s = release + m;
    let rest = keyword + seq!['.'] + d;
    reveal_strlit("-");
    reveal_strlit(".");
    lemma_keyword(keyword);
    lemma_decimal_plain(n);
    lemma_release_text(release);
    lemma_first_char(release, '-', rest);
    assert("-"@ =~= seq!['-']);
    assert("."@ =~= seq!['.']);
    assert(s =~= release + seq!['-'] + rest);
    assert(s.take(release.len() as int) =~= release);
    assert(s.skip(release.len() as int + 1) =~= rest);
    assert forall|i: int| 0 <= i < keyword.len() implies keyword[i] != '.' by {}
    lemma_first_char(keyword, '.', d);
    assert(rest.take(keyword.len() as int) =~= keyword);
    assert(rest.skip(keyword.len() as int + 1) =~= d);
    assert((release + seq!['-']) =~= s.subrange(0, release.len() as int + 1));
    if outside::release_of(s) is Some {
        lemma_release_text(s);
        assert(s[release.len() as int] == '-');
    }
}

/// A release holds digits and dots only.
proof fn lemma_release_text(s: Seq<char>)
    requires
        outside::release_of(s) is Some,
    ensures
        forall|i: int| 0 <= i < s.len() ==> Class::DigitOrDot.has(#[trigger] s[i]),
{
    let p = text::split_on(s, '.');
    assert forall|i: int| 0 <= i < p.len() implies text::all_in(#[trigger] p[i], Class::Digit) by {
        assert(i == 0 || i == 1 || i == 2);
    }
    version::lemma_parts_in(s, '.', Class::Digit);
}

/// A character behind a text that does not hold it is found there.
pub proof fn lemma_first_char(x: Seq<char>, c: char, y: Seq<char>)
    requires
        forall|i: int| 0 <= i < x.len() ==> #[trigger] x[i] != c,
    ensures
        text::find(x + seq![c] + y, seq![c]) == Some(x.len() as int),
{
    let s = x + seq![c] + y;
    let n = x.len() as int;
    assert(s.subrange(n, n + 1) =~= seq![c]);
    assert forall|j: int| 0 <= j < n implies !#[trigger] text::occurs_at(s, seq![c], j) by {
        if text::occurs_at(s, seq![c], j) {
            assert(s.subrange(j, j + 1)[0] == x[j]);
        }
    }
    text::lemma_find_is(s, seq![c], n);
}

/// A version of plain numbers in canonical form, with a marker behind it, is
/// compared as the release with the marker behind it.
proof fn lemma_marked_normalized(p: Seq<char>, keyword: Seq<char>, n: nat)
    requires
        version::is_plain_version(p),
        is_keyword(keyword),
    ensures
        ({
            let c = p + form(keyword, n);
            &&& version::dotted(c) == c
            &&& text::before(c, "-"@) == p
            &&& version::normal_form(c) == version::three_parts(p) + form(keyword, n)
        }),
{
    let m = form(keyword, n);
    let c = p + m;
    let d = text::decimal(n);
    reveal_strlit("-");
    reveal_strlit("_");
    assert("-"@ =~= seq!['-']);
    version::lemma_numbers_text(p);
    lemma_keyword(keyword);
    lemma_decimal(n);
    assert forall|i: int| 0 <= i < p.len() implies #[trigger] p[i] != '-' && p[i] != '_' by {
        assert(Class::DigitOrDot.has(p[i]));
    }
    assert(c =~= p + seq!['-'] + (keyword + seq!['.'] + d));
    lemma_first_char(p, '-', keyword + seq!['.'] + d);
    assert(c.take(p.len() as int) =~= p);
    assert(c.skip(p.len() as int) =~= m);
    assert(!text::contains(c, "_"@)) by {
        if text::contains(c, "_"@) {
            let i = choose|i: int| text::occurs_at(c, "_"@, i);
            assert(c[i] == c.subrange(i, i + 1)[0]);
            if i < p.len() {
                assert(c[i] == p[i]);
            } else {
                let y = i - p.len();
                assert(c[i] == m[y]);
                if 1 <= y <= keyword.len() {
                    assert(m[y] == keyword[y - 1]);
                } else if y > keyword.len() + 1 {
                    assert(m[y] == d[y - keyword.len() - 2]);
                    assert(Class::Digit.has(d[y - keyword.len() - 2]));
                }
            }
        }
    }
}

/// The release that a version with a marker leads to: what stands before the
/// marker, up to its last digit or dot, without a `v` in front.
pub open spec fn release_of_marked(v: Seq<char>) -> Seq<char> {
    let w = text::trim_start_of(v, Class::Is('v'));
    text::trim_end_of(w.take(outside::marker_at(w)->0), Class::NotDigitNorDot)
}

/// A version of plain numbers is compared by its numeric part.
proof fn lemma_plain_three_parts(s: Seq<char>)
    requires
        version::is_plain_version(s),
    ensures
        version::normalized(s) == version::three_parts(s),
{
    version::lemma_numbers_text(s);
    version::lemma_digits_and_dots(s);
}

/// A pre-release is older than its release: an ASCII version with a marker, whose
/// text before the marker is plain numbers, is older than these numbers alone.  A
/// `v` in front does not count.
pub proof fn law_prerelease_is_older(v: Seq<char>)
    requires
        text::all_in(v, Class::Ascii),
        outside::marker_at(text::trim_start_of(v, Class::Is('v'))) is Some,
        version::is_plain_version(release_of_marked(v)),
    ensures
        version::version_sign(v, release_of_marked(v)) == -1,
        version::version_sign(release_of_marked(v), v) == 1,
        version::format_of(v) == version::format_of(release_of_marked(v)) ==> version::is_outdated(
            v,
            release_of_marked(v),
        ) && !version::is_outdated(release_of_marked(v), v),
{
    let w = text::trim_start_of(v, Class::Is('v'));
    text::lemma_span(v, Class::Is('v'));
    assert forall|j: int| 0 <= j < w.len() implies Class::Ascii.has(#[trigger] w[j]) by {
        assert(w[j] == v[text::span(v, Class::Is('v')) + j]);
    }
    let i = outside::marker_at(w)->0;
    let r = release_of_marked(v);
    let (keyword, n) = lemma_canonical_parts(w, i);
    let p = version::padded(r);
    let m = form(keyword, n);
    version::lemma_padded_numbers(r);
    version::lemma_numbers_normalized(r);
    version::lemma_numbers_normalized(p);
    lemma_marked_normalized(p, keyword, n);
    let release = version::normalized(r);
    lemma_plain_three_parts(r);
    assert(version::normalized(v) == release + m);
    lemma_marked_release(release, keyword, n);
    assert(version::semantic_sign(release + m, release) == -1);
    assert(version::semantic_sign(release, release + m) == 1);
    let x = text::split_on(p, '.');
    let y = text::split_on(r, '.');
    assert(version::numbers(v) =~= x) by {
        assert forall|j: int| 0 <= j < x.len() implies version::leading_number(#[trigger] x[j])
            == x[j] by {
            assert(outside::is_plain_number(x[j]));
            version::lemma_plain_number(x[j]);
        }
    }
    assert(version::part_at(x, 0) == version::part_at(y, 0));
    assert(version::part_at(x, 1) == version::part_at(y, 1));
    assert(version::part_at(x, 2) == version::part_at(y, 2));
    assert(version::further_sign(v, r) == 0);
    version::law_order_is_symmetric(v, r);
    version::law_not_both_outdated(v, r);
    version::lemma_further_sign_flips(v, r);
}

} // verus!

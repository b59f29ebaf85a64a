//! What the operations on texts are for.

use crate::laws_of_make;
use crate::text;
use crate::text::Class;
use vstd::prelude::*;

verus! {

/// Blanks, tabs and the characters that end lines are white space; what is printed
/// in ASCII is not.
pub proof fn law_white_space(c: char)
    ensures
        c == ' ' || c == '\t' || c == '\n' || c == '\r' ==> text::is_space(c),
        '!' <= c <= '~' ==> !text::is_space(c),
{
}

/// Trimming takes the white space off both ends and nothing else.
pub proof fn law_trim_takes_white_space(x: Seq<char>, t: Seq<char>, y: Seq<char>)
    requires
        text::all_in(x, Class::Space),
        text::all_in(y, Class::Space),
        t.len() > 0,
        !text::is_space(t[0]),
        !text::is_space(t.last()),
    ensures
        text::trim(x + t + y) == t,
        text::trim(x).len() == 0,
{
    let s = x + t + y;
    assert forall|j: int| 0 <= j < x.len() implies Class::Space.has(#[trigger] s[j]) by {
        assert(s[j] == x[j]);
    }
    assert(s[x.len() as int] == t[0]);
    text::lemma_span_is(s, Class::Space, x.len() as int);
    let u = s.skip(x.len() as int);
    assert(u =~= t + y);
    assert forall|j: int| u.len() - y.len() <= j < u.len() implies Class::Space.has(
        #[trigger] u[j],
    ) by {
        assert(u[j] == y[j - t.len()]);
    }
    assert(u[u.len() - y.len() - 1] == t.last());
    text::lemma_span_back_is(u, Class::Space, y.len() as int);
    assert(u.take(u.len() - y.len()) =~= t);
    text::lemma_span_is(x, Class::Space, x.len() as int);
    assert(x.skip(x.len() as int) =~= Seq::<char>::empty());
}

/// A trimmed text stays as it is.
pub proof fn law_trimmed_texts_stay(s: Seq<char>)
    ensures
        text::trim(text::trim(s)) == text::trim(s),
{
    let k = Class::Space;
    let n = text::span(s, k) as int;
    let t = text::trim_start_of(s, k);
    text::lemma_span(s, k);
    text::lemma_span_back(t, k);
    let r = text::trim(s);
    if r.len() > 0 {
        assert(t[0] == s[n]);
        assert(r[0] == t[0]);
        assert(r[r.len() - 1] == t[r.len() - 1]);
        text::lemma_span_is(r, k, 0);
        assert(r.skip(0) =~= r);
        text::lemma_span_back_is(r, k, 0);
        assert(r.take(r.len() as int) =~= r);
    } else {
        text::lemma_span(r, k);
        assert(text::trim_start_of(r, k) =~= r);
        text::lemma_span_back(r, k);
        assert(text::trim(r) =~= r);
    }
}

/// Replacing goes from one occurrence to the next: what stands before the first
/// one stays, it gives way, and replacing goes on behind it.  A text without one
/// stays.
pub proof fn law_replace_goes_on(s: Seq<char>, from: Seq<char>, to: Seq<char>)
    requires
        from.len() > 0,
    ensures
        match text::find(s, from) {
            Some(i) => text::replace(s, from, to) == s.take(i) + to + text::replace(
                s.skip(i + from.len()),
                from,
                to,
            ),
            None => text::replace(s, from, to) == s,
        },
    decreases s.len(),
{
    let none = Seq::<char>::empty();
    if text::occurs_at(s, from, 0) {
        assert(s.take(0) =~= none);
        assert(none + to =~= to);
    } else if s.len() > 0 {
        law_replace_goes_on(s.skip(1), from, to);
        text::lemma_find(s.skip(1), from);
        if let Some(i) = text::find(s.skip(1), from) {
            assert(s.skip(1).skip(i + from.len()) =~= s.skip(i + 1 + from.len()));
            assert(seq![s[0]] + (s.skip(1).take(i) + to + text::replace(
                s.skip(i + 1 + from.len()),
                from,
                to,
            )) =~= s.take(i + 1) + to + text::replace(s.skip(i + 1 + from.len()), from, to));
        } else {
            assert(seq![s[0]] + s.skip(1) =~= s);
        }
    } else {
        assert(s =~= none);
    }
}

/// White space parts words: the words of two texts with white space between them
/// are those of the one and then those of the other.
pub proof fn law_white_space_parts_words(x: Seq<char>, gap: char, y: Seq<char>)
    requires
        text::is_space(gap),
    ensures
        text::words(x + seq![gap] + y) == text::words(x) + text::words(y),
    decreases x.len(),
{
    let s = x + seq![gap] + y;
    if x.len() == 0 {
        assert(s[0] == gap);
        assert(s.skip(1) =~= y);
        text::lemma_words_gap(s);
        assert(text::words(x) =~= Seq::<Seq<char>>::empty());
        assert(text::words(x) + text::words(y) =~= text::words(y));
    } else if text::is_space(x[0]) {
        assert(s[0] == x[0]);
        assert(s.skip(1) =~= x.skip(1) + seq![gap] + y);
        text::lemma_words_gap(s);
        text::lemma_words_gap(x);
        law_white_space_parts_words(x.skip(1), gap, y);
    } else {
        let n = text::span(x, Class::NotSpace) as int;
        text::lemma_span(x, Class::NotSpace);
        let w = x.take(n);
        let rest = x.skip(n);
        assert(Class::NotSpace.has(x[0]));
        assert(rest.len() > 0 ==> rest[0] == x[n]);
        assert(w + rest =~= x);
        let after = rest + seq![gap] + y;
        assert(w + after =~= s);
        assert(after[0] == (if rest.len() > 0 {
            rest[0]
        } else {
            gap
        }));
        text::lemma_words_front(w, rest);
        text::lemma_words_front(w, after);
        law_white_space_parts_words(rest, gap, y);
        assert(seq![w] + (text::words(rest) + text::words(y)) =~= seq![w] + text::words(rest)
            + text::words(y));
    }
}

/// A word is its own only word.
pub proof fn law_word_is_one_word(w: Seq<char>)
    requires
        w.len() > 0,
        text::all_in(w, Class::NotSpace),
    ensures
        text::words(w) == seq![w],
{
    let none = Seq::<char>::empty();
    text::lemma_words_front(w, none);
    assert(w + none =~= w);
    assert(text::words(none) =~= Seq::<Seq<char>>::empty());
    assert(seq![w] + text::words(none) =~= seq![w]);
}

/// What stands before, behind and between marks.
pub proof fn law_marks_part_texts(x: Seq<char>, c: char, y: Seq<char>, z: Seq<char>)
    requires
        !x.contains(c),
        !y.contains(c),
    ensures
        text::before(x, seq![c]) == x,
        text::after(x, seq![c]).len() == 0,
        text::between(x, seq![c]).len() == 0,
        text::before(x + seq![c] + z, seq![c]) == x,
        text::after(x + seq![c] + z, seq![c]) == z,
        text::between(x + seq![c] + y + seq![c] + z, seq![c]) == y,
        text::between(x + seq![c] + y, seq![c]) == y,
{
    let mark = seq![c];
    laws_of_make::lemma_not_found(x, c, mark);
    laws_of_make::lemma_not_found(y, c, mark);
    laws_of_make::lemma_found(x, c, z, mark);
    laws_of_make::lemma_found(x, c, y, mark);
    laws_of_make::lemma_found(y, c, z, mark);
    let n = x.len() as int;
    let s = x + mark + z;
    assert(s.take(n) =~= x);
    assert(s.skip(n + 1) =~= z);
    let rest = y + mark + z;
    laws_of_make::lemma_found(x, c, rest, mark);
    let t = x + mark + y + mark + z;
    assert(t =~= x + mark + rest);
    assert(t.skip(n + 1) =~= rest);
    assert(rest.take(y.len() as int) =~= y);
    let u = x + mark + y;
    assert(u.skip(n + 1) =~= y);
}

/// A pattern is taken off an end as often as it stands there.
pub proof fn law_ends_are_taken_off(x: Seq<char>, p: Seq<char>)
    requires
        p.len() > 0,
    ensures
        text::trim_end_matches(x + p, p) == text::trim_end_matches(x, p),
        text::trim_start_matches(p + x, p) == text::trim_start_matches(x, p),
        !p.is_suffix_of(x) ==> text::trim_end_matches(x, p) == x,
        !p.is_prefix_of(x) ==> text::trim_start_matches(x, p) == x,
{
    let a = x + p;
    let b = p + x;
    assert(a.subrange(a.len() - p.len(), a.len() as int) =~= p);
    assert(a.take(a.len() - p.len()) =~= x);
    assert(b.subrange(0, p.len() as int) =~= p);
    assert(b.skip(p.len() as int) =~= x);
}

/// A number is read as what its digits write, with or without a `+` in front, if
/// it is not too large; a text with any other character is none.
pub proof fn law_numbers_are_read(n: nat, max: nat, s: Seq<char>, i: int)
    requires
        0 <= i < s.len(),
        !text::is_digit(s[i]),
        i == 0 ==> s[i] != '+',
    ensures
        text::parse_uint(text::decimal(n), max) == (if n <= max {
            Some(n)
        } else {
            None
        }),
        text::parse_uint(seq!['+'] + text::decimal(n), max) == (if n <= max {
            Some(n)
        } else {
            None
        }),
        text::parse_uint(s, max) is None,
        text::parse_uint(Seq::empty(), max) is None,
{
    laws_of_make::lemma_number_read(n, max);
    let d = text::decimal(n);
    crate::markers::lemma_decimal(n);
    let p = seq!['+'] + d;
    assert(p.skip(1) =~= d);
    if s[0] == '+' {
        assert(s.skip(1)[i - 1] == s[i]);
        assert(!Class::Digit.has(s.skip(1)[i - 1]));
    } else {
        assert(!Class::Digit.has(s[i]));
    }
}

/// Of an ASCII text as many characters are kept as bytes are asked for.
pub proof fn law_bytes_of_ascii(s: Seq<char>, n: int)
    requires
        text::all_in(s, Class::Ascii),
        0 <= n,
    ensures
        text::byte_prefix(s, n) == (if n < s.len() {
            s.take(n)
        } else {
            s
        }),
    decreases s.len(),
{
    if s.len() > 0 {
        assert(Class::Ascii.has(s[0]));
        let t = s.skip(1);
        assert forall|i: int| 0 <= i < t.len() implies Class::Ascii.has(#[trigger] t[i]) by {
            assert(t[i] == s[i + 1]);
        }
        if n > 0 {
            law_bytes_of_ascii(t, n - 1);
            assert(seq![s[0]] + t =~= s);
            if n < s.len() {
                assert(seq![s[0]] + t.take(n - 1) =~= s.take(n));
            }
        } else {
            assert(s.take(0) =~= Seq::<char>::empty());
        }
    }
}

/// A line ends before `\n`, or before `\r\n`; what follows the last line feed is the
/// last line, if there is anything.
pub proof fn law_lines_end_in_feeds(a: Seq<char>, rest: Seq<char>)
    requires
        !a.contains('\n'),
    ensures
        a.len() > 0 && a.last() == '\r' ==> text::lines(a + seq!['\n'] + rest) == seq![
            a.drop_last(),
        ] + text::lines(rest),
        a.len() == 0 || a.last() != '\r' ==> text::lines(a + seq!['\n'] + rest) == seq![a]
            + text::lines(rest),
        a.len() > 0 ==> text::lines(a) == seq![a],
        text::lines(Seq::empty()).len() == 0,
{
    let s = a + seq!['\n'] + rest;
    let n = a.len() as int;
    assert forall|i: int| 0 <= i < n implies Class::Not('\n').has(#[trigger] a[i]) by {
        assert(a.contains(a[i]));
    }
    assert forall|i: int| 0 <= i < n implies Class::Not('\n').has(#[trigger] s[i]) by {
        assert(s[i] == a[i]);
    }
    assert(s[n] == '\n');
    text::lemma_span_is(s, Class::Not('\n'), n);
    text::lemma_span_is(a, Class::Not('\n'), n);
    assert(s.take(n) =~= a);
    assert(s.skip(n + 1) =~= rest);
}

/// What the classes of characters hold.
pub proof fn law_classes_of_characters(c: char)
    ensures
        Class::Digit.has(c) <==> '0' <= c <= '9',
        Class::NotDigit.has(c) <==> c < '0' || '9' < c,
        Class::Letter.has(c) <==> 'a' <= c <= 'z' || 'A' <= c <= 'Z',
        Class::NotLetter.has(c) <==> !('a' <= c <= 'z') && !('A' <= c <= 'Z'),
        Class::Hex.has(c) <==> '0' <= c <= '9' || 'a' <= c <= 'f' || 'A' <= c <= 'F',
        Class::LowerHex.has(c) <==> '0' <= c <= '9' || 'a' <= c <= 'f',
        Class::Ident.has(c) <==> '0' <= c <= '9' || 'a' <= c <= 'z' || 'A' <= c <= 'Z' || c == '_',
        Class::DigitOrDot.has(c) <==> '0' <= c <= '9' || c == '.',
        Class::NotDigitNorDot.has(c) <==> (c < '0' || '9' < c) && c != '.',
        Class::Separator.has(c) <==> c == '-' || c == '_' || c == '.',
        Class::Ascii.has(c) <==> c <= '\x7f',
        Class::Space.has(c) <==> !Class::NotSpace.has(c),
        forall|x: char| #[trigger] Class::Is(x).has(c) <==> c == x,
        forall|x: char| #[trigger] Class::Not(x).has(c) <==> c != x,
        forall|x: char, y: char| #[trigger] Class::Either(x, y).has(c) <==> c == x || c == y,
        forall|x: char, y: char| #[trigger] Class::Neither(x, y).has(c) <==> c != x && c != y,
{
}

/// A character is kept if as many bytes are left as UTF-8 takes for it: one to four.
pub proof fn law_bytes_of_characters(c: char, rest: Seq<char>, n: int)
    ensures
        ({
            let kept = text::byte_prefix(seq![c] + rest, n);
            let width: int = if c <= '\x7f' {
                1
            } else if c <= '\u{7ff}' {
                2
            } else if c <= '\u{ffff}' {
                3
            } else {
                4
            };
            &&& n < width ==> kept.len() == 0
            &&& n >= width ==> kept == seq![c] + text::byte_prefix(rest, n - width)
        }),
{
    let s = seq![c] + rest;
    assert(s.skip(1) =~= rest);
}

} // verus!

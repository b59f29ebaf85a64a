//! Text as sequences of characters: what trimming, splitting, searching and
//! replacing mean, and executable functions that do exactly that.

use vstd::prelude::*;

verus! {

/// `String::push` appends one character at the end of the string.
pub assume_specification[ String::push ](s: &mut String, c: char)
    ensures
        final(s)@ == old(s)@.push(c),
;

// ───────────────────────────── character classes ─────────────────────────────

/// Unicode `White_Space`.
pub open spec fn is_space(c: char) -> bool {
    let n = c as u32;
    ||| 0x9 <= n <= 0xD
    ||| n == 0x20
    ||| n == 0x85
    ||| n == 0xA0
    ||| n == 0x1680
    ||| 0x2000 <= n <= 0x200A
    ||| n == 0x2028
    ||| n == 0x2029
    ||| n == 0x202F
    ||| n == 0x205F
    ||| n == 0x3000
}

/// An ASCII decimal digit.
pub open spec fn is_digit(c: char) -> bool {
    '0' <= c <= '9'
}

/// An ASCII letter.
pub open spec fn is_letter(c: char) -> bool {
    ('a' <= c <= 'z') || ('A' <= c <= 'Z')
}

/// An ASCII hexadecimal digit, in either case.
pub open spec fn is_hex_digit(c: char) -> bool {
    is_digit(c) || ('a' <= c <= 'f') || ('A' <= c <= 'F')
}

/// A set of characters that a scan runs over.
#[derive(Debug, Clone, Copy)]
pub enum Class {
    /// Unicode white space
    Space,
    /// anything but Unicode white space
    NotSpace,
    /// one character
    Is(char),
    /// anything but one character
    Not(char),
    /// either of two characters
    Either(char, char),
    /// anything but two characters
    Neither(char, char),
    /// an ASCII digit
    Digit,
    /// anything but an ASCII digit
    NotDigit,
    /// an ASCII digit or a dot
    DigitOrDot,
    /// neither an ASCII digit nor a dot
    NotDigitNorDot,
    /// an ASCII letter
    Letter,
    /// anything but an ASCII letter
    NotLetter,
    /// an ASCII hexadecimal digit
    Hex,
    /// an ASCII hexadecimal digit, letters in lower case
    LowerHex,
    /// an ASCII letter or digit or an underscore
    Ident,
    /// a dash, an underscore or a dot
    Separator,
    /// an ASCII character
    Ascii,
}

impl Class {
    /// Whether the class holds a character.
    pub open spec fn has(self, c: char) -> bool {
        match self {
            Class::Space => is_space(c),
            Class::NotSpace => !is_space(c),
            Class::Is(x) => c == x,
            Class::Not(x) => c != x,
            Class::Either(x, y) => c == x || c == y,
            Class::Neither(x, y) => c != x && c != y,
            Class::Digit => is_digit(c),
            Class::NotDigit => !is_digit(c),
            Class::DigitOrDot => is_digit(c) || c == '.',
            Class::NotDigitNorDot => !is_digit(c) && c != '.',
            Class::Letter => is_letter(c),
            Class::NotLetter => !is_letter(c),
            Class::Hex => is_hex_digit(c),
            Class::LowerHex => is_digit(c) || ('a' <= c <= 'f'),
            Class::Ident => is_digit(c) || is_letter(c) || c == '_',
            Class::Separator => c == '-' || c == '_' || c == '.',
            Class::Ascii => (c as u32) < 128,
        }
    }

    /// Whether the class holds a character.
    pub fn holds(self, c: char) -> (r: bool)
        ensures
            r == self.has(c),
    {
        match self {
            Class::Space => space(c),
            Class::NotSpace => !space(c),
            Class::Is(x) => c == x,
            Class::Not(x) => c != x,
            Class::Either(x, y) => c == x || c == y,
            Class::Neither(x, y) => c != x && c != y,
            Class::Digit => digit(c),
            Class::NotDigit => !digit(c),
            Class::DigitOrDot => digit(c) || c == '.',
            Class::NotDigitNorDot => !digit(c) && c != '.',
            Class::Letter => letter(c),
            Class::NotLetter => !letter(c),
            Class::Hex => digit(c) || ('a' <= c && c <= 'f') || ('A' <= c && c <= 'F'),
            Class::LowerHex => digit(c) || ('a' <= c && c <= 'f'),
            Class::Ident => digit(c) || letter(c) || c == '_',
            Class::Separator => c == '-' || c == '_' || c == '.',
            Class::Ascii => (c as u32) < 128,
        }
    }
}

/// Whether a character is Unicode white space.
pub fn space(c: char) -> (r: bool)
    ensures
        r == is_space(c),
{
    let n = c as u32;
    (0x9 <= n && n <= 0xD) || n == 0x20 || n == 0x85 || n == 0xA0 || n == 0x1680 || (0x2000 <= n
        && n <= 0x200A) || n == 0x2028 || n == 0x2029 || n == 0x202F || n == 0x205F || n == 0x3000
}

/// Whether a character is an ASCII digit.
pub fn digit(c: char) -> (r: bool)
    ensures
        r == is_digit(c),
{
    '0' <= c && c <= '9'
}

/// Whether a character is an ASCII letter.
pub fn letter(c: char) -> (r: bool)
    ensures
        r == is_letter(c),
{
    ('a' <= c && c <= 'z') || ('A' <= c && c <= 'Z')
}

// ───────────────────────────── what a text holds ─────────────────────────────

/// The texts that a vector of strings holds.
pub open spec fn texts(v: Seq<String>) -> Seq<Seq<char>> {
    Seq::new(v.len(), |i: int| v[i]@)
}

/// The text that an optional string holds.
pub open spec fn opt_text(o: Option<String>) -> Option<Seq<char>> {
    match o {
        Some(s) => Some(s@),
        None => None,
    }
}

/// Pushing a string pushes its text.
pub broadcast proof fn lemma_texts_push(v: Seq<String>, s: String)
    ensures
        #[trigger] texts(v.push(s)) == texts(v).push(s@),
{
    assert(texts(v.push(s)) =~= texts(v).push(s@));
}

/// The length of the longest prefix whose characters all belong to the class.
pub open spec fn span(s: Seq<char>, k: Class) -> nat
    decreases s.len(),
{
    if s.len() > 0 && k.has(s[0]) {
        1 + span(s.skip(1), k)
    } else {
        0
    }
}

/// The length of the longest suffix whose characters all belong to the class.
pub open spec fn span_back(s: Seq<char>, k: Class) -> nat
    decreases s.len(),
{
    if s.len() > 0 && k.has(s.last()) {
        1 + span_back(s.drop_last(), k)
    } else {
        0
    }
}

/// The text without its leading characters of the class.
pub open spec fn trim_start_of(s: Seq<char>, k: Class) -> Seq<char> {
    s.skip(span(s, k) as int)
}

/// The text without its trailing characters of the class.
pub open spec fn trim_end_of(s: Seq<char>, k: Class) -> Seq<char> {
    s.take(s.len() - span_back(s, k))
}

/// The text without leading and trailing white space.
pub open spec fn trim(s: Seq<char>) -> Seq<char> {
    trim_end_of(trim_start_of(s, Class::Space), Class::Space)
}

/// Whether `pat` stands in `s` at position `i`.
pub open spec fn occurs_at(s: Seq<char>, pat: Seq<char>, i: int) -> bool {
    0 <= i && i + pat.len() <= s.len() && s.subrange(i, i + pat.len()) == pat
}

/// Whether `pat` stands somewhere in `s`.
pub open spec fn contains(s: Seq<char>, pat: Seq<char>) -> bool {
    exists|i: int| occurs_at(s, pat, i)
}

/// The first position at which `pat` stands in `s`.
pub open spec fn find(s: Seq<char>, pat: Seq<char>) -> Option<int>
    decreases s.len(),
{
    if occurs_at(s, pat, 0) {
        Some(0int)
    } else if s.len() == 0 {
        None
    } else {
        match find(s.skip(1), pat) {
            Some(i) => Some(i + 1),
            None => None,
        }
    }
}

/// The last position at which `pat` stands in `s`.
pub open spec fn rfind(s: Seq<char>, pat: Seq<char>) -> Option<int>
    decreases s.len(),
{
    if occurs_at(s, pat, s.len() - pat.len()) {
        Some(s.len() - pat.len())
    } else if s.len() == 0 {
        None
    } else {
        rfind(s.drop_last(), pat)
    }
}

/// The text with every occurrence of `from`, taken from left to right without
/// overlap, replaced by `to`.  An empty `from` stands before every character
/// and at the end.
pub open spec fn replace(s: Seq<char>, from: Seq<char>, to: Seq<char>) -> Seq<char>
    decreases s.len(),
{
    if from.len() == 0 {
        if s.len() == 0 {
            to
        } else {
            to + seq![s[0]] + replace(s.skip(1), from, to)
        }
    } else if s.len() == 0 {
        Seq::empty()
    } else if occurs_at(s, from, 0) {
        to + replace(s.skip(from.len() as int), from, to)
    } else {
        seq![s[0]] + replace(s.skip(1), from, to)
    }
}

/// The maximal runs of characters of the class, in order.
pub open spec fn runs(s: Seq<char>, k: Class, gap: Class) -> Seq<Seq<char>>
    decreases s.len(),
{
    let t = trim_start_of(s, gap);
    let n = span(t, k);
    if n == 0 || n > t.len() || t.len() > s.len() {
        Seq::empty()
    } else {
        seq![t.take(n as int)] + runs(t.skip(n as int), k, gap)
    }
}

/// The words of a text: its maximal runs without white space.
pub open spec fn words(s: Seq<char>) -> Seq<Seq<char>> {
    runs(s, Class::NotSpace, Class::Space)
}

/// The maximal runs of ASCII digits.
pub open spec fn digit_runs(s: Seq<char>) -> Seq<Seq<char>> {
    runs(s, Class::Digit, Class::NotDigit)
}

/// The parts between the occurrences of a character.
pub open spec fn split_on(s: Seq<char>, c: char) -> Seq<Seq<char>>
    decreases s.len(),
{
    let n = span(s, Class::Not(c));
    if s.len() == 0 || n >= s.len() {
        seq![s]
    } else {
        proof {
            lemma_span(s, Class::Not(c));
        }
        seq![s.take(n as int)] + split_on(s.skip((n + 1) as int), c)
    }
}

/// The texts one after the other with a separator between them.
pub open spec fn join(parts: Seq<Seq<char>>, sep: Seq<char>) -> Seq<char>
    decreases parts.len(),
{
    if parts.len() == 0 {
        Seq::empty()
    } else if parts.len() == 1 {
        parts[0]
    } else {
        join(parts.drop_last(), sep) + sep + parts.last()
    }
}

/// A line's text without the carriage return that ends it.
pub open spec fn strip_cr(s: Seq<char>) -> Seq<char> {
    if s.len() > 0 && s.last() == '\r' {
        s.drop_last()
    } else {
        s
    }
}

/// The lines of a text.  A line ends in `\n` or `\r\n`, the last one may end
/// with the text; the line ending is not part of the line.
pub open spec fn lines(s: Seq<char>) -> Seq<Seq<char>>
    decreases s.len(),
{
    let n = span(s, Class::Not('\n'));
    if s.len() == 0 {
        Seq::empty()
    } else if n >= s.len() {
        seq![s]
    } else {
        seq![strip_cr(s.take(n as int))] + lines(s.skip((n + 1) as int))
    }
}

/// The text without as many repetitions of `pat` as stand at its end.
pub open spec fn trim_end_matches(s: Seq<char>, pat: Seq<char>) -> Seq<char>
    decreases s.len(),
{
    if pat.len() > 0 && pat.is_suffix_of(s) {
        trim_end_matches(s.take(s.len() - pat.len()), pat)
    } else {
        s
    }
}

/// The text without as many repetitions of `pat` as stand at its start.
pub open spec fn trim_start_matches(s: Seq<char>, pat: Seq<char>) -> Seq<char>
    decreases s.len(),
{
    if pat.len() > 0 && pat.is_prefix_of(s) {
        trim_start_matches(s.skip(pat.len() as int), pat)
    } else {
        s
    }
}

/// The text before the first occurrence of `pat`, or the whole text.
pub open spec fn before(s: Seq<char>, pat: Seq<char>) -> Seq<char> {
    match find(s, pat) {
        Some(i) => s.take(i),
        None => s,
    }
}

/// The text after the first occurrence of `pat`, or nothing.
pub open spec fn after(s: Seq<char>, pat: Seq<char>) -> Seq<char> {
    match find(s, pat) {
        Some(i) => s.skip(i + pat.len()),
        None => Seq::empty(),
    }
}

/// The text between the first and the second occurrence of `pat`, or after the
/// first one if there is only one, or nothing if there is none.
pub open spec fn between(s: Seq<char>, pat: Seq<char>) -> Seq<char> {
    match find(s, pat) {
        Some(i) => before(s.skip(i + pat.len()), pat),
        None => Seq::empty(),
    }
}

/// Whether every character belongs to the class.
pub open spec fn all_in(s: Seq<char>, k: Class) -> bool {
    forall|i: int| 0 <= i < s.len() ==> k.has(#[trigger] s[i])
}

/// Whether some character belongs to the class.
pub open spec fn any_in(s: Seq<char>, k: Class) -> bool {
    exists|i: int| 0 <= i < s.len() && k.has(#[trigger] s[i])
}

/// Whether the first character is there and belongs to the class.
pub open spec fn starts_in(s: Seq<char>, k: Class) -> bool {
    s.len() > 0 && k.has(s[0])
}

// ────────────────────────────────── numbers ──────────────────────────────────

/// The value of an ASCII digit.
pub open spec fn digit_value(c: char) -> nat {
    (c as u32 - '0' as u32) as nat
}

/// The number that a text of ASCII digits writes in base ten.
pub open spec fn digits_value(s: Seq<char>) -> nat
    decreases s.len(),
{
    if s.len() == 0 {
        0
    } else {
        digits_value(s.drop_last()) * 10 + digit_value(s.last())
    }
}

/// The number that a text writes: an optional `+`, then at least one digit, at
/// most `max`.
pub open spec fn parse_uint(s: Seq<char>, max: nat) -> Option<nat> {
    let t = if s.len() > 0 && s[0] == '+' {
        s.skip(1)
    } else {
        s
    };
    if t.len() > 0 && all_in(t, Class::Digit) && digits_value(t) <= max {
        Some(digits_value(t))
    } else {
        None
    }
}

/// The base ten text of a number.
pub open spec fn decimal(n: nat) -> Seq<char>
    decreases n,
{
    if n < 10 {
        seq![(n + '0' as u32) as char]
    } else {
        decimal(n / 10).push((n % 10 + '0' as u32) as char)
    }
}

// ──────────────────────────────── UTF-8 widths ───────────────────────────────

/// The number of bytes that a character takes in UTF-8.
pub open spec fn utf8_width(c: char) -> nat {
    let n = c as u32;
    if n < 0x80 {
        1
    } else if n < 0x800 {
        2
    } else if n < 0x10000 {
        3
    } else {
        4
    }
}

/// The longest prefix that takes at most `n` bytes in UTF-8.
pub open spec fn byte_prefix(s: Seq<char>, n: int) -> Seq<char>
    decreases s.len(),
{
    if s.len() == 0 || utf8_width(s[0]) > n {
        Seq::empty()
    } else {
        seq![s[0]] + byte_prefix(s.skip(1), n - utf8_width(s[0]))
    }
}

// ─────────────────────────────── lemmas: spans ───────────────────────────────

/// What a span is: its characters are of the class, the next one is not.
pub proof fn lemma_span(s: Seq<char>, k: Class)
    ensures
        0 <= span(s, k) <= s.len(),
        forall|j: int| 0 <= j < span(s, k) ==> k.has(#[trigger] s[j]),
        span(s, k) < s.len() ==> !k.has(s[span(s, k) as int]),
    decreases s.len(),
{
    if s.len() > 0 && k.has(s[0]) {
        lemma_span(s.skip(1), k);
        assert forall|j: int| 0 <= j < span(s, k) implies k.has(#[trigger] s[j]) by {
            if j > 0 {
                assert(s[j] == s.skip(1)[j - 1]);
            }
        }
    }
}

/// A length with the properties of a span is the span.
pub proof fn lemma_span_is(s: Seq<char>, k: Class, n: int)
    requires
        0 <= n <= s.len(),
        forall|j: int| 0 <= j < n ==> k.has(#[trigger] s[j]),
        n < s.len() ==> !k.has(s[n]),
    ensures
        span(s, k) == n,
{
    lemma_span(s, k);
    if span(s, k) < n {
        assert(k.has(s[span(s, k) as int]));
    }
}

/// What a back span is: its characters are of the class, the one before is not.
pub proof fn lemma_span_back(s: Seq<char>, k: Class)
    ensures
        span_back(s, k) <= s.len(),
        forall|j: int| s.len() - span_back(s, k) <= j < s.len() ==> k.has(#[trigger] s[j]),
        span_back(s, k) < s.len() ==> !k.has(s[s.len() - span_back(s, k) - 1]),
    decreases s.len(),
{
    if s.len() > 0 && k.has(s.last()) {
        lemma_span_back(s.drop_last(), k);
        assert forall|j: int| s.len() - span_back(s, k) <= j < s.len() implies k.has(
            #[trigger] s[j],
        ) by {
            if j < s.len() - 1 {
                assert(s[j] == s.drop_last()[j]);
            }
        }
    }
}

/// A length with the properties of a back span is the back span.
pub proof fn lemma_span_back_is(s: Seq<char>, k: Class, n: int)
    requires
        0 <= n <= s.len(),
        forall|j: int| s.len() - n <= j < s.len() ==> k.has(#[trigger] s[j]),
        n < s.len() ==> !k.has(s[s.len() - n - 1]),
    ensures
        span_back(s, k) == n,
{
    lemma_span_back(s, k);
    if span_back(s, k) < n {
        assert(k.has(s[s.len() - span_back(s, k) - 1]));
    }
}

// ────────────────────────────── lemmas: searching ────────────────────────────

/// What a find returns: an occurrence with none before it, or nothing if there
/// is no occurrence.
pub proof fn lemma_find(s: Seq<char>, pat: Seq<char>)
    ensures
        match find(s, pat) {
            Some(i) => occurs_at(s, pat, i) && forall|j: int|
                0 <= j < i ==> !#[trigger] occurs_at(s, pat, j),
            None => forall|j: int| !#[trigger] occurs_at(s, pat, j),
        },
    decreases s.len(),
{
    if !occurs_at(s, pat, 0) && s.len() > 0 {
        lemma_find(s.skip(1), pat);
        assert forall|j: int| j >= 1 implies #[trigger] occurs_at(s, pat, j) == occurs_at(
            s.skip(1),
            pat,
            j - 1,
        ) by {
            if j + pat.len() <= s.len() {
                assert(s.subrange(j, j + pat.len()) =~= s.skip(1).subrange(
                    j - 1,
                    j - 1 + pat.len(),
                ));
            }
        }
        if find(s.skip(1), pat) is Some {
            let i = find(s.skip(1), pat)->0 + 1;
            assert(occurs_at(s, pat, i));
        }
    }
}

/// An occurrence with none before it is what a find returns.
pub proof fn lemma_find_is(s: Seq<char>, pat: Seq<char>, i: int)
    requires
        occurs_at(s, pat, i),
        forall|j: int| 0 <= j < i ==> !#[trigger] occurs_at(s, pat, j),
    ensures
        find(s, pat) == Some(i),
{
    lemma_find(s, pat);
    assert(find(s, pat) is Some);
    if find(s, pat)->0 < i {
        assert(!occurs_at(s, pat, find(s, pat)->0));
    }
}

/// A text holds a pattern exactly when a find finds it.
pub proof fn lemma_contains(s: Seq<char>, pat: Seq<char>)
    ensures
        contains(s, pat) == (find(s, pat) is Some),
{
    lemma_find(s, pat);
    if find(s, pat) is Some {
        assert(occurs_at(s, pat, find(s, pat)->0));
    }
}

/// What a reverse find returns: an occurrence with none after it, or nothing if
/// there is no occurrence.
pub proof fn lemma_rfind(s: Seq<char>, pat: Seq<char>)
    ensures
        match rfind(s, pat) {
            Some(i) => occurs_at(s, pat, i) && forall|j: int|
                i < j ==> !#[trigger] occurs_at(s, pat, j),
            None => forall|j: int| !#[trigger] occurs_at(s, pat, j),
        },
    decreases s.len(),
{
    if !occurs_at(s, pat, s.len() - pat.len()) && s.len() > 0 {
        let t = s.drop_last();
        lemma_rfind(t, pat);
        assert forall|j: int| j != s.len() - pat.len() implies #[trigger] occurs_at(s, pat, j)
            == occurs_at(t, pat, j) by {
            if 0 <= j && j + pat.len() <= t.len() {
                assert(s.subrange(j, j + pat.len()) =~= t.subrange(j, j + pat.len()));
            }
        }
        if rfind(t, pat) is Some {
            assert(occurs_at(s, pat, rfind(t, pat)->0));
        }
    }
}

/// An occurrence with none after it is what a reverse find returns.
pub proof fn lemma_rfind_is(s: Seq<char>, pat: Seq<char>, i: int)
    requires
        occurs_at(s, pat, i),
        forall|j: int| i < j ==> !#[trigger] occurs_at(s, pat, j),
    ensures
        rfind(s, pat) == Some(i),
{
    lemma_rfind(s, pat);
    assert(rfind(s, pat) is Some);
    if rfind(s, pat)->0 > i {
        assert(!occurs_at(s, pat, rfind(s, pat)->0));
    }
}

/// A pattern stands at the start exactly when it is a prefix.
pub proof fn lemma_occurs_prefix(s: Seq<char>, pat: Seq<char>)
    ensures
        occurs_at(s, pat, 0) == pat.is_prefix_of(s),
{
    if pat.len() <= s.len() {
        assert(s.subrange(0, pat.len() as int) =~= s.take(pat.len() as int));
    }
}

/// A pattern stands at the end exactly when it is a suffix.
pub proof fn lemma_occurs_suffix(s: Seq<char>, pat: Seq<char>)
    ensures
        occurs_at(s, pat, s.len() - pat.len()) == pat.is_suffix_of(s),
{
}

// ───────────────────────── lemmas: splitting and joining ─────────────────────

/// A word in front of white space, or alone, is the first word.
pub proof fn lemma_words_front(w: Seq<char>, rest: Seq<char>)
    requires
        w.len() > 0,
        all_in(w, Class::NotSpace),
        rest.len() > 0 ==> is_space(rest[0]),
    ensures
        words(w + rest) == seq![w] + words(rest),
{
    let s = w + rest;
    assert(s[0] == w[0] && Class::NotSpace.has(w[0]));
    lemma_span_is(s, Class::Space, 0);
    assert(s.skip(0) =~= s);
    assert forall|j: int| 0 <= j < w.len() implies Class::NotSpace.has(#[trigger] s[j]) by {
        assert(s[j] == w[j]);
    }
    assert(rest.len() > 0 ==> s[w.len() as int] == rest[0]);
    lemma_span_is(s, Class::NotSpace, w.len() as int);
    assert(s.take(w.len() as int) =~= w);
    assert(s.skip(w.len() as int) =~= rest);
}

/// White space in front does not change the words.
pub proof fn lemma_words_gap(s: Seq<char>)
    requires
        s.len() > 0,
        is_space(s[0]),
    ensures
        words(s) == words(s.skip(1)),
{
    let n = span(s.skip(1), Class::Space);
    lemma_span(s.skip(1), Class::Space);
    assert(s.skip(1).skip(n as int) =~= s.skip((n + 1) as int));
    assert(trim_start_of(s, Class::Space) == trim_start_of(s.skip(1), Class::Space));
}

/// White space behind does not change the words.
proof fn lemma_words_back(s: Seq<char>, gap: Seq<char>)
    requires
        all_in(gap, Class::Space),
    ensures
        words(s + gap) == words(s),
    decreases s.len() + gap.len(),
{
    if s.len() == 0 {
        assert(s + gap =~= gap);
        assert(words(s) =~= Seq::<Seq<char>>::empty());
        if gap.len() > 0 {
            assert(Class::Space.has(gap[0]));
            lemma_words_gap(gap);
            assert forall|j: int| 0 <= j < gap.skip(1).len() implies Class::Space.has(
                #[trigger] gap.skip(1)[j],
            ) by {
                assert(gap.skip(1)[j] == gap[j + 1]);
            }
            lemma_words_back(s, gap.skip(1));
            assert(s + gap.skip(1) =~= gap.skip(1));
        } else {
            assert(gap =~= s);
        }
    } else if is_space(s[0]) {
        lemma_words_gap(s);
        assert((s + gap)[0] == s[0]);
        lemma_words_gap(s + gap);
        assert((s + gap).skip(1) =~= s.skip(1) + gap);
        lemma_words_back(s.skip(1), gap);
    } else {
        let n = span(s, Class::NotSpace) as int;
        lemma_span(s, Class::NotSpace);
        let w = s.take(n);
        let rest = s.skip(n);
        assert(w + rest =~= s);
        assert(w + (rest + gap) =~= s + gap);
        assert(rest.len() > 0 ==> rest[0] == s[n]);
        assert(gap.len() > 0 ==> Class::Space.has(gap[0]));
        assert((rest + gap).len() > 0 ==> is_space((rest + gap)[0]));
        lemma_words_front(w, rest);
        lemma_words_front(w, rest + gap);
        lemma_words_back(rest, gap);
    }
}

/// Trimming does not change the words.
pub proof fn lemma_words_trim(s: Seq<char>)
    ensures
        words(trim(s)) == words(s),
{
    let t = trim_start_of(s, Class::Space);
    lemma_span(s, Class::Space);
    if t.len() > 0 {
        assert(t[0] == s[span(s, Class::Space) as int]);
    }
    lemma_span_is(t, Class::Space, 0);
    assert(t.skip(0) =~= t);
    lemma_span_back(t, Class::Space);
    let k = t.len() - span_back(t, Class::Space);
    assert(t.take(k) + t.skip(k) =~= t);
    assert(all_in(t.skip(k), Class::Space)) by {
        assert forall|j: int| 0 <= j < t.skip(k).len() implies Class::Space.has(
            #[trigger] t.skip(k)[j],
        ) by {
            assert(t.skip(k)[j] == t[k + j]);
        }
    }
    lemma_words_back(t.take(k), t.skip(k));
}

/// Words are not empty and hold no white space.
pub proof fn lemma_words_are_words(s: Seq<char>)
    ensures
        forall|i: int|
            0 <= i < words(s).len() ==> (#[trigger] words(s)[i]).len() > 0 && all_in(
                words(s)[i],
                Class::NotSpace,
            ),
    decreases s.len(),
{
    let t = trim_start_of(s, Class::Space);
    let n = span(t, Class::NotSpace);
    lemma_span(s, Class::Space);
    lemma_span(t, Class::NotSpace);
    if n > 0 {
        let rest = t.skip(n as int);
        lemma_words_are_words(rest);
        assert forall|i: int| 0 <= i < words(s).len() implies (#[trigger] words(s)[i]).len() > 0
            && all_in(words(s)[i], Class::NotSpace) by {
            if i > 0 {
                assert(words(s)[i] == words(rest)[i - 1]);
            }
        }
    }
}

/// Words joined with blanks are the words of what comes out.
pub proof fn lemma_words_join(ws: Seq<Seq<char>>)
    requires
        forall|i: int|
            0 <= i < ws.len() ==> (#[trigger] ws[i]).len() > 0 && all_in(ws[i], Class::NotSpace),
    ensures
        words(join(ws, " "@)) == ws,
    decreases ws.len(),
{
    reveal_strlit(" ");
    if ws.len() == 0 {
        assert(words(Seq::<char>::empty()) =~= ws);
    } else if ws.len() == 1 {
        let none = Seq::<char>::empty();
        lemma_words_front(ws[0], none);
        assert(ws[0] + none =~= ws[0]);
        assert(words(none) =~= Seq::<Seq<char>>::empty());
        assert(words(ws[0]) =~= ws);
    } else {
        let rest = ws.drop_first();
        assert forall|i: int| 0 <= i < rest.len() implies (#[trigger] rest[i]).len() > 0 && all_in(
            rest[i],
            Class::NotSpace,
        ) by {
            assert(rest[i] == ws[i + 1]);
        }
        lemma_words_join(rest);
        lemma_join_front(ws[0], rest, " "@);
        assert(seq![ws[0]] + rest =~= ws);
        let tail = " "@ + join(rest, " "@);
        assert(ws[0] + " "@ + join(rest, " "@) =~= ws[0] + tail);
        assert(tail[0] == ' ');
        assert(tail.skip(1) =~= join(rest, " "@));
        lemma_words_front(ws[0], tail);
        lemma_words_gap(tail);
    }
}

/// Joining with one more text in front.
pub proof fn lemma_join_front(x: Seq<char>, ys: Seq<Seq<char>>, sep: Seq<char>)
    requires
        ys.len() > 0,
    ensures
        join(seq![x] + ys, sep) == x + sep + join(ys, sep),
    decreases ys.len(),
{
    let all = seq![x] + ys;
    assert(all.last() == ys.last());
    assert(all.drop_last() =~= seq![x] + ys.drop_last());
    if ys.len() == 1 {
        assert(all.drop_last() =~= seq![x]);
        assert(join(all.drop_last(), sep) == x);
    } else {
        lemma_join_front(x, ys.drop_last(), sep);
        assert(x + sep + join(ys.drop_last(), sep) + sep + ys.last() =~= x + sep + (join(
            ys.drop_last(),
            sep,
        ) + sep + ys.last()));
    }
}

/// Joining the parts of a text with the separator gives the text back.
pub proof fn lemma_join_split(s: Seq<char>, c: char)
    ensures
        split_on(s, c).len() > 0,
        join(split_on(s, c), seq![c]) == s,
    decreases s.len(),
{
    let n = span(s, Class::Not(c)) as int;
    lemma_span(s, Class::Not(c));
    if s.len() > 0 && n < s.len() {
        let rest = s.skip(n + 1);
        lemma_join_split(rest, c);
        lemma_join_front(s.take(n), split_on(rest, c), seq![c]);
        assert(s =~= s.take(n) + seq![c] + rest);
    }
}

/// The parts of a text that starts with a part and a separator.
pub proof fn lemma_split_front(x: Seq<char>, y: Seq<char>, c: char)
    requires
        all_in(x, Class::Not(c)),
    ensures
        split_on(x + seq![c] + y, c) == seq![x] + split_on(y, c),
        split_on(x, c) == seq![x],
{
    let s = x + seq![c] + y;
    assert forall|j: int| 0 <= j < x.len() implies Class::Not(c).has(#[trigger] s[j]) by {
        assert(s[j] == x[j]);
    }
    lemma_span_is(s, Class::Not(c), x.len() as int);
    assert(s.take(x.len() as int) =~= x);
    assert(s.skip(x.len() as int + 1) =~= y);
    lemma_span_is(x, Class::Not(c), x.len() as int);
}

// ────────────────────────────── lemmas: replacing ────────────────────────────

/// Replacing one character by another goes character by character.
pub proof fn lemma_replace_char(s: Seq<char>, a: char, b: char)
    ensures
        replace(s, seq![a], seq![b]).len() == s.len(),
        forall|i: int|
            0 <= i < s.len() ==> #[trigger] replace(s, seq![a], seq![b])[i] == (if s[i] == a {
                b
            } else {
                s[i]
            }),
    decreases s.len(),
{
    let r = replace(s, seq![a], seq![b]);
    if s.len() > 0 {
        let rest = s.skip(1);
        lemma_replace_char(rest, a, b);
        assert(occurs_at(s, seq![a], 0) == (s[0] == a)) by {
            assert(s.subrange(0, 1) =~= seq![s[0]]);
            if s[0] != a {
                assert(s.subrange(0, 1)[0] != seq![a][0]);
            }
        }
        assert forall|i: int| 0 <= i < s.len() implies #[trigger] r[i] == (if s[i] == a {
            b
        } else {
            s[i]
        }) by {
            if i > 0 {
                assert(r[i] == replace(rest, seq![a], seq![b])[i - 1]);
                assert(rest[i - 1] == s[i]);
            }
        }
    }
}

/// Leaving a character out of two texts one after the other leaves it out of each;
/// a text without it stays.
pub proof fn lemma_leave_out(a: Seq<char>, b: Seq<char>, c: char)
    ensures
        replace(a + b, seq![c], Seq::empty()) == replace(a, seq![c], Seq::empty()) + replace(
            b,
            seq![c],
            Seq::empty(),
        ),
        all_in(a, Class::Not(c)) ==> replace(a, seq![c], Seq::empty()) == a,
        a.len() > 0 && a[0] != c ==> replace(a, seq![c], Seq::empty()).len() > 0,
    decreases a.len(),
{
    let none = Seq::<char>::empty();
    let s = a + b;
    if a.len() == 0 {
        assert(s =~= b);
        assert(replace(a, seq![c], none) =~= none);
        assert(none + replace(b, seq![c], none) =~= replace(b, seq![c], none));
        assert(a =~= none);
    } else {
        let rest = a.skip(1);
        lemma_leave_out(rest, b, c);
        assert(s.skip(1) =~= rest + b);
        assert(s[0] == a[0]);
        assert(s.subrange(0, 1) =~= seq![s[0]]);
        assert(a.subrange(0, 1) =~= seq![a[0]]);
        assert(seq![a[0]][0] == a[0] && seq![c][0] == c);
        let x = replace(rest, seq![c], none);
        let y = replace(b, seq![c], none);
        if a[0] == c {
            assert(none + (x + y) =~= none + x + y);
        } else {
            assert(seq![a[0]] + (x + y) =~= seq![a[0]] + x + y);
        }
        if all_in(a, Class::Not(c)) {
            assert forall|i: int| 0 <= i < rest.len() implies Class::Not(c).has(
                #[trigger] rest[i],
            ) by {
                assert(rest[i] == a[i + 1]);
            }
            assert(Class::Not(c).has(a[0]));
            assert(seq![a[0]] + rest =~= a);
        }
    }
}

/// Replacing a text that ends another, and whose first character does not stand
/// before it.
pub proof fn lemma_replace_end(front: Seq<char>, u: Seq<char>, m: Seq<char>)
    requires
        u.len() > 0,
        all_in(front, Class::Not(u[0])),
    ensures
        replace(front + u, u, m) == front + m,
    decreases front.len(),
{
    let s = front + u;
    if front.len() == 0 {
        assert(s =~= u);
        assert(s.subrange(0, u.len() as int) =~= u);
        assert(s.skip(u.len() as int) =~= Seq::<char>::empty());
        assert(replace(s.skip(u.len() as int), u, m) =~= Seq::<char>::empty());
        assert(m + Seq::<char>::empty() =~= front + m);
    } else {
        if occurs_at(s, u, 0) {
            assert(s[0] == s.subrange(0, u.len() as int)[0]);
            assert(s[0] == front[0]);
        }
        let rest = front.skip(1);
        assert forall|i: int| 0 <= i < rest.len() implies Class::Not(u[0]).has(
            #[trigger] rest[i],
        ) by {
            assert(rest[i] == front[i + 1]);
        }
        lemma_replace_end(rest, u, m);
        assert(s.skip(1) =~= rest + u);
        assert(seq![s[0]] + (rest + m) =~= front + m);
    }
}

// ───────────────────────────── strings and slices ────────────────────────────

/// The characters of a string.
pub fn to_chars(s: &str) -> (r: Vec<char>)
    ensures
        r@ == s@,
{
    let mut out: Vec<char> = Vec::new();
    for c in it: s.chars()
        invariant
            it.seq() == s@,
            out@ == s@.take(it.index() as int),
    {
        out.push(c);
    }
    out
}

/// The string of the characters from `a` to `b`.
pub fn from_chars(cs: &Vec<char>, a: usize, b: usize) -> (r: String)
    requires
        a <= b <= cs@.len(),
    ensures
        r@ == cs@.subrange(a as int, b as int),
{
    let mut out = String::new();
    for i in a..b
        invariant
            a <= i <= b <= cs@.len(),
            out@ == cs@.subrange(a as int, i as int),
    {
        out.push(cs[i]);
    }
    out
}

/// Whether two strings hold the same text.
pub fn same(a: &str, b: &str) -> (r: bool)
    ensures
        r == (a@ == b@),
{
    let x = to_chars(a);
    let y = to_chars(b);
    if x.len() != y.len() {
        return false;
    }
    for i in 0..x.len()
        invariant
            x@ == a@,
            y@ == b@,
            x.len() == y.len(),
            forall|j: int| 0 <= j < i ==> x@[j] == y@[j],
    {
        if x[i] != y[i] {
            return false;
        }
    }
    assert(x@ =~= y@);
    true
}

/// Whether two lists hold the same texts.
pub fn same_all(a: &Vec<String>, b: &Vec<String>) -> (r: bool)
    ensures
        r == (texts(a@) == texts(b@)),
{
    if a.len() != b.len() {
        assert(texts(a@).len() != texts(b@).len());
        return false;
    }
    for i in 0..a.len()
        invariant
            a.len() == b.len(),
            forall|j: int| 0 <= j < i ==> a@[j]@ == (#[trigger] b@[j])@,
    {
        if !same(a[i].as_str(), b[i].as_str()) {
            assert(texts(a@)[i as int] != texts(b@)[i as int]);
            return false;
        }
    }
    assert(texts(a@) =~= texts(b@));
    true
}

/// A copy of a string slice.
pub fn own(s: &str) -> (r: String)
    ensures
        r@ == s@,
{
    s.to_owned()
}

/// The empty text.
pub fn empty() -> (r: String)
    ensures
        r@ == Seq::<char>::empty(),
{
    let r = String::new();
    assert(r@ =~= Seq::<char>::empty());
    r
}

/// Two texts one after the other.
pub fn concat(a: &str, b: &str) -> (r: String)
    ensures
        r@ == a@ + b@,
{
    let mut out = a.to_owned();
    out.append(b);
    out
}

/// Three texts one after the other.
pub fn concat3(a: &str, b: &str, c: &str) -> (r: String)
    ensures
        r@ == a@ + b@ + c@,
{
    let mut out = concat(a, b);
    out.append(c);
    out
}

/// Whether `pat` stands in `s` at position `i`.
pub fn matches_at(s: &Vec<char>, pat: &Vec<char>, i: usize) -> (r: bool)
    ensures
        r == occurs_at(s@, pat@, i as int),
{
    if pat.len() > s.len() || i > s.len() - pat.len() {
        return false;
    }
    for j in 0..pat.len()
        invariant
            i + pat.len() <= s.len(),
            forall|m: int| 0 <= m < j ==> s@[i + m] == pat@[m],
    {
        if s[i + j] != pat[j] {
            assert(s@.subrange(i as int, i + pat@.len())[j as int] != pat@[j as int]);
            return false;
        }
    }
    assert(s@.subrange(i as int, i + pat@.len()) =~= pat@);
    true
}

/// The first position at which `pat` stands in `s`.
pub fn find_str(s: &str, pat: &str) -> (r: Option<usize>)
    ensures
        match r {
            Some(i) => find(s@, pat@) == Some(i as int) && i + pat@.len() <= s@.len()
                <= usize::MAX,
            None => find(s@, pat@) is None,
        },
{
    let x = to_chars(s);
    let y = to_chars(pat);
    let mut i: usize = 0;
    while i < x.len()
        invariant
            x@ == s@,
            y@ == pat@,
            i <= x@.len(),
            forall|j: int| 0 <= j < i ==> !#[trigger] occurs_at(s@, pat@, j),
        decreases x@.len() - i,
    {
        if matches_at(&x, &y, i) {
            proof {
                lemma_find_is(s@, pat@, i as int);
            }
            return Some(i);
        }
        i = i + 1;
    }
    if matches_at(&x, &y, i) {
        proof {
            lemma_find_is(s@, pat@, i as int);
        }
        return Some(i);
    }
    proof {
        lemma_find(s@, pat@);
    }
    None
}

/// The last position at which `pat` stands in `s`.
pub fn rfind_str(s: &str, pat: &str) -> (r: Option<usize>)
    ensures
        match r {
            Some(i) => rfind(s@, pat@) == Some(i as int) && i + pat@.len() <= s@.len()
                <= usize::MAX,
            None => rfind(s@, pat@) is None,
        },
{
    let x = to_chars(s);
    let y = to_chars(pat);
    let mut i: usize = x.len();
    while i > 0
        invariant
            x@ == s@,
            y@ == pat@,
            i <= x.len(),
            forall|j: int| i < j ==> !#[trigger] occurs_at(s@, pat@, j),
        decreases i,
    {
        if matches_at(&x, &y, i) {
            proof {
                lemma_rfind_is(s@, pat@, i as int);
            }
            return Some(i);
        }
        i = i - 1;
    }
    if matches_at(&x, &y, 0) {
        proof {
            lemma_rfind_is(s@, pat@, 0);
        }
        return Some(0);
    }
    proof {
        lemma_rfind(s@, pat@);
    }
    None
}

/// Whether `pat` stands somewhere in `s`.
pub fn has(s: &str, pat: &str) -> (r: bool)
    ensures
        r == contains(s@, pat@),
{
    proof {
        lemma_contains(s@, pat@);
    }
    match find_str(s, pat) {
        Some(_) => true,
        None => false,
    }
}

/// Whether `s` starts with `pat`.
pub fn starts_with(s: &str, pat: &str) -> (r: bool)
    ensures
        r == pat@.is_prefix_of(s@),
{
    proof {
        lemma_occurs_prefix(s@, pat@);
    }
    let x = to_chars(s);
    let y = to_chars(pat);
    matches_at(&x, &y, 0)
}

/// Whether `s` ends with `pat`.
pub fn ends_with(s: &str, pat: &str) -> (r: bool)
    ensures
        r == pat@.is_suffix_of(s@),
{
    proof {
        lemma_occurs_suffix(s@, pat@);
    }
    let x = to_chars(s);
    let y = to_chars(pat);
    if y.len() > x.len() {
        return false;
    }
    matches_at(&x, &y, x.len() - y.len())
}

/// The number of characters of a text.
pub fn length(s: &str) -> (r: usize)
    ensures
        r == s@.len(),
{
    to_chars(s).len()
}

/// The characters from `a` to `b`.
pub fn slice(s: &str, a: usize, b: usize) -> (r: String)
    requires
        a <= b <= s@.len(),
    ensures
        r@ == s@.subrange(a as int, b as int),
{
    let x = to_chars(s);
    from_chars(&x, a, b)
}

/// The first `n` characters.
pub fn take(s: &str, n: usize) -> (r: String)
    requires
        n <= s@.len(),
    ensures
        r@ == s@.take(n as int),
{
    let x = to_chars(s);
    from_chars(&x, 0, n)
}

/// The characters after the first `n`.
pub fn skip(s: &str, n: usize) -> (r: String)
    requires
        n <= s@.len(),
    ensures
        r@ == s@.skip(n as int),
{
    let x = to_chars(s);
    let len = x.len();
    from_chars(&x, n, len)
}

/// The rest of `s` after a prefix, if it starts with it.
pub fn strip_prefix(s: &str, pat: &str) -> (r: Option<String>)
    ensures
        match r {
            Some(t) => pat@.is_prefix_of(s@) && t@ == s@.skip(pat@.len() as int),
            None => !pat@.is_prefix_of(s@),
        },
{
    if starts_with(s, pat) {
        Some(skip(s, length(pat)))
    } else {
        None
    }
}

/// The length of the longest run of the class that starts at `i`.
fn span_at(s: &Vec<char>, i: usize, k: Class) -> (r: usize)
    requires
        i <= s@.len(),
    ensures
        r == span(s@.skip(i as int), k),
        i + r <= s@.len(),
{
    let mut n: usize = 0;
    while n < s.len() - i && k.holds(s[i + n])
        invariant
            i + n <= s.len(),
            forall|j: int| 0 <= j < n ==> k.has(#[trigger] s@.skip(i as int)[j]),
        decreases s@.len() - i - n,
    {
        n = n + 1;
    }
    proof {
        lemma_span_is(s@.skip(i as int), k, n as int);
    }
    n
}

/// The position of the first character of the class.
pub fn find_class(s: &str, k: Class, other: Class) -> (r: Option<usize>)
    requires
        forall|c: char| #[trigger] other.has(c) == !k.has(c),
    ensures
        match r {
            Some(i) => i == span(s@, other) && i < s@.len() && k.has(s@[i as int]),
            None => span(s@, other) == s@.len() && !any_in(s@, k),
        },
{
    let x = to_chars(s);
    let n = span_at(&x, 0, other);
    proof {
        assert(x@.skip(0) =~= x@);
        lemma_span(s@, other);
    }
    if n < x.len() {
        assert(!other.has(s@[n as int]));
        Some(n)
    } else {
        assert forall|i: int| 0 <= i < s@.len() implies !k.has(#[trigger] s@[i]) by {
            assert(other.has(s@[i]));
        }
        None
    }
}

/// The text without its leading characters of the class.
pub fn strip_start(s: &str, k: Class) -> (r: String)
    ensures
        r@ == trim_start_of(s@, k),
{
    let x = to_chars(s);
    let n = span_at(&x, 0, k);
    proof {
        assert(x@.skip(0) =~= x@);
    }
    let len = x.len();
    from_chars(&x, n, len)
}

/// The leading characters of the class.
pub fn prefix_in(s: &str, k: Class) -> (r: String)
    ensures
        r@ == s@.take(span(s@, k) as int),
        r@.len() == span(s@, k),
{
    let x = to_chars(s);
    let n = span_at(&x, 0, k);
    proof {
        assert(x@.skip(0) =~= x@);
        assert(x@.subrange(0, n as int) =~= s@.take(n as int));
    }
    from_chars(&x, 0, n)
}

/// The text without its trailing characters of the class.
pub fn strip_end(s: &str, k: Class) -> (r: String)
    ensures
        r@ == trim_end_of(s@, k),
{
    let x = to_chars(s);
    let mut n: usize = x.len();
    while n > 0 && k.holds(x[n - 1])
        invariant
            n <= x@.len(),
            forall|j: int| n <= j < x@.len() ==> k.has(#[trigger] x@[j]),
        decreases n,
    {
        n = n - 1;
    }
    proof {
        lemma_span_back_is(x@, k, x@.len() - n);
    }
    from_chars(&x, 0, n)
}

/// The text without leading and trailing white space.
pub fn trimmed(s: &str) -> (r: String)
    ensures
        r@ == trim(s@),
{
    let t = strip_start(s, Class::Space);
    strip_end(&t, Class::Space)
}

/// Whether every character belongs to the class.
pub fn all_of(s: &str, k: Class) -> (r: bool)
    ensures
        r == all_in(s@, k),
{
    let x = to_chars(s);
    let n = span_at(&x, 0, k);
    proof {
        assert(x@.skip(0) =~= x@);
        lemma_span(s@, k);
    }
    n == x.len()
}

/// Whether the first character is there and belongs to the class.
pub fn first_in(s: &str, k: Class) -> (r: bool)
    ensures
        r == starts_in(s@, k),
{
    let x = to_chars(s);
    x.len() > 0 && k.holds(x[0])
}

/// The text with every occurrence of `from` replaced by `to`.
pub fn replaced(s: &str, from: &str, to: &str) -> (r: String)
    ensures
        r@ == replace(s@, from@, to@),
{
    let x = to_chars(s);
    let pat = to_chars(from);
    let mut out = String::new();
    let mut i: usize = 0;
    proof {
        assert(x@.skip(0) =~= x@);
    }
    while i < x.len()
        invariant
            x@ == s@,
            pat@ == from@,
            i <= x@.len(),
            out@ + replace(x@.skip(i as int), from@, to@) == replace(s@, from@, to@),
        decreases x@.len() - i,
    {
        let ghost rest = x@.skip(i as int);
        proof {
            assert(occurs_at(rest, pat@, 0) == occurs_at(x@, pat@, i as int)) by {
                if i + pat@.len() <= x@.len() {
                    assert(rest.subrange(0, pat@.len() as int) =~= x@.subrange(
                        i as int,
                        i + pat@.len(),
                    ));
                }
            }
            assert(rest.skip(1) =~= x@.skip(i + 1));
        }
        if pat.len() == 0 {
            proof {
                assert(out@ + (to@ + seq![rest[0]] + replace(rest.skip(1), from@, to@)) =~= (out@
                    + to@).push(x@[i as int]) + replace(x@.skip(i + 1), from@, to@));
            }
            out.append(to);
            out.push(x[i]);
            i = i + 1;
        } else if matches_at(&x, &pat, i) {
            proof {
                assert(rest.skip(pat@.len() as int) =~= x@.skip(i + pat@.len()));
                assert(out@ + (to@ + replace(rest.skip(pat@.len() as int), from@, to@)) =~= (out@
                    + to@) + replace(x@.skip(i + pat@.len()), from@, to@));
            }
            out.append(to);
            i = i + pat.len();
        } else {
            proof {
                assert(out@ + (seq![rest[0]] + replace(rest.skip(1), from@, to@)) =~= out@.push(
                    x@[i as int],
                ) + replace(x@.skip(i + 1), from@, to@));
            }
            out.push(x[i]);
            i = i + 1;
        }
    }
    if pat.len() == 0 {
        out.append(to);
    }
    out
}

/// The maximal runs of characters of the class, in order.
pub fn runs_of(s: &str, k: Class, gap: Class) -> (r: Vec<String>)
    requires
        forall|c: char| #[trigger] gap.has(c) == !k.has(c),
    ensures
        texts(r@) == runs(s@, k, gap),
{
    broadcast use lemma_texts_push;

    let x = to_chars(s);
    let mut out: Vec<String> = Vec::new();
    let mut i: usize = 0;
    let len = x.len();
    proof {
        assert(x@.skip(0) =~= x@);
        assert(texts(out@) =~= Seq::<Seq<char>>::empty());
    }
    loop
        invariant
            x@ == s@,
            len == x@.len(),
            i <= x@.len(),
            forall|c: char| #[trigger] gap.has(c) == !k.has(c),
            texts(out@) + runs(x@.skip(i as int), k, gap) == runs(s@, k, gap),
        decreases x@.len() - i,
    {
        let ghost rest = x@.skip(i as int);
        let a = span_at(&x, i, gap);
        let from = i + a;
        let n = span_at(&x, from, k);
        proof {
            assert(rest.skip(a as int) =~= x@.skip(from as int));
        }
        if n == 0 {
            return out;
        }
        proof {
            let t = x@.skip(from as int);
            assert(t.take(n as int) =~= x@.subrange(from as int, from + n));
            assert(t.skip(n as int) =~= x@.skip(from + n));
            assert(texts(out@) + (seq![t.take(n as int)] + runs(t.skip(n as int), k, gap))
                =~= texts(out@).push(t.take(n as int)) + runs(x@.skip(from + n), k, gap));
        }
        out.push(from_chars(&x, from, from + n));
        i = from + n;
    }
}

/// The words of a text.
pub fn words_of(s: &str) -> (r: Vec<String>)
    ensures
        texts(r@) == words(s@),
{
    runs_of(s, Class::NotSpace, Class::Space)
}

/// The parts between the occurrences of a character.
pub fn parts_of(s: &str, c: char) -> (r: Vec<String>)
    ensures
        texts(r@) == split_on(s@, c),
{
    broadcast use lemma_texts_push;

    let x = to_chars(s);
    let mut out: Vec<String> = Vec::new();
    let mut i: usize = 0;
    proof {
        assert(x@.skip(0) =~= x@);
        assert(texts(out@) =~= Seq::<Seq<char>>::empty());
    }
    loop
        invariant
            x@ == s@,
            i <= x@.len(),
            texts(out@) + split_on(x@.skip(i as int), c) == split_on(s@, c),
        decreases x@.len() - i,
    {
        let ghost rest = x@.skip(i as int);
        let n = span_at(&x, i, Class::Not(c));
        if n >= x.len() - i {
            proof {
                assert(rest =~= x@.subrange(i as int, x@.len() as int));
                assert(texts(out@) + seq![rest] =~= texts(out@).push(rest));
            }
            let len = x.len();
            out.push(from_chars(&x, i, len));
            return out;
        }
        proof {
            assert(rest.take(n as int) =~= x@.subrange(i as int, i + n));
            assert(rest.skip((n + 1) as int) =~= x@.skip(i + n + 1));
            assert(texts(out@) + (seq![rest.take(n as int)] + split_on(rest.skip((n + 1) as int), c))
                =~= texts(out@).push(rest.take(n as int)) + split_on(x@.skip(i + n + 1), c));
        }
        out.push(from_chars(&x, i, i + n));
        i = i + n + 1;
    }
}

/// The lines of a text.
pub fn lines_of(s: &str) -> (r: Vec<String>)
    ensures
        texts(r@) == lines(s@),
{
    broadcast use lemma_texts_push;

    let x = to_chars(s);
    let mut out: Vec<String> = Vec::new();
    let mut i: usize = 0;
    proof {
        assert(x@.skip(0) =~= x@);
        assert(texts(out@) =~= Seq::<Seq<char>>::empty());
    }
    while i < x.len()
        invariant
            x@ == s@,
            i <= x@.len(),
            texts(out@) + lines(x@.skip(i as int)) == lines(s@),
        decreases x@.len() - i,
    {
        let ghost rest = x@.skip(i as int);
        let n = span_at(&x, i, Class::Not('\n'));
        if n >= x.len() - i {
            proof {
                assert(rest =~= x@.subrange(i as int, x@.len() as int));
                assert(texts(out@) + seq![rest] =~= texts(out@).push(rest));
            }
            let len = x.len();
            out.push(from_chars(&x, i, len));
            return out;
        }
        let mut e = i + n;
        if n > 0 && x[e - 1] == '\r' {
            e = e - 1;
        }
        proof {
            let line = rest.take(n as int);
            assert(strip_cr(line) =~= x@.subrange(i as int, e as int));
            assert(rest.skip((n + 1) as int) =~= x@.skip(i + n + 1));
            assert(texts(out@) + (seq![strip_cr(line)] + lines(rest.skip((n + 1) as int))) =~= texts(
                out@,
            ).push(strip_cr(line)) + lines(x@.skip(i + n + 1)));
        }
        out.push(from_chars(&x, i, e));
        i = i + n + 1;
    }
    proof {
        assert(texts(out@) + Seq::<Seq<char>>::empty() =~= texts(out@));
    }
    out
}

/// The texts one after the other with a separator between them.
pub fn joined(parts: &Vec<String>, sep: &str) -> (r: String)
    ensures
        r@ == join(texts(parts@), sep@),
{
    let mut out = String::new();
    for i in 0..parts.len()
        invariant
            out@ == join(texts(parts@).take(i as int), sep@),
    {
        let ghost p = texts(parts@).take(i + 1);
        proof {
            assert(p.drop_last() =~= texts(parts@).take(i as int));
        }
        if i > 0 {
            out.append(sep);
        }
        out.append(parts[i].as_str());
        proof {
            if i == 0 {
                assert(out@ =~= p[0]);
            }
        }
    }
    proof {
        assert(texts(parts@).take(parts@.len() as int) =~= texts(parts@));
    }
    out
}

/// The text without the repetitions of `pat` at its end.
pub fn strip_end_matches(s: &str, pat: &str) -> (r: String)
    ensures
        r@ == trim_end_matches(s@, pat@),
    decreases s@.len(),
{
    let n = length(pat);
    if n > 0 && ends_with(s, pat) {
        let t = take(s, length(s) - n);
        strip_end_matches(&t, pat)
    } else {
        own(s)
    }
}

/// The text without the repetitions of `pat` at its start.
pub fn strip_start_matches(s: &str, pat: &str) -> (r: String)
    ensures
        r@ == trim_start_matches(s@, pat@),
    decreases s@.len(),
{
    let n = length(pat);
    if n > 0 && starts_with(s, pat) {
        let t = skip(s, n);
        strip_start_matches(&t, pat)
    } else {
        own(s)
    }
}

/// The text before the first occurrence of `pat`, or the whole text.
pub fn text_before(s: &str, pat: &str) -> (r: String)
    ensures
        r@ == before(s@, pat@),
{
    match find_str(s, pat) {
        Some(i) => take(s, i),
        None => own(s),
    }
}

/// The text between the first and the second occurrence of `pat`.
pub fn text_between(s: &str, pat: &str) -> (r: String)
    ensures
        r@ == between(s@, pat@),
{
    let len = length(s);
    match find_str(s, pat) {
        Some(i) => {
            let rest = slice(s, i + length(pat), len);
            text_before(&rest, pat)
        },
        None => empty(),
    }
}

/// A longer text of digits does not write a smaller number.
proof fn lemma_digits_value_grows(s: Seq<char>, i: int)
    requires
        0 <= i <= s.len(),
    ensures
        digits_value(s.take(i)) <= digits_value(s),
    decreases s.len() - i,
{
    if i == s.len() {
        assert(s.take(i) =~= s);
    } else {
        lemma_digits_value_grows(s, i + 1);
        assert(s.take(i + 1).drop_last() =~= s.take(i));
    }
}

/// The number that a text writes, if it is at most `max`.
pub fn parse_number(s: &str, max: u64) -> (r: Option<u64>)
    ensures
        match r {
            Some(n) => parse_uint(s@, max as nat) == Some(n as nat),
            None => parse_uint(s@, max as nat) is None,
        },
{
    let x = to_chars(s);
    let mut i: usize = 0;
    if x.len() > 0 && x[0] == '+' {
        i = 1;
    }
    let ghost t = x@.skip(i as int);
    let ghost from = i as int;
    proof {
        assert(x@.skip(0) =~= x@);
    }
    if i == x.len() {
        return None;
    }
    let mut value: u64 = 0;
    assert(t.take(0) =~= Seq::<char>::empty());
    while i < x.len()
        invariant
            x@ == s@,
            0 <= from <= i <= x@.len(),
            t == x@.skip(from),
            t == (if s@.len() > 0 && s@[0] == '+' {
                s@.skip(1)
            } else {
                s@
            }),
            value == digits_value(t.take(i - from)),
            value <= max,
            forall|j: int| 0 <= j < i - from ==> is_digit(#[trigger] t[j]),
        decreases x@.len() - i,
    {
        let c = x[i];
        if !digit(c) {
            assert(!is_digit(t[i - from]));
            return None;
        }
        let d: u64 = (c as u32 - '0' as u32) as u64;
        proof {
            assert(t.take(i - from + 1).drop_last() =~= t.take(i - from));
            lemma_digits_value_grows(t, i - from + 1);
        }
        if value > (u64::MAX - d) / 10 || value * 10 + d > max {
            return None;
        }
        value = value * 10 + d;
        i = i + 1;
    }
    proof {
        assert(t.take(i - from) =~= t);
    }
    Some(value)
}

/// The base ten text of a number.
pub fn decimal_of(n: u64) -> (r: String)
    ensures
        r@ == decimal(n as nat),
    decreases n,
{
    let c = (48u8 + (n % 10) as u8) as char;
    if n < 10 {
        let mut out = String::new();
        out.push(c);
        assert(out@ =~= seq![(n + '0' as u32) as char]);
        out
    } else {
        let mut out = decimal_of(n / 10);
        out.push(c);
        out
    }
}

/// The longest prefix that takes at most `n` bytes in UTF-8.
pub fn byte_prefix_of(s: &str, n: usize) -> (r: String)
    ensures
        r@ == byte_prefix(s@, n as int),
{
    let x = to_chars(s);
    let mut out = String::new();
    let mut left: usize = n;
    let mut i: usize = 0;
    proof {
        assert(x@.skip(0) =~= x@);
    }
    while i < x.len()
        invariant
            x@ == s@,
            i <= x@.len(),
            out@ + byte_prefix(x@.skip(i as int), left as int) == byte_prefix(s@, n as int),
        decreases x@.len() - i,
    {
        let c = x[i] as u32;
        let w: usize = if c < 0x80 {
            1
        } else if c < 0x800 {
            2
        } else if c < 0x10000 {
            3
        } else {
            4
        };
        let ghost rest = x@.skip(i as int);
        if w > left {
            assert(out@ + Seq::<char>::empty() =~= out@);
            return out;
        }
        proof {
            assert(rest.skip(1) =~= x@.skip(i + 1));
            assert(out@ + (seq![rest[0]] + byte_prefix(rest.skip(1), left - w)) =~= out@.push(
                x@[i as int],
            ) + byte_prefix(x@.skip(i + 1), left - w));
        }
        out.push(x[i]);
        left = left - w;
        i = i + 1;
    }
    assert(out@ + Seq::<char>::empty() =~= out@);
    out
}

/// A copy of an optional string.
pub fn own_opt(o: &Option<String>) -> (r: Option<String>)
    ensures
        r == *o,
{
    match o {
        Some(s) => Some(s.clone()),
        None => None,
    }
}

/// A copy of a vector of strings.
pub fn own_all(v: &Vec<String>) -> (r: Vec<String>)
    ensures
        r@ == v@,
{
    let mut out: Vec<String> = Vec::new();
    for i in 0..v.len()
        invariant
            out@ == v@.take(i as int),
    {
        out.push(v[i].clone());
    }
    out
}

} // verus!

//! What the functions of make are for: their results on texts that are given by
//! their parts.

use crate::expand;
use crate::markers;
use crate::text;
use crate::text::Class;
use crate::vars;
use vstd::prelude::*;

verus! {

// ─────────────────────────────── texts with marks ────────────────────────────

/// A text of one character is found behind a text without it.
pub proof fn lemma_found(x: Seq<char>, c: char, y: Seq<char>, mark: Seq<char>)
    requires
        !x.contains(c),
        mark == seq![c],
    ensures
        text::find(x + mark + y, mark) == Some(x.len() as int),
{
    assert forall|i: int| 0 <= i < x.len() implies #[trigger] x[i] != c by {
        assert(x.contains(x[i]));
    }
    markers::lemma_first_char(x, c, y);
}

/// A text of one character is not found in a text without it.
pub proof fn lemma_not_found(x: Seq<char>, c: char, mark: Seq<char>)
    requires
        !x.contains(c),
        mark == seq![c],
    ensures
        text::find(x, mark) is None,
        text::rfind(x, mark) is None,
        !text::contains(x, mark),
{
    text::lemma_find(x, mark);
    text::lemma_rfind(x, mark);
    text::lemma_contains(x, mark);
    if let Some(i) = text::find(x, mark) {
        assert(x.subrange(i, i + 1)[0] == x[i]);
        assert(x.contains(x[i]));
    }
    if let Some(i) = text::rfind(x, mark) {
        assert(x.subrange(i, i + 1)[0] == x[i]);
        assert(x.contains(x[i]));
    }
}

/// A text of one character is found last before a text without it.
pub proof fn lemma_found_last(x: Seq<char>, c: char, y: Seq<char>, mark: Seq<char>)
    requires
        !y.contains(c),
        mark == seq![c],
    ensures
        text::rfind(x + mark + y, mark) == Some(x.len() as int),
{
    let s = x + mark + y;
    let n = x.len() as int;
    assert(s.subrange(n, n + 1) =~= mark);
    assert forall|j: int| n < j && j + 1 <= s.len() implies !#[trigger] text::occurs_at(s, mark, j) by {
        if text::occurs_at(s, mark, j) {
            assert(s.subrange(j, j + 1)[0] == y[j - n - 1]);
            assert(y.contains(y[j - n - 1]));
        }
    }
    text::lemma_rfind_is(s, mark, n);
}

/// Replacing one character, which stands in a text once, puts the new text there.
pub proof fn lemma_replace_once(x: Seq<char>, c: char, y: Seq<char>, to: Seq<char>)
    requires
        !x.contains(c),
        !y.contains(c),
    ensures
        text::replace(x + seq![c] + y, seq![c], to) == x + to + y,
        text::replace(y, seq![c], to) == y,
    decreases x.len(), y.len(),
{
    let mark = seq![c];
    let s = x + mark + y;
    if x.len() > 0 {
        assert(x.contains(x[0]));
        assert(s.subrange(0, 1)[0] == x[0]);
        let t = x.skip(1);
        assert forall|i: int| 0 <= i < t.len() implies #[trigger] t[i] != c by {
            assert(x.contains(x[i + 1]));
        }
        lemma_replace_once(t, c, y, to);
        assert(s.skip(1) =~= t + mark + y);
        assert(seq![x[0]] + (t + to + y) =~= x + to + y);
    } else {
        lemma_replace_none(y, c, to);
        assert(s.subrange(0, 1) =~= mark);
        assert(s.skip(1) =~= y);
        assert(x + to + y =~= to + y);
    }
    lemma_replace_none(y, c, to);
}

pub proof fn lemma_replace_none(y: Seq<char>, c: char, to: Seq<char>)
    requires
        !y.contains(c),
    ensures
        text::replace(y, seq![c], to) == y,
    decreases y.len(),
{
    if y.len() > 0 {
        assert(y.contains(y[0]));
        assert(y.subrange(0, 1)[0] == y[0]);
        let t = y.skip(1);
        assert forall|i: int| 0 <= i < t.len() implies #[trigger] t[i] != c by {
            assert(y.contains(y[i + 1]));
        }
        lemma_replace_none(t, c, to);
        assert(seq![y[0]] + t =~= y);
    } else {
        assert(y =~= Seq::<char>::empty());
    }
}

// ─────────────────────────────────── words ───────────────────────────────────

/// A pattern matches the words that start with what stands before its `%` and end
/// with what stands behind it, without overlap.
pub proof fn law_pattern_matches(a: Seq<char>, b: Seq<char>, s: Seq<char>, w: Seq<char>)
    requires
        !a.contains('%'),
    ensures
        expand::matches_pattern(a + s + b, a + seq!['%'] + b),
        expand::matches_pattern(w, a + seq!['%'] + b) ==> w.len() >= a.len() + b.len() && w == a
            + w.subrange(a.len() as int, w.len() - b.len()) + b,
        expand::matches_pattern(w, a) <==> w == a,
{
    reveal_strlit("%");
    assert("%"@ =~= seq!['%']);
    let pat = a + seq!['%'] + b;
    lemma_found(a, '%', b, "%"@);
    lemma_not_found(a, '%', "%"@);
    assert(pat.take(a.len() as int) =~= a);
    assert(pat.skip(a.len() as int + 1) =~= b);
    let x = a + s + b;
    assert(x.subrange(0, a.len() as int) =~= a);
    assert(x.subrange(x.len() - b.len(), x.len() as int) =~= b);
    if expand::matches_pattern(w, pat) {
        let n = a.len() as int;
        let e = w.len() - b.len();
        assert forall|i: int| 0 <= i < w.len() implies w[i] == (a + w.subrange(n, e) + b)[i] by {
            if i < n {
                assert(w.subrange(0, n)[i] == a[i]);
            } else if i >= e {
                assert(w.subrange(e, w.len() as int)[i - e] == b[i - e]);
            }
        }
        assert(w =~= a + w.subrange(n, e) + b);
    }
}

/// `patsubst` turns a word that its pattern matches into the replacement with the
/// text that the pattern's `%` stands for in place of its own `%`; a replacement
/// without one is taken as it is.
pub proof fn law_patsubst_puts_the_stem(
    a: Seq<char>,
    s: Seq<char>,
    b: Seq<char>,
    c: Seq<char>,
    d: Seq<char>,
)
    requires
        !a.contains('%'),
        !c.contains('%'),
        !d.contains('%'),
    ensures
        expand::patsubst(a + s + b, a + seq!['%'] + b, c + seq!['%'] + d) == c + s + d,
        expand::patsubst(a + s + b, a + seq!['%'] + b, seq!['%']) == s,
        expand::patsubst(a + s + b, a + seq!['%'] + b, c) == c,
        expand::patsubst(a, a, c) == c,
{
    reveal_strlit("%");
    assert("%"@ =~= seq!['%']);
    let pat = a + seq!['%'] + b;
    let w = a + s + b;
    law_pattern_matches(a, b, s, a);
    lemma_found(a, '%', b, "%"@);
    lemma_not_found(a, '%', "%"@);
    assert(w.subrange(a.len() as int, w.len() - b.len()) =~= s);
    lemma_replace_once(c, '%', d, s);
    lemma_replace_none(c, '%', s);
    let none = Seq::<char>::empty();
    lemma_replace_once(none, '%', none, s);
    assert(none + seq!['%'] + none =~= seq!['%']);
    assert(none + s + none =~= s);
}

/// `patsubst` leaves a word that its pattern does not match.
pub proof fn law_patsubst_leaves_other_words(
    w: Seq<char>,
    a: Seq<char>,
    b: Seq<char>,
    rep: Seq<char>,
)
    requires
        !a.contains('%'),
    ensures
        (forall|s: Seq<char>| w != #[trigger] (a + s) + b) ==> expand::patsubst(
            w,
            a + seq!['%'] + b,
            rep,
        ) == w,
        w != a ==> expand::patsubst(w, a, rep) == w,
{
    law_pattern_matches(a, b, a, w);
    if expand::matches_pattern(w, a + seq!['%'] + b) {
        let s = w.subrange(a.len() as int, w.len() - b.len());
        assert(w == (a + s) + b);
    }
}

/// A substitution reference changes the suffix of the words that have it, and
/// leaves the others.
pub proof fn law_suffix_is_changed(x: Seq<char>, p: Seq<char>, r: Seq<char>, w: Seq<char>)
    ensures
        expand::resuffix(x + p, p, r) == x + r,
        !p.is_suffix_of(w) ==> expand::resuffix(w, p, r) == w,
{
    let s = x + p;
    assert(s.subrange(s.len() - p.len(), s.len() as int) =~= p);
    assert(s.take(s.len() - p.len()) =~= x);
}

/// `dir` and `notdir` part a word behind its last slash; a word without one is a
/// file in the current directory.
pub proof fn law_directory_and_file(x: Seq<char>, y: Seq<char>)
    requires
        !y.contains('/'),
    ensures
        expand::dir_part(x + seq!['/'] + y) == x + seq!['/'],
        expand::file_part(x + seq!['/'] + y) == y,
        expand::dir_part(y) == seq!['.', '/'],
        expand::file_part(y) == y,
{
    reveal_strlit("/");
    reveal_strlit("./");
    assert("/"@ =~= seq!['/']);
    assert("./"@ =~= seq!['.', '/']);
    let w = x + seq!['/'] + y;
    lemma_found_last(x, '/', y, "/"@);
    lemma_not_found(y, '/', "/"@);
    assert(w.take(x.len() as int + 1) =~= x + seq!['/']);
    assert(w.skip(x.len() as int + 1) =~= y);
}

/// `basename` and `suffix` part a word before its last dot; a word without one has
/// no suffix.
pub proof fn law_stem_and_suffix(x: Seq<char>, y: Seq<char>, ws: Seq<Seq<char>>)
    requires
        !y.contains('.'),
    ensures
        expand::stem_part(x + seq!['.'] + y) == x,
        expand::suffixes(ws.push(x + seq!['.'] + y)) == expand::suffixes(ws).push(seq!['.'] + y),
        expand::stem_part(y) == y,
        expand::suffixes(ws.push(y)) == expand::suffixes(ws),
        expand::suffixes(Seq::empty()).len() == 0,
{
    reveal_strlit(".");
    assert("."@ =~= seq!['.']);
    let w = x + seq!['.'] + y;
    lemma_found_last(x, '.', y, "."@);
    lemma_not_found(y, '.', "."@);
    assert(w.take(x.len() as int) =~= x);
    assert(w.skip(x.len() as int) =~= seq!['.'] + y);
    assert(ws.push(w).drop_last() =~= ws);
    assert(ws.push(y).drop_last() =~= ws);
}

/// A text of digits is trimmed, and is read as the number that it writes.
pub proof fn lemma_number_read(n: nat, max: nat)
    ensures
        text::trim(text::decimal(n)) == text::decimal(n),
        text::parse_uint(text::decimal(n), max) == (if n <= max {
            Some(n)
        } else {
            None
        }),
{
    markers::lemma_decimal(n);
    let d = text::decimal(n);
    assert(Class::Digit.has(d[0]));
    assert(Class::Digit.has(d[d.len() - 1]));
    text::lemma_span_is(d, Class::Space, 0);
    assert(d.skip(0) =~= d);
    text::lemma_span_back_is(d, Class::Space, 0);
    assert(d.take(d.len() as int) =~= d);
}

/// `word` counts from one and gives nothing beyond the last word; `wordlist` takes
/// the words from one number to another.
pub proof fn law_words_are_counted_from_one(n: nat, k: nat, ws: Seq<Seq<char>>)
    requires
        0 < n <= usize::MAX,
        k <= usize::MAX,
    ensures
        n <= ws.len() ==> expand::nth_word(text::decimal(n), ws) == ws[n - 1],
        n > ws.len() ==> expand::nth_word(text::decimal(n), ws).len() == 0,
        n <= k <= ws.len() ==> expand::words_between(text::decimal(n), text::decimal(k), ws)
            == ws.subrange(n - 1, k as int),
        n <= ws.len() < k ==> expand::words_between(text::decimal(n), text::decimal(k), ws)
            == ws.skip(n - 1),
        k < n || ws.len() < n ==> expand::words_between(
            text::decimal(n),
            text::decimal(k),
            ws,
        ).len() == 0,
{
    lemma_number_read(n, usize::MAX as nat);
    lemma_number_read(k, usize::MAX as nat);
    if n <= ws.len() < k {
        assert(ws.subrange(n - 1, ws.len() as int) =~= ws.skip(n - 1));
    }
}

// ─────────────────────────────── function names ──────────────────────────────

/// The names of the functions differ: by their lengths or by a character.
pub proof fn lemma_names()
    ensures
        "subst"@.len() == 5,
        "subst"@[0] == 's',
        "subst"@[1] == 'u',
        "patsubst"@.len() == 8,
        "patsubst"@[0] == 'p',
        "strip"@.len() == 5,
        "strip"@[0] == 's',
        "strip"@[1] == 't',
        "findstring"@.len() == 10,
        "findstring"@[2] == 'n',
        "filter"@.len() == 6,
        "filter"@[0] == 'f',
        "filter"@[1] == 'i',
        "filter-out"@.len() == 10,
        "filter-out"@[2] == 'l',
        "sort"@.len() == 4,
        "sort"@[0] == 's',
        "word"@.len() == 4,
        "word"@[0] == 'w',
        "words"@.len() == 5,
        "words"@[0] == 'w',
        "wordlist"@.len() == 8,
        "wordlist"@[0] == 'w',
        "firstword"@.len() == 9,
        "firstword"@[0] == 'f',
        "lastword"@.len() == 8,
        "lastword"@[0] == 'l',
        "dir"@.len() == 3,
        "dir"@[0] == 'd',
        "notdir"@.len() == 6,
        "notdir"@[0] == 'n',
        "suffix"@.len() == 6,
        "suffix"@[0] == 's',
        "basename"@.len() == 8,
        "basename"@[0] == 'b',
        "addsuffix"@.len() == 9,
        "addsuffix"@[0] == 'a',
        "addsuffix"@[3] == 's',
        "addprefix"@.len() == 9,
        "addprefix"@[0] == 'a',
        "addprefix"@[3] == 'p',
        "join"@.len() == 4,
        "join"@[0] == 'j',
        "if"@.len() == 2,
        "if"@[0] == 'i',
        "or"@.len() == 2,
        "or"@[0] == 'o',
        "and"@.len() == 3,
        "and"@[0] == 'a',
        "call"@.len() == 4,
        "call"@[0] == 'c',
        "value"@.len() == 5,
        "value"@[0] == 'v',
        "origin"@.len() == 6,
        "origin"@[0] == 'o',
        "flavor"@.len() == 6,
        "flavor"@[0] == 'f',
        "flavor"@[1] == 'l',
        "info"@.len() == 4,
        "info"@[0] == 'i',
        "warning"@.len() == 7,
        "error"@.len() == 5,
        "error"@[0] == 'e',
{
    reveal_strlit("subst");
    reveal_strlit("patsubst");
    reveal_strlit("strip");
    reveal_strlit("findstring");
    reveal_strlit("filter");
    reveal_strlit("filter-out");
    reveal_strlit("sort");
    reveal_strlit("word");
    reveal_strlit("words");
    reveal_strlit("wordlist");
    reveal_strlit("firstword");
    reveal_strlit("lastword");
    reveal_strlit("dir");
    reveal_strlit("notdir");
    reveal_strlit("suffix");
    reveal_strlit("basename");
    reveal_strlit("addsuffix");
    reveal_strlit("addprefix");
    reveal_strlit("join");
    reveal_strlit("if");
    reveal_strlit("or");
    reveal_strlit("and");
    reveal_strlit("call");
    reveal_strlit("value");
    reveal_strlit("origin");
    reveal_strlit("flavor");
    reveal_strlit("info");
    reveal_strlit("warning");
    reveal_strlit("error");
}

// ─────────────────────────────── function calls ──────────────────────────────

/// Two arguments with a comma between them come apart there.
pub proof fn lemma_two_args(a: Seq<char>, b: Seq<char>)
    requires
        expand::is_simple(a),
        !a.contains(','),
    ensures
        expand::first_arg(a + seq![','] + b) == a,
        expand::other_args(a + seq![','] + b) == b,
{
    let s = a + seq![','] + b;
    expand::lemma_comma_from(a, b, 0);
    assert(s.take(a.len() as int) =~= a);
    assert(s.skip(a.len() as int + 1) =~= b);
}

/// Three arguments with commas between them come apart there.
pub proof fn lemma_three_args(a: Seq<char>, b: Seq<char>, c: Seq<char>)
    requires
        expand::is_simple(a),
        expand::is_simple(b),
        !a.contains(','),
        !b.contains(','),
    ensures
        ({
            let s = a + seq![','] + b + seq![','] + c;
            &&& expand::first_arg(s) == a
            &&& expand::first_arg(expand::other_args(s)) == b
            &&& expand::other_args(expand::other_args(s)) == c
        }),
{
    let s = a + seq![','] + b + seq![','] + c;
    assert(s =~= a + seq![','] + (b + seq![','] + c));
    lemma_two_args(a, b + seq![','] + c);
    lemma_two_args(b, c);
}

/// A text without references stays as it is, trimmed or not.
pub proof fn lemma_simple(s: Seq<char>, m: Map<Seq<char>, Seq<char>>, depth: nat)
    requires
        expand::is_simple(s),
    ensures
        expand::expand_at(s, m, depth) == s,
        expand::expand_at(text::trim(s), m, depth) == text::trim(s),
        text::words(text::trim(s)) == text::words(s),
{
    let t = text::trim_start_of(s, Class::Space);
    text::lemma_span(s, Class::Space);
    text::lemma_span_back(t, Class::Space);
    assert forall|i: int| 0 <= i < text::trim(s).len() implies #[trigger] text::trim(s)[i]
        != '$' && text::trim(s)[i] != '?' by {
        assert(text::trim(s)[i] == s[i + text::span(s, Class::Space)]);
    }
    expand::lemma_expand_plain(s, m, depth);
    expand::lemma_expand_plain(text::trim(s), m, depth);
    text::lemma_words_trim(s);
}

/// `subst` replaces every occurrence of its first argument in its third one by its
/// second one.
pub proof fn law_subst_replaces(
    from: Seq<char>,
    to: Seq<char>,
    s: Seq<char>,
    m: Map<Seq<char>, Seq<char>>,
    depth: nat,
)
    requires
        expand::is_simple(from),
        expand::is_simple(to),
        expand::is_simple(s),
        !from.contains(','),
        !to.contains(','),
    ensures
        expand::call("subst"@, from + seq![','] + to + seq![','] + s, m, depth) == text::replace(
            text::trim(s),
            text::trim(from),
            to,
        ),
{
    lemma_three_args(from, to, s);
    lemma_simple(from, m, depth);
    lemma_simple(to, m, depth);
    lemma_simple(s, m, depth);
}

/// `patsubst` turns the words that its pattern matches, and leaves the others, in
/// their order.
pub proof fn law_patsubst_turns_words(
    a: Seq<char>,
    b: Seq<char>,
    rep: Seq<char>,
    s: Seq<char>,
    m: Map<Seq<char>, Seq<char>>,
    depth: nat,
)
    requires
        expand::is_simple(a),
        expand::is_simple(b),
        expand::is_simple(rep),
        expand::is_simple(s),
        !a.contains(','),
        !b.contains(','),
        !rep.contains(','),
        text::trim(a + seq!['%'] + b) == a + seq!['%'] + b,
        text::trim(rep) == rep,
    ensures
        ({
            let pat = a + seq!['%'] + b;
            let ws = text::words(s);
            expand::call("patsubst"@, pat + seq![','] + rep + seq![','] + s, m, depth) == text::join(
                ws.map_values(|w: Seq<char>| expand::patsubst(w, pat, rep)),
                " "@,
            )
        }),
{
    lemma_names();
    let pat = a + seq!['%'] + b;
    assert forall|i: int| 0 <= i < pat.len() implies #[trigger] pat[i] != '$' && pat[i] != '?'
        && pat[i] != '(' && pat[i] != ')' && pat[i] != '{' && pat[i] != '}' && pat[i] != ',' by {
        if i < a.len() {
            assert(pat[i] == a[i]);
            assert(a.contains(a[i]));
        } else if i > a.len() {
            assert(pat[i] == b[i - a.len() - 1]);
            assert(b.contains(b[i - a.len() - 1]));
        }
    }
    lemma_three_args(pat, rep, s);
    lemma_simple(pat, m, depth);
    lemma_simple(rep, m, depth);
    lemma_simple(s, m, depth);
    assert(expand::patsubsts(text::words(s), pat, rep) =~= text::words(s).map_values(
        |w: Seq<char>| expand::patsubst(w, pat, rep),
    ));
}

/// `strip` keeps the words, one blank between them; `words` counts them;
/// `firstword` and `lastword` give the ends of the list.
pub proof fn law_lists_of_words(s: Seq<char>, m: Map<Seq<char>, Seq<char>>, depth: nat)
    requires
        expand::is_simple(s),
    ensures
        ({
            let ws = text::words(s);
            &&& expand::call("strip"@, s, m, depth) == text::join(ws, " "@)
            &&& text::words(expand::call("strip"@, s, m, depth)) == ws
            &&& expand::call("words"@, s, m, depth) == text::decimal(ws.len())
            &&& ws.len() > 0 ==> expand::call("firstword"@, s, m, depth) == ws[0]
            &&& ws.len() > 0 ==> expand::call("lastword"@, s, m, depth) == ws[ws.len() - 1]
            &&& ws.len() == 0 ==> expand::call("firstword"@, s, m, depth).len() == 0
                && expand::call("lastword"@, s, m, depth).len() == 0
        }),
{
    lemma_names();
    lemma_simple(s, m, depth);
    text::lemma_words_are_words(s);
    text::lemma_words_join(text::words(s));
}

/// `sort` gives the words of its argument, each once, one before the other.
pub proof fn law_sort_orders_words(s: Seq<char>, m: Map<Seq<char>, Seq<char>>, depth: nat)
    requires
        expand::is_simple(s),
    ensures
        ({
            let sorted = text::words(expand::call("sort"@, s, m, depth));
            &&& expand::ascending(sorted)
            &&& forall|w: Seq<char>| #[trigger] sorted.contains(w) <==> text::words(s).contains(w)
        }),
{
    lemma_names();
    lemma_simple(s, m, depth);
    let ws = text::words(s);
    let o = expand::in_order(ws);
    text::lemma_words_are_words(s);
    expand::law_sorted_words(ws);
    assert forall|i: int| 0 <= i < o.len() implies (#[trigger] o[i]).len() > 0 && text::all_in(
        o[i],
        Class::NotSpace,
    ) by {
        assert(o.contains(o[i]));
        let j = choose|j: int| 0 <= j < ws.len() && ws[j] == o[i];
        assert(ws[j].len() > 0);
    }
    text::lemma_words_join(o);
}

/// `findstring` gives its first argument back if the second one holds it.
pub proof fn law_findstring_finds(
    a: Seq<char>,
    s: Seq<char>,
    m: Map<Seq<char>, Seq<char>>,
    depth: nat,
)
    requires
        expand::is_simple(a),
        expand::is_simple(s),
        !a.contains(','),
    ensures
        ({
            let r = expand::call("findstring"@, a + seq![','] + s, m, depth);
            &&& text::contains(text::trim(s), text::trim(a)) ==> r == text::trim(a)
            &&& !text::contains(text::trim(s), text::trim(a)) ==> r.len() == 0
        }),
{
    lemma_names();
    lemma_two_args(a, s);
    lemma_simple(a, m, depth);
    lemma_simple(s, m, depth);
}

/// `word` and `wordlist` take words by their numbers.
pub proof fn law_word_takes_by_number(
    n: nat,
    k: nat,
    s: Seq<char>,
    m: Map<Seq<char>, Seq<char>>,
    depth: nat,
)
    requires
        expand::is_simple(s),
        0 < n <= k <= text::words(s).len(),
        k <= usize::MAX,
    ensures
        expand::call("word"@, text::decimal(n) + seq![','] + s, m, depth) == text::words(s)[n - 1],
        text::words(
            expand::call(
                "wordlist"@,
                text::decimal(n) + seq![','] + text::decimal(k) + seq![','] + s,
                m,
                depth,
            ),
        ) == text::words(s).subrange(n - 1, k as int),
{
    lemma_names();
    lemma_number_simple(n);
    lemma_number_simple(k);
    lemma_number_read(n, usize::MAX as nat);
    lemma_number_read(k, usize::MAX as nat);
    lemma_two_args(text::decimal(n), s);
    lemma_three_args(text::decimal(n), text::decimal(k), s);
    lemma_simple(text::decimal(n), m, depth);
    lemma_simple(text::decimal(k), m, depth);
    lemma_simple(s, m, depth);
    let ws = text::words(s);
    law_words_are_counted_from_one(n, k, ws);
    text::lemma_words_are_words(s);
    let part = ws.subrange(n - 1, k as int);
    assert forall|i: int| 0 <= i < part.len() implies (#[trigger] part[i]).len() > 0
        && text::all_in(part[i], Class::NotSpace) by {
        assert(part[i] == ws[n - 1 + i]);
    }
    text::lemma_words_join(part);
}

/// A number is a simple text without commas.
proof fn lemma_number_simple(n: nat)
    ensures
        expand::is_simple(text::decimal(n)),
        !text::decimal(n).contains(','),
{
    markers::lemma_decimal(n);
    let d = text::decimal(n);
    assert forall|i: int| 0 <= i < d.len() implies #[trigger] d[i] != '$' && d[i] != '?' && d[i]
        != '(' && d[i] != ')' && d[i] != '{' && d[i] != '}' && d[i] != ',' by {
        assert(Class::Digit.has(d[i]));
    }
}

/// `dir`, `notdir`, `suffix` and `basename` turn every word of a list.
pub proof fn law_names_of_files(s: Seq<char>, m: Map<Seq<char>, Seq<char>>, depth: nat)
    requires
        expand::is_simple(s),
    ensures
        ({
            let ws = text::words(s);
            &&& expand::call("dir"@, s, m, depth) == text::join(
                ws.map_values(|w: Seq<char>| expand::dir_part(w)),
                " "@,
            )
            &&& expand::call("notdir"@, s, m, depth) == text::join(
                ws.map_values(|w: Seq<char>| expand::file_part(w)),
                " "@,
            )
            &&& expand::call("basename"@, s, m, depth) == text::join(
                ws.map_values(|w: Seq<char>| expand::stem_part(w)),
                " "@,
            )
            &&& expand::call("suffix"@, s, m, depth) == text::join(expand::suffixes(ws), " "@)
        }),
{
    lemma_names();
    lemma_simple(s, m, depth);
    let ws = text::words(s);
    assert(expand::dirs(ws) =~= ws.map_values(|w: Seq<char>| expand::dir_part(w)));
    assert(expand::files(ws) =~= ws.map_values(|w: Seq<char>| expand::file_part(w)));
    assert(expand::stems(ws) =~= ws.map_values(|w: Seq<char>| expand::stem_part(w)));
}

/// `addprefix` and `addsuffix` put a text before or behind every word; `join` puts
/// two lists together word by word, the rest of the longer one as it is.
pub proof fn law_words_put_together(
    a: Seq<char>,
    s: Seq<char>,
    m: Map<Seq<char>, Seq<char>>,
    depth: nat,
)
    requires
        expand::is_simple(a),
        expand::is_simple(s),
        !a.contains(','),
    ensures
        ({
            let args = a + seq![','] + s;
            let x = text::words(a);
            let y = text::words(s);
            let pairs = Seq::new(
                if x.len() > y.len() {
                    x.len()
                } else {
                    y.len()
                },
                |i: int|
                    if i >= y.len() {
                        x[i]
                    } else if i >= x.len() {
                        y[i]
                    } else {
                        x[i] + y[i]
                    },
            );
            &&& expand::call("addprefix"@, args, m, depth) == text::join(
                y.map_values(|w: Seq<char>| text::trim(a) + w),
                " "@,
            )
            &&& expand::call("addsuffix"@, args, m, depth) == text::join(
                y.map_values(|w: Seq<char>| w + text::trim(a)),
                " "@,
            )
            &&& expand::call("join"@, args, m, depth) == text::join(pairs, " "@)
        }),
{
    lemma_names();
    lemma_two_args(a, s);
    lemma_simple(a, m, depth);
    lemma_simple(s, m, depth);
    let x = text::words(a);
    let y = text::words(s);
    let t = text::trim(a);
    let none = Seq::<char>::empty();
    assert(expand::affixed(y, t, none) =~= y.map_values(|w: Seq<char>| t + w)) by {
        assert forall|i: int| 0 <= i < y.len() implies expand::affixed(y, t, none)[i] == t + y[i] by {
            assert(t + y[i] + none =~= t + y[i]);
        }
    }
    assert(expand::affixed(y, none, t) =~= y.map_values(|w: Seq<char>| w + t)) by {
        assert forall|i: int| 0 <= i < y.len() implies expand::affixed(y, none, t)[i] == y[i] + t by {
            assert(none + y[i] + t =~= y[i] + t);
        }
    }
    let pairs = Seq::new(
        if x.len() > y.len() {
            x.len()
        } else {
            y.len()
        },
        |i: int|
            if i >= y.len() {
                x[i]
            } else if i >= x.len() {
                y[i]
            } else {
                x[i] + y[i]
            },
    );
    assert(expand::paired(x, y) =~= pairs) by {
        assert forall|i: int| 0 <= i < pairs.len() implies expand::paired(x, y)[i] == pairs[i] by {
            if i >= y.len() {
                assert(x[i] + none =~= x[i]);
            } else if i >= x.len() {
                assert(none + y[i] =~= y[i]);
            }
        }
    }
}

/// `if` gives its second argument if the first one is not blank, else its third
/// one.
pub proof fn law_if_chooses(
    a: Seq<char>,
    b: Seq<char>,
    c: Seq<char>,
    m: Map<Seq<char>, Seq<char>>,
    depth: nat,
)
    requires
        expand::is_simple(a),
        expand::is_simple(b),
        expand::is_simple(c),
        !a.contains(','),
        !b.contains(','),
    ensures
        ({
            let r = expand::call("if"@, a + seq![','] + b + seq![','] + c, m, depth);
            &&& text::trim(a).len() > 0 ==> r == b
            &&& text::trim(a).len() == 0 ==> r == c
        }),
{
    lemma_names();
    lemma_three_args(a, b, c);
    lemma_simple(a, m, depth);
    lemma_simple(b, m, depth);
    lemma_simple(c, m, depth);
}

/// `or` gives the first argument that is not blank, `and` the last one if none is
/// blank.
pub proof fn law_or_and(
    a: Seq<char>,
    b: Seq<char>,
    m: Map<Seq<char>, Seq<char>>,
    depth: nat,
)
    requires
        expand::is_simple(a),
        expand::is_simple(b),
        !a.contains(','),
        !b.contains(','),
    ensures
        ({
            let args = a + seq![','] + b;
            let either = expand::call("or"@, args, m, depth);
            let both = expand::call("and"@, args, m, depth);
            let x = text::trim(a).len() > 0;
            let y = text::trim(b).len() > 0;
            &&& x ==> either == a
            &&& !x && y ==> either == b
            &&& !x && !y ==> either.len() == 0
            &&& x && y ==> both == b
            &&& !x ==> both.len() == 0
        }),
{
    lemma_names();
    lemma_two_args(a, b);
    lemma_simple(a, m, depth);
    lemma_simple(b, m, depth);
    lemma_one_arg(b);
    let args = a + seq![','] + b;
    assert(expand::any_of(args, m, depth) == (if text::trim(a).len() > 0 {
        a
    } else if b.len() == 0 {
        Seq::empty()
    } else {
        expand::any_of(b, m, depth)
    }));
    assert(expand::all_of(args, m, depth) == (if text::trim(a).len() == 0 {
        Seq::empty()
    } else if b.len() == 0 {
        a
    } else {
        expand::all_of(b, m, depth)
    }));
    if b.len() == 0 {
        text::lemma_span(b, Class::Space);
    }
}

/// An argument without commas is the only one.
proof fn lemma_one_arg(b: Seq<char>)
    requires
        !b.contains(','),
    ensures
        expand::first_arg(b) == b,
        expand::other_args(b) == Seq::<char>::empty(),
{
    lemma_no_comma(b, 0, 0);
}

proof fn lemma_no_comma(b: Seq<char>, i: int, level: int)
    requires
        !b.contains(','),
        0 <= i,
    ensures
        expand::comma_from(b, i, level) is None,
    decreases b.len() - i,
{
    if i < b.len() {
        assert(b.contains(b[i]));
        lemma_no_comma(b, i + 1, level + 1);
        lemma_no_comma(b, i + 1, level - 1);
        lemma_no_comma(b, i + 1, level);
    }
}

/// `value` gives the value of a variable as it stands, `call` its expansion, both
/// nothing where there is no such variable.
pub proof fn law_functions_of_variables(
    name: Seq<char>,
    rest: Seq<char>,
    m: Map<Seq<char>, Seq<char>>,
    depth: nat,
)
    requires
        expand::is_simple(name),
        !name.contains(','),
        text::trim(name) == name,
        depth <= 32,
    ensures
        m.dom().contains(name) ==> expand::call("value"@, name, m, depth) == m[name],
        !m.dom().contains(name) ==> expand::call("value"@, name, m, depth).len() == 0,
        m.dom().contains(name) && expand::is_plain(m[name]) ==> expand::call(
            "call"@,
            name + seq![','] + rest,
            m,
            depth,
        ) == m[name],
        !m.dom().contains(name) ==> expand::call(
            "call"@,
            name + seq![','] + rest,
            m,
            depth,
        ).len() == 0,
{
    lemma_names();
    lemma_simple(name, m, depth);
    reveal_strlit(",");
    assert(","@ =~= seq![',']);
    lemma_found(name, ',', rest, ","@);
    let s = name + seq![','] + rest;
    assert(s.take(name.len() as int) =~= name);
    if m.dom().contains(name) && expand::is_plain(m[name]) {
        expand::lemma_expand_plain(m[name], m, depth);
    }
}

// ──────────────────────────── references in a text ───────────────────────────

/// A text without `$`.
pub open spec fn no_dollar(s: Seq<char>) -> bool {
    forall|i: int| 0 <= i < s.len() ==> #[trigger] s[i] != '$'
}

/// A reference in round brackets or in braces.
pub open spec fn enclosed(inner: Seq<char>, braces: bool) -> Seq<char> {
    if braces {
        seq!['$', '{'] + inner + seq!['}']
    } else {
        seq!['$', '('] + inner + seq![')']
    }
}

proof fn lemma_pass_front(x: Seq<char>, t: Seq<char>, m: Map<Seq<char>, Seq<char>>, depth: nat)
    requires
        depth <= 32,
        no_dollar(x),
    ensures
        expand::pass(x + t, m, depth) == x + expand::pass(t, m, depth),
    decreases x.len(),
{
    if x.len() > 0 {
        let rest = x.skip(1);
        assert forall|i: int| 0 <= i < rest.len() implies #[trigger] rest[i] != '$' by {
            assert(rest[i] == x[i + 1]);
        }
        lemma_pass_front(rest, t, m, depth);
        assert((x + t)[0] == x[0]);
        assert((x + t).skip(1) =~= rest + t);
        assert(seq![x[0]] + (rest + expand::pass(t, m, depth)) =~= x + expand::pass(t, m, depth));
    } else {
        assert(x + t =~= t);
        assert(x + expand::pass(t, m, depth) =~= expand::pass(t, m, depth));
    }
}

proof fn lemma_closing(s: Seq<char>, n: int, i: int, open: char, close: char)
    requires
        2 <= i <= n < s.len(),
        open != close,
        s[n] == close,
        forall|j: int| 2 <= j < n ==> #[trigger] s[j] != open && s[j] != close,
    ensures
        expand::closing(s, i, open, close, 1) == Some(n),
    decreases n - i,
{
    if i < n {
        assert(s[i] != open && s[i] != close);
        lemma_closing(s, n, i + 1, open, close);
    }
}

/// One pass works a reference out where it stands.
proof fn lemma_pass_enclosed(
    inner: Seq<char>,
    braces: bool,
    y: Seq<char>,
    m: Map<Seq<char>, Seq<char>>,
    depth: nat,
)
    requires
        depth <= 32,
        no_brackets(inner),
    ensures
        expand::pass(enclosed(inner, braces) + y, m, depth) == expand::evaluate(inner, m, depth + 1)
            + expand::pass(y, m, depth),
{
    let s = enclosed(inner, braces) + y;
    let n = inner.len() as int + 2;
    let open = if braces {
        '{'
    } else {
        '('
    };
    let close = if braces {
        '}'
    } else {
        ')'
    };
    assert(s[0] == '$' && s[1] == open && s[n] == close);
    assert forall|j: int| 2 <= j < n implies #[trigger] s[j] != open && s[j] != close by {
        assert(s[j] == inner[j - 2]);
    }
    lemma_closing(s, n, 2, open, close);
    assert(s.subrange(2, n) =~= inner);
    assert(s.skip(n + 1) =~= y);
}

/// A text without brackets of either kind.
pub open spec fn no_brackets(s: Seq<char>) -> bool {
    forall|i: int|
        0 <= i < s.len() ==> #[trigger] s[i] != '(' && s[i] != ')' && s[i] != '{' && s[i] != '}'
}

/// A text that one pass makes plain expands to what the pass gives.
proof fn lemma_plain_after_a_pass(
    s: Seq<char>,
    t: Seq<char>,
    m: Map<Seq<char>, Seq<char>>,
    depth: nat,
)
    requires
        depth <= 32,
        expand::pass(s, m, depth) == t,
        expand::is_plain(t),
    ensures
        expand::expand_at(s, m, depth) == t,
{
    expand::lemma_pass_plain(t, m, depth);
    assert(expand::passes(t, m, depth, 9) == t);
    assert(expand::passes(s, m, depth, 10) == t);
}

pub proof fn lemma_in_text(
    x: Seq<char>,
    inner: Seq<char>,
    braces: bool,
    y: Seq<char>,
    v: Seq<char>,
    m: Map<Seq<char>, Seq<char>>,
    depth: nat,
)
    requires
        depth <= 32,
        no_brackets(inner),
        no_dollar(x),
        no_dollar(y),
        expand::evaluate(inner, m, depth + 1) == v,
        expand::is_plain(x + v + y),
    ensures
        expand::expand_at(x + enclosed(inner, braces) + y, m, depth) == x + v + y,
{
    let e = enclosed(inner, braces);
    assert(x + e + y =~= x + (e + y));
    lemma_pass_front(x, e + y, m, depth);
    lemma_pass_enclosed(inner, braces, y, m, depth);
    expand::lemma_pass_plain(y, m, depth);
    assert(x + (v + y) =~= x + v + y);
    lemma_plain_after_a_pass(x + e + y, x + v + y, m, depth);
}

/// What stands between the brackets is a variable where it holds no white space and
/// no colon.
proof fn lemma_evaluate_name(name: Seq<char>, m: Map<Seq<char>, Seq<char>>, depth: nat)
    requires
        expand::is_plain_name(name),
        depth <= 33,
    ensures
        expand::evaluate(name, m, depth) == (match vars::lookup(m, name) {
            Some(v) => expand::expand_at(v, m, depth),
            None => "$("@ + name + ")"@,
        }),
{
    expand::lemma_trim_name(name);
    let k = Class::Neither(' ', '\t');
    assert forall|i: int| 0 <= i < name.len() implies k.has(#[trigger] name[i]) by {
        assert(!text::is_space(name[i]));
    }
    text::lemma_span_is(name, k, name.len() as int);
    reveal_strlit(":");
    assert(":"@ =~= seq![':']);
    assert(!name.contains(':'));
    lemma_not_found(name, ':', ":"@);
}

/// References to variables, in either kind of brackets, give way to the values of
/// the variables; the text round them stays.
pub proof fn law_references_give_way(
    x: Seq<char>,
    name: Seq<char>,
    braces: bool,
    y: Seq<char>,
    m: Map<Seq<char>, Seq<char>>,
)
    requires
        expand::is_plain_name(name),
        no_brackets(name),
        no_dollar(x),
        no_dollar(y),
        m.dom().contains(name),
        expand::is_plain(m[name]),
        expand::is_plain(x + m[name] + y),
    ensures
        expand::expand(x + enclosed(name, braces) + y, m) == x + m[name] + y,
{
    lemma_evaluate_name(name, m, 1);
    expand::lemma_expand_plain(m[name], m, 1);
    lemma_in_text(x, name, braces, y, m[name], m, 0);
}

/// A variable whose value refers to another one gives the value of that one.
pub proof fn law_values_are_expanded(
    name: Seq<char>,
    x: Seq<char>,
    other: Seq<char>,
    braces: bool,
    y: Seq<char>,
    m: Map<Seq<char>, Seq<char>>,
)
    requires
        expand::is_plain_name(name),
        no_brackets(name),
        expand::is_plain_name(other),
        no_brackets(other),
        m.dom().contains(name),
        m.dom().contains(other),
        no_dollar(x),
        no_dollar(y),
        m[name] == x + enclosed(other, braces) + y,
        expand::is_plain(m[other]),
        expand::is_plain(x + m[other] + y),
    ensures
        expand::expand(enclosed(name, false), m) == x + m[other] + y,
{
    let v = x + m[other] + y;
    lemma_evaluate_name(other, m, 2);
    expand::lemma_expand_plain(m[other], m, 2);
    lemma_in_text(x, other, braces, y, m[other], m, 1);
    lemma_evaluate_name(name, m, 1);
    let none = Seq::<char>::empty();
    assert(none + v + none =~= v);
    lemma_in_text(none, name, false, none, v, m, 0);
    assert(none + enclosed(name, false) + none =~= enclosed(name, false));
}

/// What stands between the brackets is a function call where it holds a blank: the
/// function's name before it, the arguments behind it.
pub proof fn law_calls_give_way(
    x: Seq<char>,
    f: Seq<char>,
    rest: Seq<char>,
    braces: bool,
    y: Seq<char>,
    m: Map<Seq<char>, Seq<char>>,
)
    requires
        expand::is_plain_name(f),
        no_brackets(f),
        no_brackets(rest),
        rest.len() > 0,
        text::trim(rest) == rest,
        no_dollar(x),
        no_dollar(y),
        expand::is_plain(x + expand::call(f, rest, m, 1) + y),
    ensures
        expand::expand(x + enclosed(f + seq![' '] + rest, braces) + y, m) == x + expand::call(
            f,
            rest,
            m,
            1,
        ) + y,
{
    let inner = f + seq![' '] + rest;
    assert(no_brackets(inner)) by {
        assert forall|i: int| 0 <= i < inner.len() implies #[trigger] inner[i] != '(' && inner[i]
            != ')' && inner[i] != '{' && inner[i] != '}' by {
            if i < f.len() {
                assert(inner[i] == f[i]);
            } else if i > f.len() {
                assert(inner[i] == rest[i - f.len() - 1]);
            }
        }
    }
    lemma_trimmed_ends(rest);
    assert(!text::is_space(f[0]));
    assert(inner[0] == f[0] && inner.last() == rest.last());
    text::lemma_span_is(inner, Class::Space, 0);
    assert(inner.skip(0) =~= inner);
    text::lemma_span_back_is(inner, Class::Space, 0);
    assert(inner.take(inner.len() as int) =~= inner);
    let k = Class::Neither(' ', '\t');
    assert forall|i: int| 0 <= i < f.len() implies k.has(#[trigger] inner[i]) by {
        assert(inner[i] == f[i]);
        assert(!text::is_space(f[i]));
    }
    text::lemma_span_is(inner, k, f.len() as int);
    assert(inner.take(f.len() as int) =~= f);
    expand::lemma_trim_name(f);
    let tail = inner.skip(f.len() as int);
    assert(tail =~= seq![' '] + rest);
    assert(tail[0] == ' ');
    assert(tail[1] == rest[0]);
    text::lemma_span_is(tail, Class::Space, 1);
    assert(tail.skip(1) =~= rest);
    text::lemma_span_back_is(rest, Class::Space, 0);
    assert(rest.take(rest.len() as int) =~= rest);
    lemma_in_text(x, inner, braces, y, expand::call(f, rest, m, 1), m, 0);
}

/// A text that trimming leaves as it is has no white space at either end.
proof fn lemma_trimmed_ends(s: Seq<char>)
    requires
        s.len() > 0,
        text::trim(s) == s,
    ensures
        !text::is_space(s[0]),
        !text::is_space(s.last()),
{
    let t = text::trim_start_of(s, Class::Space);
    text::lemma_span(s, Class::Space);
    text::lemma_span_back(t, Class::Space);
    assert(t.len() == s.len());
    assert(t =~= s);
}

/// What stands in a substitution reference.
proof fn lemma_substitution(name: Seq<char>, p: Seq<char>, r: Seq<char>)
    requires
        expand::is_plain_name(name),
        expand::is_plain_name(p),
        expand::is_plain_name(r),
        no_brackets(name),
        no_brackets(p),
        no_brackets(r),
        !p.contains('='),
    ensures
        ({
            let change = p + seq!['='] + r;
            let inner = name + seq![':'] + p + seq!['='] + r;
            &&& no_brackets(inner)
            &&& text::trim(inner) == inner
            &&& text::span(inner, Class::Neither(' ', '\t')) == inner.len()
            &&& text::find(inner, ":"@) == Some(name.len() as int)
            &&& ":"@.len() == 1
            &&& inner.take(name.len() as int) == name
            &&& inner.skip(name.len() as int + 1) == change
            &&& text::find(change, "="@) == Some(p.len() as int)
            &&& "="@.len() == 1
            &&& change.take(p.len() as int) == p
            &&& change.skip(p.len() as int + 1) == r
        }),
{
    let change = p + seq!['='] + r;
    let inner = name + seq![':'] + p + seq!['='] + r;
    assert(inner =~= name + seq![':'] + change);
    lemma_substitution_text(name, p, r);
    lemma_unspaced(inner);
    reveal_strlit(":");
    reveal_strlit("=");
    assert(":"@ =~= seq![':']);
    assert("="@ =~= seq!['=']);
    assert(!name.contains(':'));
    lemma_found(name, ':', change, ":"@);
    lemma_found(p, '=', r, "="@);
    assert(inner.skip(name.len() as int + 1) =~= change);
    assert(inner.take(name.len() as int) =~= name);
    assert(change.take(p.len() as int) =~= p);
    assert(change.skip(p.len() as int + 1) =~= r);
}

/// A substitution reference holds neither brackets nor white space.
proof fn lemma_substitution_text(name: Seq<char>, p: Seq<char>, r: Seq<char>)
    requires
        expand::is_plain_name(name),
        expand::is_plain_name(p),
        expand::is_plain_name(r),
        no_brackets(name),
        no_brackets(p),
        no_brackets(r),
    ensures
        ({
            let inner = name + seq![':'] + p + seq!['='] + r;
            &&& inner.len() > 0
            &&& no_brackets(inner)
            &&& forall|i: int| 0 <= i < inner.len() ==> !text::is_space(#[trigger] inner[i])
        }),
{
    let inner = name + seq![':'] + p + seq!['='] + r;
    assert forall|i: int| 0 <= i < inner.len() implies #[trigger] inner[i] != '(' && inner[i] != ')'
        && inner[i] != '{' && inner[i] != '}' && !text::is_space(inner[i]) by {
        if i < name.len() {
            assert(inner[i] == name[i]);
        } else if name.len() < i < name.len() + 1 + p.len() {
            assert(inner[i] == p[i - name.len() - 1]);
        } else if i > name.len() + 1 + p.len() {
            assert(inner[i] == r[i - name.len() - p.len() - 2]);
        }
    }
}

/// A text without white space is trimmed, and no blank ends a word in it.
proof fn lemma_unspaced(s: Seq<char>)
    requires
        s.len() > 0,
        forall|i: int| 0 <= i < s.len() ==> !text::is_space(#[trigger] s[i]),
    ensures
        text::trim(s) == s,
        text::span(s, Class::Neither(' ', '\t')) == s.len(),
{
    let k = Class::Neither(' ', '\t');
    assert forall|i: int| 0 <= i < s.len() implies k.has(#[trigger] s[i]) by {
        assert(!text::is_space(s[i]));
    }
    assert(!text::is_space(s[0]));
    assert(!text::is_space(s[s.len() - 1]));
    text::lemma_span_is(s, Class::Space, 0);
    assert(s.skip(0) =~= s);
    text::lemma_span_back_is(s, Class::Space, 0);
    assert(s.take(s.len() as int) =~= s);
    text::lemma_span_is(s, k, s.len() as int);
}

/// A substitution reference turns the words of a variable's value.
#[verifier::rlimit(40)]
pub proof fn law_substitution_references(
    name: Seq<char>,
    p: Seq<char>,
    r: Seq<char>,
    m: Map<Seq<char>, Seq<char>>,
)
    requires
        expand::is_plain_name(name),
        expand::is_plain_name(p),
        expand::is_plain_name(r),
        no_brackets(name),
        no_brackets(p),
        no_brackets(r),
        !p.contains('='),
        m.dom().contains(name),
        expand::is_plain(m[name]),
        ({
            let turned = text::words(m[name]).map_values(|w: Seq<char>| expand::resuffix(w, p, r));
            expand::is_plain(text::join(turned, " "@))
        }),
    ensures
        expand::expand(enclosed(name + seq![':'] + p + seq!['='] + r, false), m) == text::join(
            text::words(m[name]).map_values(|w: Seq<char>| expand::resuffix(w, p, r)),
            " "@,
        ),
{
    let inner = name + seq![':'] + p + seq!['='] + r;
    lemma_substitution(name, p, r);
    expand::lemma_trim_name(name);
    expand::lemma_expand_plain(m[name], m, 1);
    let ws = text::words(m[name]);
    let turned = ws.map_values(|w: Seq<char>| expand::resuffix(w, p, r));
    assert(expand::resuffixes(ws, p, r) =~= turned);
    let v = text::join(turned, " "@);
    let none = Seq::<char>::empty();
    assert(none + v + none =~= v);
    lemma_in_text(none, inner, false, none, v, m, 0);
    assert(none + enclosed(inner, false) + none =~= enclosed(inner, false));
}

/// `$$` stands for `$`, and one `?` at the end is dropped.
pub proof fn law_dollars_and_question_marks(
    x: Seq<char>,
    y: Seq<char>,
    m: Map<Seq<char>, Seq<char>>,
)
    requires
        no_dollar(x),
        no_dollar(y),
        y.len() > 0 ==> y[0] != '(' && y[0] != '{' && y.last() != '?',
    ensures
        expand::expand(x + seq!['$', '$'] + y, m) == x + seq!['$'] + y,
        expand::expand(x + seq!['?'], m) == x,
{
    let s = x + seq!['$', '$'] + y;
    let t = x + seq!['$'] + y;
    let two = seq!['$', '$'] + y;
    let one = seq!['$'] + y;
    assert(s =~= x + two);
    assert(t =~= x + one);
    lemma_pass_front(x, two, m, 0);
    lemma_pass_front(x, one, m, 0);
    expand::lemma_pass_plain(y, m, 0);
    assert(two[0] == '$' && two[1] == '$');
    assert(two.skip(2) =~= y);
    assert(one.skip(1) =~= y);
    assert(one.len() >= 2 ==> one[1] == y[0]);
    assert(expand::pass(two, m, 0) =~= one);
    assert(expand::pass(one, m, 0) =~= one);
    assert(s.len() != t.len());
    assert(expand::passes(t, m, 0, 9) == t);
    assert(expand::passes(s, m, 0, 10) == t);
    assert(t.last() == (if y.len() > 0 {
        y.last()
    } else {
        '$'
    }));
    let q = x + seq!['?'];
    assert forall|i: int| 0 <= i < q.len() implies #[trigger] q[i] != '$' by {
        if i < x.len() {
            assert(q[i] == x[i]);
        }
    }
    expand::lemma_pass_plain(q, m, 0);
    assert(expand::passes(q, m, 0, 10) == q);
    assert(q.drop_last() =~= x);
}

} // verus!

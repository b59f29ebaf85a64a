//! How far make expressions are worked out: arguments, nesting, and passes.

use crate::expand;
use crate::laws_of_make;
use crate::laws_of_texts;
use crate::text;
use vstd::prelude::*;

verus! {

// ─────────────────────────── arguments are expanded ──────────────────────────

/// A function of a list of words is one of what the list expands to.
pub proof fn law_lists_are_expanded(s: Seq<char>, m: Map<Seq<char>, Seq<char>>, depth: nat)
    requires
        expand::is_plain(expand::expand_at(s, m, depth)),
    ensures
        ({
            let e = expand::expand_at(s, m, depth);
            &&& expand::call("strip"@, s, m, depth) == expand::call("strip"@, e, m, depth)
            &&& expand::call("sort"@, s, m, depth) == expand::call("sort"@, e, m, depth)
            &&& expand::call("words"@, s, m, depth) == expand::call("words"@, e, m, depth)
            &&& expand::call("firstword"@, s, m, depth) == expand::call("firstword"@, e, m, depth)
            &&& expand::call("lastword"@, s, m, depth) == expand::call("lastword"@, e, m, depth)
        }),
{
    laws_of_make::lemma_names();
    expand::lemma_expand_plain(expand::expand_at(s, m, depth), m, depth);
}

/// So are the functions of file names and of variables' values.
pub proof fn law_file_names_are_expanded(s: Seq<char>, m: Map<Seq<char>, Seq<char>>, depth: nat)
    requires
        expand::is_plain(expand::expand_at(s, m, depth)),
    ensures
        ({
            let e = expand::expand_at(s, m, depth);
            &&& expand::call("dir"@, s, m, depth) == expand::call("dir"@, e, m, depth)
            &&& expand::call("notdir"@, s, m, depth) == expand::call("notdir"@, e, m, depth)
            &&& expand::call("suffix"@, s, m, depth) == expand::call("suffix"@, e, m, depth)
            &&& expand::call("basename"@, s, m, depth) == expand::call("basename"@, e, m, depth)
            &&& expand::call("value"@, s, m, depth) == expand::call("value"@, e, m, depth)
        }),
{
    laws_of_make::lemma_names();
    expand::lemma_expand_plain(expand::expand_at(s, m, depth), m, depth);
}

/// Whether a text is an argument as it stands: without references, brackets, commas
/// and white space round it.
pub open spec fn is_argument(x: Seq<char>) -> bool {
    expand::is_simple(x) && !x.contains(',') && text::trim(x) == x
}

/// Whether two arguments come apart at the comma between them.
pub open spec fn come_apart(a: Seq<char>, b: Seq<char>) -> bool {
    expand::first_arg(a + seq![','] + b) == a && expand::other_args(a + seq![','] + b) == b
}

/// A function of two arguments is one of what they expand to.
pub proof fn law_two_arguments_are_expanded(
    f: Seq<char>,
    a: Seq<char>,
    b: Seq<char>,
    x: Seq<char>,
    y: Seq<char>,
    m: Map<Seq<char>, Seq<char>>,
    depth: nat,
)
    requires
        come_apart(a, b),
        x == expand::expand_at(text::trim(a), m, depth),
        y == expand::expand_at(text::trim(b), m, depth),
        is_argument(x),
        expand::is_simple(y),
        text::trim(y) == y,
        f == "findstring"@ || f == "filter"@ || f == "filter-out"@ || f == "word"@ || f
            == "addsuffix"@ || f == "addprefix"@ || f == "join"@,
    ensures
        expand::call(f, a + seq![','] + b, m, depth) == expand::call(
            f,
            x + seq![','] + y,
            m,
            depth,
        ),
{
    laws_of_make::lemma_names();
    laws_of_make::lemma_two_args(x, y);
    laws_of_make::lemma_simple(x, m, depth);
    laws_of_make::lemma_simple(y, m, depth);
}

/// A function of three arguments is one of what they expand to.
pub proof fn law_three_arguments_are_expanded(
    f: Seq<char>,
    a: Seq<char>,
    b: Seq<char>,
    c: Seq<char>,
    x: Seq<char>,
    y: Seq<char>,
    z: Seq<char>,
    m: Map<Seq<char>, Seq<char>>,
    depth: nat,
)
    requires
        come_apart(a, b + seq![','] + c),
        come_apart(b, c),
        text::trim(b) == b,
        x == expand::expand_at(text::trim(a), m, depth),
        y == expand::expand_at(b, m, depth),
        z == expand::expand_at(text::trim(c), m, depth),
        is_argument(x),
        is_argument(y),
        expand::is_simple(z),
        text::trim(z) == z,
        f == "subst"@ || f == "patsubst"@ || f == "wordlist"@,
    ensures
        expand::call(f, a + seq![','] + (b + seq![','] + c), m, depth) == expand::call(
            f,
            x + seq![','] + y + seq![','] + z,
            m,
            depth,
        ),
{
    laws_of_make::lemma_names();
    laws_of_make::lemma_three_args(x, y, z);
    laws_of_make::lemma_simple(x, m, depth);
    laws_of_make::lemma_simple(y, m, depth);
    laws_of_make::lemma_simple(z, m, depth);
}

/// `if` chooses by what its condition expands to, and expands what it chooses.
pub proof fn law_conditions_are_expanded(
    a: Seq<char>,
    b: Seq<char>,
    c: Seq<char>,
    m: Map<Seq<char>, Seq<char>>,
    depth: nat,
)
    requires
        come_apart(a, b + seq![','] + c),
        come_apart(b, c),
    ensures
        ({
            let r = expand::call("if"@, a + seq![','] + (b + seq![','] + c), m, depth);
            let holds = text::trim(expand::expand_at(a, m, depth)).len() > 0;
            &&& holds ==> r == expand::expand_at(b, m, depth)
            &&& !holds ==> r == expand::expand_at(c, m, depth)
        }),
{
    laws_of_make::lemma_names();
}

/// `or` and `and` go by what their arguments expand to.
pub proof fn law_choices_are_expanded(
    a: Seq<char>,
    b: Seq<char>,
    m: Map<Seq<char>, Seq<char>>,
    depth: nat,
)
    requires
        come_apart(a, b),
        b.len() > 0,
        expand::first_arg(b) == b,
        expand::other_args(b).len() == 0,
    ensures
        ({
            let either = expand::call("or"@, a + seq![','] + b, m, depth);
            let both = expand::call("and"@, a + seq![','] + b, m, depth);
            let x = expand::expand_at(a, m, depth);
            let y = expand::expand_at(b, m, depth);
            let left = text::trim(x).len() > 0;
            let right = text::trim(y).len() > 0;
            &&& left ==> either == x
            &&& !left && right ==> either == y
            &&& !left && !right ==> either.len() == 0
            &&& left && right ==> both == y
            &&& !left || !right ==> both.len() == 0
        }),
{
    laws_of_make::lemma_names();
    assert(expand::call("or"@, a + seq![','] + b, m, depth) == expand::any_of(
        a + seq![','] + b,
        m,
        depth,
    ));
    assert(expand::call("and"@, a + seq![','] + b, m, depth) == expand::all_of(
        a + seq![','] + b,
        m,
        depth,
    ));
    assert(expand::any_of(b, m, depth) == (if text::trim(expand::expand_at(b, m, depth)).len() > 0 {
        expand::expand_at(b, m, depth)
    } else {
        Seq::empty()
    }));
    assert(expand::all_of(b, m, depth) == (if text::trim(expand::expand_at(b, m, depth)).len()
        == 0 {
        Seq::empty()
    } else {
        expand::expand_at(b, m, depth)
    }));
}

/// Functions that only tell something give nothing; a call of a function that is not
/// known, of `shell` among them, stays.
pub proof fn law_other_functions(
    f: Seq<char>,
    rest: Seq<char>,
    m: Map<Seq<char>, Seq<char>>,
    depth: nat,
)
    ensures
        expand::call("info"@, rest, m, depth).len() == 0,
        expand::call("warning"@, rest, m, depth).len() == 0,
        expand::call("error"@, rest, m, depth).len() == 0,
        expand::call("origin"@, rest, m, depth).len() == 0,
        expand::call("flavor"@, rest, m, depth).len() == 0,
        expand::call("shell"@, rest, m, depth) == seq!['$', '('] + "shell"@ + seq![' '] + rest
            + seq![')'],
        f.len() > 10 ==> expand::call(f, rest, m, depth) == seq!['$', '('] + f + seq![' '] + rest
            + seq![')'],
{
    laws_of_make::lemma_names();
    reveal_strlit("shell");
    reveal_strlit("$(");
    reveal_strlit(" ");
    reveal_strlit(")");
    assert("$("@ =~= seq!['$', '(']);
    assert(" "@ =~= seq![' ']);
    assert(")"@ =~= seq![')']);
    assert("shell"@.len() == 5 && "shell"@[0] == 's' && "shell"@[1] == 'h');
}

/// Where a position is zero or no number the first word is meant; where the end of a
/// range is none, no word is.
pub proof fn law_positions_that_are_no_numbers(w: Seq<char>, n: nat, ws: Seq<Seq<char>>)
    requires
        w.len() > 0,
        text::trim(w) == w,
        !text::is_digit(w[0]),
        w[0] != '+',
        0 < n <= ws.len(),
        n <= usize::MAX,
    ensures
        expand::nth_word(text::decimal(0), ws) == ws[0],
        expand::nth_word(w, ws) == ws[0],
        expand::words_between(w, text::decimal(n), ws) == ws.take(n as int),
        expand::words_between(text::decimal(0), text::decimal(n), ws) == ws.take(n as int),
        expand::words_between(text::decimal(n), w, ws).len() == 0,
{
    laws_of_make::lemma_number_read(0, usize::MAX as nat);
    laws_of_make::lemma_number_read(n, usize::MAX as nat);
    assert(!text::Class::Digit.has(w[0]));
    assert(text::parse_uint(w, usize::MAX as nat) is None);
    assert(ws.subrange(0, n as int) =~= ws.take(n as int));
}

// ─────────────────────────────────── nesting ─────────────────────────────────

/// Whether a text holds no brackets.
pub open spec fn is_open(s: Seq<char>) -> bool {
    forall|i: int|
        0 <= i < s.len() ==> #[trigger] s[i] != '(' && s[i] != ')' && s[i] != '{' && s[i] != '}'
}

proof fn lemma_comma_skips(s: Seq<char>, i: int, j: int, level: int)
    requires
        0 <= i <= j <= s.len(),
        forall|k: int|
            i <= k < j ==> #[trigger] s[k] != '(' && s[k] != ')' && s[k] != '{' && s[k] != '}' && (
            level == 0 ==> s[k] != ','),
    ensures
        expand::comma_from(s, i, level) == expand::comma_from(s, j, level),
    decreases j - i,
{
    if i < j {
        assert(s[i] != '(');
        lemma_comma_skips(s, i + 1, j, level);
    }
}

/// A comma inside brackets does not part arguments.
pub proof fn law_commas_in_brackets(
    x: Seq<char>,
    y: Seq<char>,
    z: Seq<char>,
    w: Seq<char>,
    braces: bool,
)
    requires
        is_open(x),
        is_open(y),
        is_open(z),
        !x.contains(','),
        !z.contains(','),
    ensures
        ({
            let o = if braces {
                '{'
            } else {
                '('
            };
            let c = if braces {
                '}'
            } else {
                ')'
            };
            let a = x + seq![o] + y + seq![c] + z;
            come_apart(a, w) && expand::first_arg(a) == a && expand::other_args(a).len() == 0
        }),
{
    let o = if braces {
        '{'
    } else {
        '('
    };
    let c = if braces {
        '}'
    } else {
        ')'
    };
    let a = x + seq![o] + y + seq![c] + z;
    lemma_comma_behind(x, y, z, seq![','] + w, o, c);
    let s = a + seq![','] + w;
    assert(s =~= a + (seq![','] + w));
    let n = a.len() as int;
    assert(s[n] == ',');
    assert(s.take(n) =~= a);
    assert(s.skip(n + 1) =~= w);
    let none = Seq::<char>::empty();
    assert(a + none =~= a);
    lemma_comma_behind(x, y, z, none, o, c);
}

proof fn lemma_comma_behind(
    x: Seq<char>,
    y: Seq<char>,
    z: Seq<char>,
    t: Seq<char>,
    o: char,
    c: char,
)
    requires
        is_open(x),
        is_open(y),
        is_open(z),
        !x.contains(','),
        !z.contains(','),
        o == '(' && c == ')' || o == '{' && c == '}',
    ensures
        ({
            let a = x + seq![o] + y + seq![c] + z;
            expand::comma_from(a + t, 0, 0) == expand::comma_from(a + t, a.len() as int, 0)
        }),
{
    let a = x + seq![o] + y + seq![c] + z;
    let s = a + t;
    let i = x.len() as int;
    let j = i + 1 + y.len();
    let n = a.len() as int;
    assert forall|k: int| 0 <= k < i implies #[trigger] s[k] != '(' && s[k] != ')' && s[k] != '{'
        && s[k] != '}' && s[k] != ',' by {
        assert(s[k] == x[k]);
        assert(x.contains(x[k]));
    }
    assert forall|k: int| i + 1 <= k < j implies #[trigger] s[k] != '(' && s[k] != ')' && s[k]
        != '{' && s[k] != '}' by {
        assert(s[k] == y[k - i - 1]);
    }
    assert forall|k: int| j + 1 <= k < n implies #[trigger] s[k] != '(' && s[k] != ')' && s[k]
        != '{' && s[k] != '}' && s[k] != ',' by {
        assert(s[k] == z[k - j - 1]);
        assert(z.contains(z[k - j - 1]));
    }
    lemma_comma_skips(s, 0, i, 0);
    assert(s[i] == o);
    lemma_comma_skips(s, i + 1, j, 1);
    assert(s[j] == c);
    lemma_comma_skips(s, j + 1, n, 0);
}

proof fn lemma_closing_skips(s: Seq<char>, i: int, j: int, o: char, c: char, level: int)
    requires
        0 <= i <= j <= s.len(),
        forall|k: int| i <= k < j ==> #[trigger] s[k] != o && s[k] != c,
    ensures
        expand::closing(s, i, o, c, level) == expand::closing(s, j, o, c, level),
    decreases j - i,
{
    if i < j {
        assert(s[i] != o);
        lemma_closing_skips(s, i + 1, j, o, c, level);
    }
}

/// A reference ends at the bracket that closes it, not at one of a reference in it;
/// without that bracket it is none.
pub proof fn law_references_nest(
    x: Seq<char>,
    y: Seq<char>,
    z: Seq<char>,
    w: Seq<char>,
    braces: bool,
)
    requires
        is_open(x),
        is_open(y),
        is_open(z),
        is_open(w),
    ensures
        ({
            let o = if braces {
                '{'
            } else {
                '('
            };
            let c = if braces {
                '}'
            } else {
                ')'
            };
            let inner = x + seq!['$', o] + y + seq![c] + z;
            &&& expand::reference_end(seq!['$', o] + inner + seq![c] + w) == Some(
                2 + inner.len() as int,
            )
            &&& expand::reference_end(seq!['$', o] + x) is None
        }),
{
    let o = if braces {
        '{'
    } else {
        '('
    };
    let c = if braces {
        '}'
    } else {
        ')'
    };
    let inner = x + seq!['$', o] + y + seq![c] + z;
    let s = seq!['$', o] + inner + seq![c] + w;
    let i = 3 + x.len() as int;
    let j = i + 1 + y.len();
    let n = 2 + inner.len() as int;
    assert(s[0] == '$' && s[1] == o);
    assert forall|k: int| 2 <= k < i implies #[trigger] s[k] != o && s[k] != c by {
        if k < i - 1 {
            assert(s[k] == x[k - 2]);
        } else {
            assert(s[k] == '$');
        }
    }
    assert forall|k: int| i + 1 <= k < j implies #[trigger] s[k] != o && s[k] != c by {
        assert(s[k] == y[k - i - 1]);
    }
    assert forall|k: int| j + 1 <= k < n implies #[trigger] s[k] != o && s[k] != c by {
        assert(s[k] == z[k - j - 1]);
    }
    lemma_closing_skips(s, 2, i, o, c, 1);
    assert(s[i] == o);
    lemma_closing_skips(s, i + 1, j, o, c, 2);
    assert(s[j] == c);
    lemma_closing_skips(s, j + 1, n, o, c, 1);
    assert(s[n] == c);
    let t = seq!['$', o] + x;
    assert forall|k: int| 2 <= k < t.len() implies #[trigger] t[k] != o && t[k] != c by {
        assert(t[k] == x[k - 2]);
    }
    lemma_closing_skips(t, 2, t.len() as int, o, c, 1);
    assert(t[0] == '$' && t[1] == o);
}

/// References are worked out inside up to thirty-two calls; deeper they stay.
pub proof fn law_depth_of_references(
    name: Seq<char>,
    s: Seq<char>,
    m: Map<Seq<char>, Seq<char>>,
    depth: nat,
)
    requires
        expand::is_plain_name(name),
        laws_of_make::no_brackets(name),
        m.dom().contains(name),
        expand::is_plain(m[name]),
    ensures
        depth <= 32 ==> expand::expand_at(
            laws_of_make::enclosed(name, false),
            m,
            depth,
        ) == m[name],
        depth > 32 ==> expand::expand_at(s, m, depth) == s,
{
    if depth <= 32 {
        let none = Seq::<char>::empty();
        let v = m[name];
        assert(none + v + none =~= v);
        expand::lemma_expand_plain(v, m, depth + 1);
        expand::lemma_trim_name(name);
        lemma_evaluated(name, m, depth);
        laws_of_make::lemma_in_text(none, name, false, none, v, m, depth);
        let e = laws_of_make::enclosed(name, false);
        assert(none + e + none =~= e);
    }
}

proof fn lemma_evaluated(name: Seq<char>, m: Map<Seq<char>, Seq<char>>, depth: nat)
    requires
        expand::is_plain_name(name),
        m.dom().contains(name),
        expand::is_plain(m[name]),
        text::trim(name) == name,
    ensures
        expand::evaluate(name, m, depth + 1) == m[name],
{
    let k = text::Class::Neither(' ', '\t');
    assert forall|i: int| 0 <= i < name.len() implies k.has(#[trigger] name[i]) by {
        assert(!text::is_space(name[i]));
    }
    text::lemma_span_is(name, k, name.len() as int);
    reveal_strlit(":");
    assert(":"@ =~= seq![':']);
    assert(!name.contains(':'));
    laws_of_make::lemma_not_found(name, ':', ":"@);
    expand::lemma_expand_plain(m[name], m, depth + 1);
}

/// White space inside the brackets of a reference does not matter, and a tab parts a
/// function from its arguments as a blank does.
pub proof fn law_white_space_in_references(
    name: Seq<char>,
    f: Seq<char>,
    rest: Seq<char>,
    m: Map<Seq<char>, Seq<char>>,
    depth: nat,
)
    requires
        expand::is_plain_name(name),
        expand::is_plain_name(f),
        rest.len() > 0,
        text::trim(rest) == rest,
    ensures
        expand::evaluate(seq![' '] + name + seq![' '], m, depth) == expand::evaluate(
            name,
            m,
            depth,
        ),
        expand::evaluate(f + seq![' '] + rest, m, depth) == expand::call(f, rest, m, depth),
        expand::evaluate(f + seq!['\t'] + rest, m, depth) == expand::call(f, rest, m, depth),
{
    expand::lemma_trim_name(name);
    let blank = seq![' '];
    laws_of_texts::law_trim_takes_white_space(blank, name, blank);
    lemma_call_parts(f, ' ', rest);
    lemma_call_parts(f, '\t', rest);
}

proof fn lemma_call_parts(f: Seq<char>, c: char, rest: Seq<char>)
    requires
        expand::is_plain_name(f),
        rest.len() > 0,
        text::trim(rest) == rest,
        c == ' ' || c == '\t',
    ensures
        ({
            let s = f + seq![c] + rest;
            let n = text::span(s, text::Class::Neither(' ', '\t')) as int;
            &&& text::trim(s) == s
            &&& n == f.len()
            &&& text::trim(s.take(n)) == f
            &&& text::trim(s.skip(n)) == rest
        }),
{
    let s = f + seq![c] + rest;
    let k = text::Class::Neither(' ', '\t');
    let n = f.len() as int;
    assert forall|i: int| 0 <= i < n implies k.has(#[trigger] s[i]) by {
        assert(s[i] == f[i]);
        assert(!text::is_space(f[i]));
    }
    assert(s[n] == c);
    text::lemma_span_is(s, k, n);
    expand::lemma_trim_name(f);
    assert(s.take(n) =~= f);
    lemma_trimmed_ends(rest);
    assert(s[0] == f[0]);
    assert(!text::is_space(f[0]));
    assert(s[s.len() - 1] == rest[rest.len() - 1]);
    text::lemma_span_is(s, text::Class::Space, 0);
    assert(s.skip(0) =~= s);
    text::lemma_span_back_is(s, text::Class::Space, 0);
    assert(s.take(s.len() as int) =~= s);
    let t = s.skip(n);
    assert(t =~= seq![c] + rest);
    assert(t[0] == c && t[1] == rest[0]);
    text::lemma_span_is(t, text::Class::Space, 1);
    assert(t.skip(1) =~= rest);
    text::lemma_span_back_is(rest, text::Class::Space, 0);
    assert(rest.take(rest.len() as int) =~= rest);
}

proof fn lemma_trimmed_ends(s: Seq<char>)
    requires
        s.len() > 0,
        text::trim(s) == s,
    ensures
        !text::is_space(s[0]),
        !text::is_space(s[s.len() - 1]),
{
    let k = text::Class::Space;
    let t = text::trim_start_of(s, k);
    text::lemma_span(s, k);
    text::lemma_span_back(t, k);
    assert(t.len() == s.len());
    assert(t =~= s);
}

// ──────────────────────────────────── passes ─────────────────────────────────

/// So many dollars.
pub open spec fn dollars(n: nat) -> Seq<char> {
    Seq::new(n, |i: int| '$')
}

proof fn lemma_pass_halves(n: nat, m: Map<Seq<char>, Seq<char>>, depth: nat)
    requires
        depth <= 32,
    ensures
        expand::pass(dollars(2 * n), m, depth) == dollars(n),
    decreases n,
{
    let s = dollars(2 * n);
    if n == 0 {
        assert(s =~= Seq::<char>::empty());
        assert(dollars(0) =~= Seq::<char>::empty());
    } else {
        assert(s[0] == '$' && s[1] == '$');
        assert(expand::reference_end(s) is None);
        assert(s.skip(2) =~= dollars(2 * (n - 1) as nat));
        lemma_pass_halves((n - 1) as nat, m, depth);
        assert(seq!['$'] + dollars((n - 1) as nat) =~= dollars(n));
    }
}

/// Twice the dollars so many times.
pub open spec fn doubled(n: nat, k: nat) -> nat
    decreases k,
{
    if k == 0 {
        n
    } else {
        2 * doubled(n, (k - 1) as nat)
    }
}

proof fn lemma_passes_halve(
    n: nat,
    k: nat,
    p: nat,
    m: Map<Seq<char>, Seq<char>>,
    depth: nat,
)
    requires
        depth <= 32,
        n > 0,
        k <= p,
    ensures
        expand::passes(dollars(doubled(n, k)), m, depth, p) == expand::passes(
            dollars(n),
            m,
            depth,
            (p - k) as nat,
        ),
    decreases k,
{
    if k > 0 {
        let h = doubled(n, (k - 1) as nat);
        lemma_doubled(n, (k - 1) as nat);
        lemma_pass_halves(h, m, depth);
        assert(dollars(2 * h).len() != dollars(h).len());
        assert(dollars(2 * h) != dollars(h));
        lemma_passes_halve(n, (k - 1) as nat, (p - 1) as nat, m, depth);
    }
}

proof fn lemma_doubled(n: nat, k: nat)
    requires
        n > 0,
    ensures
        doubled(n, k) > 0,
    decreases k,
{
    if k > 0 {
        lemma_doubled(n, (k - 1) as nat);
    }
}

/// Each pass leaves one of two dollars, and ten passes are made: a run of dollars is
/// halved until one is left, up to ten times.
pub proof fn law_ten_passes(n: nat, k: nat, m: Map<Seq<char>, Seq<char>>)
    requires
        n > 0,
        k <= 10,
    ensures
        expand::expand(dollars(doubled(1, k)), m) == dollars(1),
        expand::expand(dollars(doubled(n, 10)), m) == dollars(n),
{
    lemma_passes_halve(1, k, 10, m, 0);
    lemma_passes_halve(n, 10, 10, m, 0);
    let one = dollars(1);
    assert(one[0] == '$');
    assert(expand::reference_end(one) is None);
    assert(one.skip(1) =~= Seq::<char>::empty());
    assert(expand::pass(one.skip(1), m, 0) =~= Seq::<char>::empty());
    assert(expand::pass(one, m, 0) =~= one);
    assert(expand::passes(one, m, 0, (10 - k) as nat) == one);
    assert(dollars(n).last() == '$');
}

} // verus!

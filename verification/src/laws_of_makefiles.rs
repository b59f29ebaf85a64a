//! What is read of a makefile: its lines and assignments, the words of
//! PKG_SOURCE_URL, and the variables that tell a source.

use crate::expand;
use crate::laws_of_make;
use crate::laws_of_sources;
use crate::laws_of_texts;
use crate::makefile_parser;
use crate::makefile_parser::{ParsedMakefile, Reading, RepoFacts, Source, TagForm};
use crate::outside;
use crate::patterns;
use crate::text;
use crate::text::Class;
use crate::vars;
use vstd::prelude::*;

verus! {

// ──────────────────────────────────── lines ──────────────────────────────────

proof fn lemma_backslashes_behind(p: Seq<char>, b: Seq<char>)
    requires
        p.len() > 0,
        p.last() != '\\',
    ensures
        text::trim_end_matches(p + b, "\\"@) == p + text::trim_end_matches(b, "\\"@),
    decreases b.len(),
{
    reveal_strlit("\\");
    let q = "\\"@;
    let s = p + b;
    if b.len() == 0 {
        assert(s =~= p);
        if q.is_suffix_of(s) {
            assert(s.subrange(s.len() - 1, s.len() as int)[0] == s.last());
        }
        assert(p + text::trim_end_matches(b, q) =~= p);
    } else if q.is_suffix_of(b) {
        assert(b.subrange(b.len() - 1, b.len() as int)[0] == b.last());
        assert(s.subrange(s.len() - 1, s.len() as int) =~= q);
        let front = b.take(b.len() - 1);
        assert(s.take(s.len() - 1) =~= p + front);
        lemma_backslashes_behind(p, front);
    } else {
        if q.is_suffix_of(s) {
            assert(s.subrange(s.len() - 1, s.len() as int)[0] == s.last());
            assert(b.subrange(b.len() - 1, b.len() as int) =~= q);
        }
    }
}

/// A line that ends in a backslash goes on in the next one, with a blank between
/// them; any other line stands for itself, without the white space round it.
pub proof fn law_lines_go_on(a: Seq<char>, b: Seq<char>, rest: Seq<Seq<char>>)
    requires
        a.len() == 0 || a.last() != '\\',
    ensures
        makefile_parser::logical_lines(seq![a + seq!['\\'], b] + rest, Seq::empty())
            == makefile_parser::logical_lines(seq![a + seq![' '] + b] + rest, Seq::empty()),
        makefile_parser::logical_lines(seq![a] + rest, Seq::empty()) == seq![text::trim(a)]
            + makefile_parser::logical_lines(rest, Seq::empty()),
{
    reveal_strlit("\\");
    reveal_strlit(" ");
    let q = "\\"@;
    let none = Seq::<char>::empty();
    let c = a + seq!['\\'];
    let x = seq![c, b] + rest;
    let gap = a + seq![' '];
    let y = seq![gap + b] + rest;
    assert(" "@ =~= seq![' ']);
    assert(q =~= seq!['\\']);
    assert(c.subrange(c.len() - 1, c.len() as int) =~= q);
    laws_of_texts::law_ends_are_taken_off(a, q);
    lemma_ends_not(a);
    assert(text::trim_end_matches(c, q) == a);
    let x1 = x.skip(1);
    assert(x1 =~= seq![b] + rest);
    assert(none + a + " "@ =~= gap);
    assert(makefile_parser::logical_lines(x, none) == makefile_parser::logical_lines(x1, gap));
    assert(x1.skip(1) =~= rest);
    assert(y.skip(1) =~= rest);
    assert(none + y[0] =~= gap + b);
    if q.is_suffix_of(b) {
        let s = gap + b;
        assert(b.subrange(b.len() - 1, b.len() as int)[0] == b.last());
        assert(s.subrange(s.len() - 1, s.len() as int) =~= q);
        lemma_backslashes_behind(gap, b);
        assert(none + text::trim_end_matches(s, q) + " "@ =~= gap + text::trim_end_matches(b, q)
            + " "@);
    } else {
        let s = gap + b;
        if q.is_suffix_of(s) {
            assert(s.subrange(s.len() - 1, s.len() as int)[0] == s.last());
            if b.len() > 0 {
                assert(b.subrange(b.len() - 1, b.len() as int) =~= q);
            }
        }
    }
    let z = seq![a] + rest;
    assert(z.skip(1) =~= rest);
    assert(none + a =~= a);
}

proof fn lemma_ends_not(a: Seq<char>)
    requires
        a.len() == 0 || a.last() != '\\',
    ensures
        !"\\"@.is_suffix_of(a),
{
    reveal_strlit("\\");
    if "\\"@.is_suffix_of(a) {
        assert(a.subrange(a.len() - 1, a.len() as int)[0] == a.last());
    }
}

/// An assignment changes the value of its own variable only: `=` and `:=` replace
/// it, `?=` gives one to a variable without any, `+=` puts a blank and the new words
/// behind the old ones.
pub proof fn law_assignments(
    m: Map<Seq<char>, Seq<char>>,
    key: Seq<char>,
    old_value: Seq<char>,
    value: Seq<char>,
    other: Seq<char>,
)
    requires
        other != key,
        old_value.len() > 0,
    ensures
        ({
            let was = m.insert(key, old_value);
            let not = m.remove(key);
            &&& forall|op: Seq<char>|
                vars::lookup(#[trigger] makefile_parser::assigned(m, key, op, value), other)
                    == vars::lookup(m, other)
            &&& vars::lookup(makefile_parser::assigned(m, key, "="@, value), key) == Some(value)
            &&& vars::lookup(makefile_parser::assigned(m, key, ":="@, value), key) == Some(value)
            &&& vars::lookup(makefile_parser::assigned(was, key, "?="@, value), key) == Some(
                old_value,
            )
            &&& vars::lookup(makefile_parser::assigned(not, key, "?="@, value), key) == Some(value)
            &&& vars::lookup(makefile_parser::assigned(was, key, "+="@, value), key) == Some(
                old_value + seq![' '] + value,
            )
            &&& vars::lookup(makefile_parser::assigned(not, key, "+="@, value), key) == Some(value)
        }),
{
    reveal_strlit("=");
    reveal_strlit(":=");
    reveal_strlit("?=");
    reveal_strlit("+=");
    reveal_strlit(" ");
    assert(" "@ =~= seq![' ']);
    assert("="@.len() == 1 && ":="@.len() == 2 && "?="@.len() == 2 && "+="@.len() == 2);
    assert(":="@[0] == ':' && "?="@[0] == '?' && "+="@[0] == '+');
}

/// Whether a line is neither empty nor a comment, and starts with a word.
pub open spec fn starts_with_word(line: Seq<char>, w: Seq<char>) -> bool {
    line.len() > 0 && line[0] != '#' && makefile_parser::first_word(line) == w
}

/// Empty lines and comments change nothing.  `ifeq`, `ifneq`, `ifdef` and `ifndef`
/// open one more block, `endif` closes one, `else` none; inside a block nothing is
/// assigned.
pub proof fn law_blocks_open_and_close(r: Reading, line: Seq<char>)
    ensures
        ({
            let n = makefile_parser::read_line(r, line);
            &&& line.len() == 0 || line[0] == '#' ==> n == r
            &&& starts_with_word(line, "ifeq"@) || starts_with_word(line, "ifneq"@)
                || starts_with_word(line, "ifdef"@) || starts_with_word(line, "ifndef"@) ==> n.depth
                == r.depth + 1 && n.vars == r.vars
            &&& starts_with_word(line, "endif"@) && r.depth > 0 ==> n.depth + 1 == r.depth && n.vars
                == r.vars
            &&& starts_with_word(line, "else"@) ==> n == r
            &&& r.depth > 0 ==> n.vars == r.vars
        }),
{
    reveal_strlit("ifeq");
    reveal_strlit("ifneq");
    reveal_strlit("ifdef");
    reveal_strlit("ifndef");
    reveal_strlit("endif");
    reveal_strlit("else");
    assert("ifeq"@[0] == 'i' && "ifneq"@[0] == 'i' && "ifdef"@[0] == 'i' && "ifndef"@[0] == 'i');
    assert("endif"@.len() == 5 && "else"@.len() == 4 && "endif"@[0] == 'e' && "else"@[0] == 'e');
}

/// A block that is opened and closed again leaves what was read before it.
pub proof fn law_blocks_are_left_out(
    before: Seq<Seq<char>>,
    open: Seq<char>,
    line: Seq<char>,
    close: Seq<char>,
)
    requires
        starts_with_word(open, "ifeq"@) || starts_with_word(open, "ifneq"@) || starts_with_word(
            open,
            "ifdef"@,
        ) || starts_with_word(open, "ifndef"@),
        starts_with_word(close, "endif"@),
        !makefile_parser::opens_block(makefile_parser::first_word(line)),
        makefile_parser::first_word(line) != "endif"@,
    ensures
        makefile_parser::read_lines(before + seq![open, line, close])
            == makefile_parser::read_lines(before),
{
    let a = before.push(open);
    let b = a.push(line);
    let c = b.push(close);
    assert(before + seq![open, line, close] =~= c);
    assert(a.drop_last() =~= before && b.drop_last() =~= a && c.drop_last() =~= b);
    let r = makefile_parser::read_lines(before);
    law_blocks_open_and_close(r, open);
    let s = makefile_parser::read_line(r, open);
    law_blocks_open_and_close(s, line);
    let t = makefile_parser::read_line(s, line);
    law_blocks_open_and_close(t, close);
    assert(makefile_parser::read_lines(a) == s);
    assert(makefile_parser::read_lines(b) == t);
    assert(t.depth == r.depth + 1);
}

/// A line `NAME op value` outside conditional blocks assigns the value to the name.
pub proof fn law_assignment_lines(
    r: Reading,
    name: Seq<char>,
    op: Seq<char>,
    value: Seq<char>,
    tail: Seq<char>,
)
    requires
        r.depth == 0,
        name.len() > 0,
        text::all_in(name, Class::Ident),
        !text::is_digit(name[0]),
        op == "="@ || op == ":="@ || op == "?="@ || op == "+="@,
        text::trim(value) == value,
        tail == name + op + value,
        !makefile_parser::opens_block(makefile_parser::first_word(tail)),
        makefile_parser::first_word(tail) != "endif"@,
        makefile_parser::first_word(tail) != "else"@,
    ensures
        makefile_parser::read_line(r, tail) == (Reading {
            vars: makefile_parser::assigned(r.vars, name, op, value),
            depth: 0,
        }),
{
    reveal_strlit("=");
    reveal_strlit(":=");
    reveal_strlit("?=");
    reveal_strlit("+=");
    let line = tail;
    let n = name.len() as int;
    assert(op.len() == 1 || op.len() == 2);
    assert(op[0] == '=' || op[0] == ':' || op[0] == '?' || op[0] == '+');
    assert(Class::Ident.has(name[0]));
    assert(line[0] == name[0]);
    assert(line[n] == op[0]);
    assert forall|j: int| 0 <= j < n implies Class::Ident.has(#[trigger] line[j]) by {
        assert(line[j] == name[j]);
    }
    assert(!Class::Ident.has(line[n]));
    text::lemma_span_is(line, Class::Ident, n);
    let rest = line.skip(n);
    assert(rest =~= op + value);
    assert(!Class::Space.has(rest[0]));
    text::lemma_span_is(rest, Class::Space, 0);
    assert(rest.skip(0) =~= rest);
    assert(line.take(n) =~= name);
    let k = op.len() as int;
    assert(rest.take(k) =~= op);
    assert(rest.skip(k) =~= value);
    if op.len() == 2 {
        assert(rest[1] == op[1] && op[1] == '=');
    }
    lemma_trimmed_start(value);
    let g = outside::assignment(line)->0;
    assert(outside::group(g, 1) == name);
    assert(outside::group(g, 2) == op);
    assert(outside::group(g, 3) == value);
}

/// A text without white space round it starts with none.
proof fn lemma_trimmed_start(v: Seq<char>)
    requires
        text::trim(v) == v,
    ensures
        text::trim_start_of(v, Class::Space) == v,
{
    let n = text::span(v, Class::Space) as int;
    text::lemma_span(v, Class::Space);
    let t = text::trim_start_of(v, Class::Space);
    text::lemma_span_back(t, Class::Space);
    assert(v.skip(0) =~= v);
}

// ───────────────────────────── the version in effect ─────────────────────────

/// A version in PKG_SOURCE_VERSION, which starts with a digit, holds no underscore,
/// is no hash and is not made of PKG_VERSION, is in effect; hashes of twelve digits
/// or more and texts with an underscore are not.
pub proof fn law_source_version_in_effect(version: Seq<char>, given: Seq<char>)
    requires
        text::trim(given) == given,
        given.len() > 0,
        version.len() > 0,
    ensures
        makefile_parser::version_in_effect(version, None) == version,
        text::is_digit(given[0]) && !given.contains('_') && !text::contains(given, version) && (
        given.len() < 12 || given.len() > 40 || given.contains('.') || given.contains('-'))
            ==> makefile_parser::version_in_effect(version, Some(given)) == given,
        given.contains('_') ==> makefile_parser::version_in_effect(version, Some(given)) == version,
        12 <= given.len() <= 40 && text::all_in(given, Class::LowerHex)
            ==> makefile_parser::version_in_effect(version, Some(given)) == version,
        !text::is_digit(given[0]) ==> makefile_parser::version_in_effect(version, Some(given))
            == version,
        given == version ==> makefile_parser::version_in_effect(version, Some(given)) == version,
{
    reveal_strlit("_");
    assert("_"@ =~= seq!['_']);
    if !given.contains('_') {
        laws_of_make::lemma_not_found(given, '_', "_"@);
    } else {
        let j = choose|j: int| 0 <= j < given.len() && given[j] == '_';
        assert(given.subrange(j, j + 1) =~= "_"@);
        assert(text::occurs_at(given, "_"@, j));
    }
    if given.contains('.') {
        let j = choose|j: int| 0 <= j < given.len() && given[j] == '.';
        assert(!Class::Hex.has(given[j]));
    }
    if given.contains('-') {
        let j = choose|j: int| 0 <= j < given.len() && given[j] == '-';
        assert(!Class::Hex.has(given[j]));
    }
    if text::all_in(given, Class::LowerHex) {
        assert forall|j: int| 0 <= j < given.len() implies Class::Hex.has(#[trigger] given[j]) by {
            assert(Class::LowerHex.has(given[j]));
        }
    }
    assert(version.subrange(0, version.len() as int) =~= version);
    assert(text::occurs_at(version, version, 0));
}

/// White space round PKG_SOURCE_VERSION is not part of it.
pub proof fn law_source_version_is_trimmed(version: Seq<char>, raw: Seq<char>)
    ensures
        makefile_parser::version_in_effect(version, Some(raw)) == makefile_parser::version_in_effect(
            version,
            Some(text::trim(raw)),
        ),
{
    laws_of_texts::law_trimmed_texts_stay(raw);
}

// ──────────────────────────── words of PKG_SOURCE_URL ────────────────────────

/// The URLs of two lists of words are those of the first, then those of the second.
/// A word with `http://` or `https://` in front is a URL, without question marks at
/// its end; any other is none.
pub proof fn law_urls_are_picked(a: Seq<Seq<char>>, b: Seq<Seq<char>>, x: Seq<char>, w: Seq<char>)
    requires
        x.len() == 0 || x.last() != '?',
        w.len() == 0 || w[0] != 'h',
    ensures
        makefile_parser::urls_among(a + b) == makefile_parser::urls_among(a)
            + makefile_parser::urls_among(b),
        makefile_parser::urls_among(seq!["https://"@ + x]) == seq!["https://"@ + x],
        makefile_parser::urls_among(seq!["http://"@ + x]) == seq!["http://"@ + x],
        makefile_parser::urls_among(seq!["https://"@ + x + seq!['?']]) == seq!["https://"@ + x],
        makefile_parser::urls_among(seq!["https://"@ + x + seq!['?'] + seq!['?']]) == seq![
            "https://"@ + x,
        ],
        makefile_parser::urls_among(seq![w]).len() == 0,
{
    reveal_strlit("https://");
    reveal_strlit("http://");
    lemma_urls_of_both(a, b);
    lemma_one_url("https://"@ + x);
    lemma_one_url("http://"@ + x);
    let c = "https://"@ + x;
    let d = "http://"@ + x;
    let e = c + seq!['?'];
    assert(c.subrange(0, 8) =~= "https://"@);
    assert(d.subrange(0, 7) =~= "http://"@);
    assert(e.subrange(0, 8) =~= "https://"@);
    reveal_strlit("?");
    assert("?"@ =~= seq!['?']);
    laws_of_texts::law_ends_are_taken_off(c, "?"@);
    lemma_one_url(e);
    let ee = e + seq!['?'];
    assert(ee.subrange(0, 8) =~= "https://"@);
    laws_of_texts::law_ends_are_taken_off(e, "?"@);
    lemma_one_url(ee);
    let none = Seq::<Seq<char>>::empty();
    assert(seq![w].drop_last() =~= none);
    assert(makefile_parser::urls_among(none) =~= none);
    if "https://"@.is_prefix_of(w) {
        assert(w.subrange(0, 8)[0] == w[0]);
    }
    if "http://"@.is_prefix_of(w) {
        assert(w.subrange(0, 7)[0] == w[0]);
    }
    assert(makefile_parser::urls_among(seq![w]) =~= none);
    assert(makefile_parser::urls_among(seq![c]) =~= seq![c]);
    assert(makefile_parser::urls_among(seq![d]) =~= seq![d]);
    assert(makefile_parser::urls_among(seq![e]) =~= seq![c]);
    assert(makefile_parser::urls_among(seq![ee]) =~= seq![c]);
}

proof fn lemma_one_url(u: Seq<char>)
    ensures
        "https://"@.is_prefix_of(u) || "http://"@.is_prefix_of(u) ==> makefile_parser::urls_among(
            seq![u],
        ) == seq![text::trim_end_matches(u, "?"@)],
        u.len() > 0 && u.last() != '?' ==> text::trim_end_matches(u, "?"@) == u,
{
    reveal_strlit("?");
    let none = Seq::<Seq<char>>::empty();
    assert(seq![u].drop_last() =~= none);
    assert(makefile_parser::urls_among(none) =~= none);
    assert(none.push(text::trim_end_matches(u, "?"@)) =~= seq![text::trim_end_matches(u, "?"@)]);
    if "?"@.is_suffix_of(u) {
        assert(u.subrange(u.len() - 1, u.len() as int)[0] == u.last());
    }
}

proof fn lemma_urls_of_both(a: Seq<Seq<char>>, b: Seq<Seq<char>>)
    ensures
        makefile_parser::urls_among(a + b) == makefile_parser::urls_among(a)
            + makefile_parser::urls_among(b),
    decreases b.len(),
{
    let s = a + b;
    if b.len() == 0 {
        assert(s =~= a);
        assert(makefile_parser::urls_among(a) + makefile_parser::urls_among(b)
            =~= makefile_parser::urls_among(a));
    } else {
        assert(s.drop_last() =~= a + b.drop_last());
        assert(s.last() == b.last());
        lemma_urls_of_both(a, b.drop_last());
        assert(makefile_parser::urls_among(s) =~= makefile_parser::urls_among(a)
            + makefile_parser::urls_among(b));
    }
}

/// Whether a text can be a segment of a path as it stands: not empty, without
/// slashes and expressions.
pub open spec fn is_segment(s: Seq<char>) -> bool {
    s.len() > 0 && !s.contains('/') && expand::is_plain(s)
}

proof fn lemma_segment(p: Seq<char>, x: Seq<char>, m: Map<Seq<char>, Seq<char>>)
    requires
        is_segment(p),
    ensures
        text::before(p, "/"@) == p,
        text::before(p + seq!['/'] + x, "/"@) == p,
        text::contains(p + seq!['/'] + x, "/"@),
        expand::expand(p, m) == p,
        !makefile_parser::is_unresolved(p),
{
    reveal_strlit("/");
    assert("/"@ =~= seq!['/']);
    laws_of_make::lemma_not_found(p, '/', "/"@);
    laws_of_make::lemma_found(p, '/', x, "/"@);
    let t = p + seq!['/'] + x;
    assert(t.take(p.len() as int) =~= p);
    text::lemma_find(t, "/"@);
    text::lemma_contains(t, "/"@);
    expand::lemma_expand_plain(p, m, 0);
    reveal_strlit("$(");
    if text::contains(p, "$("@) {
        let i = choose|i: int| text::occurs_at(p, "$("@, i);
        assert(p.subrange(i, i + 2)[0] == p[i]);
        assert("$("@[0] == '$');
    }
}

/// `@SF/` with a project behind it is the project on SourceForge, whatever follows
/// in the path.
pub proof fn law_sourceforge_macros(
    project: Seq<char>,
    tail: Seq<char>,
    x: Seq<char>,
    m: Map<Seq<char>, Seq<char>>,
    name: Seq<char>,
)
    requires
        is_segment(project),
        project != "project"@,
        tail == project || tail == project + seq!['/'] + x,
    ensures
        makefile_parser::macro_source("@SF/"@ + tail, m, name) == Some(
            Source::SourceForge { project },
        ),
{
    lemma_segment(project, x, m);
    lemma_sf_project(project, x);
    lemma_sf_macro(tail, project, m, name);
}

/// The word `project` may stand before the project.
pub proof fn law_sourceforge_project_macros(
    project: Seq<char>,
    tail: Seq<char>,
    x: Seq<char>,
    m: Map<Seq<char>, Seq<char>>,
    name: Seq<char>,
)
    requires
        is_segment(project),
        tail == project || tail == project + seq!['/'] + x,
    ensures
        makefile_parser::macro_source("@SF/project/"@ + tail, m, name) == Some(
            Source::SourceForge { project },
        ),
{
    lemma_segment(project, x, m);
    lemma_sf_project(project, x);
    lemma_sf_word(tail);
    lemma_sf_macro("project"@ + seq!['/'] + tail, project, m, name);
}

/// A SourceForge macro is of the project that its argument names.
proof fn lemma_sf_macro(
    rest: Seq<char>,
    project: Seq<char>,
    m: Map<Seq<char>, Seq<char>>,
    name: Seq<char>,
)
    requires
        makefile_parser::sf_project(rest) == project,
        expand::expand(project, m) == project,
        !makefile_parser::is_unresolved(project),
    ensures
        makefile_parser::macro_source("@SF/"@ + rest, m, name) == Some(
            Source::SourceForge { project },
        ),
{
    lemma_sf_front("@SF/"@ + rest, rest);
}

proof fn lemma_sf_front(s: Seq<char>, t: Seq<char>)
    requires
        s == "@SF/"@ + t,
    ensures
        "@SF/"@.is_prefix_of(s),
        s.skip("@SF/"@.len() as int) == t,
{
    let f = "@SF/"@;
    assert(s.subrange(0, f.len() as int) =~= f);
    assert(s.skip(f.len() as int) =~= t);
}

proof fn lemma_sf_word(t: Seq<char>)
    ensures
        "@SF/project/"@ + t == "@SF/"@ + ("project"@ + seq!['/'] + t),
{
    reveal_strlit("@SF/");
    reveal_strlit("@SF/project/");
    reveal_strlit("project");
    assert("@SF/project/"@ =~= "@SF/"@ + "project"@ + seq!['/']);
    assert("@SF/project/"@ + t =~= "@SF/"@ + ("project"@ + seq!['/'] + t));
}

proof fn lemma_sf_project(project: Seq<char>, x: Seq<char>)
    requires
        is_segment(project),
    ensures
        project != "project"@ ==> makefile_parser::sf_project(project) == project
            && makefile_parser::sf_project(project + seq!['/'] + x) == project,
        makefile_parser::sf_project("project"@ + seq!['/'] + project) == project,
        makefile_parser::sf_project("project"@ + seq!['/'] + (project + seq!['/'] + x)) == project,
{
    reveal_strlit("project");
    reveal_strlit("/");
    assert("/"@ =~= seq!['/']);
    let w = "project"@;
    let more = project + seq!['/'] + x;
    laws_of_make::lemma_not_found(project, '/', "/"@);
    laws_of_make::lemma_found(project, '/', x, "/"@);
    assert(more.take(project.len() as int) =~= project);
    assert(!w.contains('/'));
    laws_of_make::lemma_found(w, '/', project, "/"@);
    laws_of_make::lemma_found(w, '/', more, "/"@);
    let y = w + seq!['/'] + project;
    let z = w + seq!['/'] + more;
    text::lemma_contains(y, "/"@);
    text::lemma_contains(z, "/"@);
    assert(y.take(7) =~= w && z.take(7) =~= w);
    assert(y.skip(8) =~= project);
    assert(z.skip(8) =~= more);
}

/// Whether a text is the front of a mirror macro, and which mirror it is.
pub open spec fn is_mirror_front(f: Seq<char>, mirror: Seq<char>) -> bool {
    ||| f == "@GNU/"@ && mirror == "GNU"@
    ||| f == "@GNOME/"@ && mirror == "GNOME"@
    ||| f == "@APACHE/"@ && mirror == "APACHE"@
    ||| f == "@SAVANNAH/"@ && mirror == "SAVANNAH"@
    ||| f == "@KERNEL/"@ && mirror == "KERNEL"@
}

/// A mirror macro is of the package that its first segment names.
pub proof fn law_mirror_macros(
    f: Seq<char>,
    mirror: Seq<char>,
    package: Seq<char>,
    x: Seq<char>,
    m: Map<Seq<char>, Seq<char>>,
    name: Seq<char>,
)
    requires
        is_mirror_front(f, mirror),
        is_segment(package),
    ensures
        makefile_parser::macro_source(f + (package + seq!['/'] + x), m, name) == Some(
            Source::GnuMirror { mirror, package },
        ),
{
    lemma_segment(package, x, m);
    lemma_fronts_differ();
    lemma_macro_front(f, package + seq!['/'] + x);
}

/// A mirror macro that names no package is of the package with the makefile's name.
pub proof fn law_mirror_macros_without_package(
    f: Seq<char>,
    mirror: Seq<char>,
    m: Map<Seq<char>, Seq<char>>,
    name: Seq<char>,
)
    requires
        is_mirror_front(f, mirror),
    ensures
        makefile_parser::macro_source(f, m, name) == Some(
            Source::GnuMirror { mirror, package: name },
        ),
{
    let none = Seq::<char>::empty();
    lemma_fronts_differ();
    lemma_macro_front(f, none);
    assert(f + none =~= f);
    lemma_no_package(m);
}

/// The macros of the OpenWrt mirrors name no package; a word without an `@` in front
/// is no macro.
pub proof fn law_other_macros(x: Seq<char>, m: Map<Seq<char>, Seq<char>>, name: Seq<char>)
    ensures
        makefile_parser::macro_source("@OPENWRT"@ + x, m, name) == Some(Source::OpenWrtMirror),
        makefile_parser::macro_source("@IMMORTALWRT"@ + x, m, name) == Some(Source::OpenWrtMirror),
        x.len() == 0 || x[0] != '@' ==> makefile_parser::macro_source(x, m, name) is None,
{
    lemma_fronts_differ();
    lemma_macro_front("@OPENWRT"@, x);
    lemma_macro_front("@IMMORTALWRT"@, x);
    if x.len() == 0 || x[0] != '@' {
        lemma_no_macro(x);
    }
}

proof fn lemma_no_package(m: Map<Seq<char>, Seq<char>>)
    ensures
        expand::expand(text::before(Seq::<char>::empty(), "/"@), m).len() == 0,
{
    let none = Seq::<char>::empty();
    reveal_strlit("/");
    assert(!none.contains('/'));
    assert("/"@ =~= seq!['/']);
    laws_of_make::lemma_not_found(none, '/', "/"@);
    expand::lemma_expand_plain(none, m, 0);
}

proof fn lemma_fronts_differ()
    ensures
        "@GNU/"@ != "@GNOME/"@,
        "@GNU/"@ != "@APACHE/"@,
        "@GNU/"@ != "@SAVANNAH/"@,
        "@GNU/"@ != "@KERNEL/"@,
        "@GNU/"@ != "@OPENWRT"@,
        "@GNU/"@ != "@IMMORTALWRT"@,
        "@GNOME/"@ != "@APACHE/"@,
        "@GNOME/"@ != "@SAVANNAH/"@,
        "@GNOME/"@ != "@KERNEL/"@,
        "@GNOME/"@ != "@OPENWRT"@,
        "@GNOME/"@ != "@IMMORTALWRT"@,
        "@APACHE/"@ != "@SAVANNAH/"@,
        "@APACHE/"@ != "@KERNEL/"@,
        "@APACHE/"@ != "@OPENWRT"@,
        "@APACHE/"@ != "@IMMORTALWRT"@,
        "@SAVANNAH/"@ != "@KERNEL/"@,
        "@SAVANNAH/"@ != "@OPENWRT"@,
        "@SAVANNAH/"@ != "@IMMORTALWRT"@,
        "@KERNEL/"@ != "@OPENWRT"@,
        "@KERNEL/"@ != "@IMMORTALWRT"@,
{
    reveal_strlit("@GNU/");
    reveal_strlit("@GNOME/");
    reveal_strlit("@APACHE/");
    reveal_strlit("@SAVANNAH/");
    reveal_strlit("@KERNEL/");
    reveal_strlit("@OPENWRT");
    reveal_strlit("@IMMORTALWRT");
    assert("@GNU/"@[1] == 'G' && "@GNU/"@[3] == 'U');
    assert("@GNOME/"@[1] == 'G' && "@GNOME/"@[3] == 'O');
    assert("@APACHE/"@[1] == 'A');
    assert("@SAVANNAH/"@[1] == 'S');
    assert("@KERNEL/"@[1] == 'K');
    assert("@OPENWRT"@[1] == 'O');
    assert("@IMMORTALWRT"@[1] == 'I');
}

/// What stands behind the front of a macro, and which other fronts it does not
/// have.
proof fn lemma_macro_front(f: Seq<char>, t: Seq<char>)
    requires
        f == "@GNU/"@ || f == "@GNOME/"@ || f == "@APACHE/"@ || f == "@SAVANNAH/"@ || f
            == "@KERNEL/"@ || f == "@OPENWRT"@ || f == "@IMMORTALWRT"@,
    ensures
        f.is_prefix_of(f + t),
        (f + t).skip(f.len() as int) == t,
        !"@SF/"@.is_prefix_of(f + t),
        "@GNU/"@.is_prefix_of(f + t) ==> f == "@GNU/"@,
        "@GNOME/"@.is_prefix_of(f + t) ==> f == "@GNOME/"@,
        "@APACHE/"@.is_prefix_of(f + t) ==> f == "@APACHE/"@,
        "@SAVANNAH/"@.is_prefix_of(f + t) ==> f == "@SAVANNAH/"@,
        "@KERNEL/"@.is_prefix_of(f + t) ==> f == "@KERNEL/"@,
        "@OPENWRT"@.is_prefix_of(f + t) ==> f == "@OPENWRT"@,
        "@IMMORTALWRT"@.is_prefix_of(f + t) ==> f == "@IMMORTALWRT"@,
{
    reveal_strlit("@SF/");
    reveal_strlit("@GNU/");
    reveal_strlit("@GNOME/");
    reveal_strlit("@APACHE/");
    reveal_strlit("@SAVANNAH/");
    reveal_strlit("@KERNEL/");
    reveal_strlit("@OPENWRT");
    reveal_strlit("@IMMORTALWRT");
    let s = f + t;
    assert(f.len() >= 5);
    assert(s.subrange(0, f.len() as int) =~= f);
    assert(s.skip(f.len() as int) =~= t);
    assert(s[1] == f[1] && s[2] == f[2] && s[3] == f[3]);
    lemma_third("@SF/"@, s);
    lemma_third("@GNU/"@, s);
    lemma_third("@GNOME/"@, s);
    lemma_third("@APACHE/"@, s);
    lemma_third("@SAVANNAH/"@, s);
    lemma_third("@KERNEL/"@, s);
    lemma_third("@OPENWRT"@, s);
    lemma_third("@IMMORTALWRT"@, s);
}

proof fn lemma_third(f: Seq<char>, s: Seq<char>)
    requires
        f.len() > 3,
        s.len() > 3,
    ensures
        f.is_prefix_of(s) ==> s[0] == f[0] && s[1] == f[1] && s[2] == f[2] && s[3] == f[3],
{
    if f.is_prefix_of(s) {
        let p = s.subrange(0, f.len() as int);
        assert(p[0] == s[0] && p[1] == s[1] && p[2] == s[2] && p[3] == s[3]);
    }
}

proof fn lemma_no_macro(x: Seq<char>)
    requires
        x.len() == 0 || x[0] != '@',
    ensures
        !"@SF/"@.is_prefix_of(x),
        !"@GNU/"@.is_prefix_of(x),
        !"@GNOME/"@.is_prefix_of(x),
        !"@APACHE/"@.is_prefix_of(x),
        !"@SAVANNAH/"@.is_prefix_of(x),
        !"@KERNEL/"@.is_prefix_of(x),
        !"@OPENWRT"@.is_prefix_of(x),
        !"@IMMORTALWRT"@.is_prefix_of(x),
{
    reveal_strlit("@SF/");
    reveal_strlit("@GNU/");
    reveal_strlit("@GNOME/");
    reveal_strlit("@APACHE/");
    reveal_strlit("@SAVANNAH/");
    reveal_strlit("@KERNEL/");
    reveal_strlit("@OPENWRT");
    reveal_strlit("@IMMORTALWRT");
    assert forall|f: Seq<char>| f.len() > 0 && f[0] == '@' implies !#[trigger] f.is_prefix_of(
        x,
    ) by {
        if f.is_prefix_of(x) {
            assert(x.subrange(0, f.len() as int)[0] == x[0]);
        }
    }
}

// ────────────────────────── sources told by variables ────────────────────────

/// Whether a makefile gives a variable a value that is there and needs no
/// expansion.
pub open spec fn gives(m: Map<Seq<char>, Seq<char>>, key: Seq<char>, v: Seq<char>) -> bool {
    vars::lookup(m, key) == Some(v) && v.len() > 0 && expand::is_plain(v)
}

/// Whether a makefile does not give a variable a value.
pub open spec fn lacks(m: Map<Seq<char>, Seq<char>>, key: Seq<char>) -> bool {
    vars::lookup(m, key) is None || vars::lookup(m, key) == Some(Seq::<char>::empty())
}

proof fn lemma_given(m: Map<Seq<char>, Seq<char>>, key: Seq<char>, v: Seq<char>)
    ensures
        gives(m, key, v) ==> makefile_parser::resolved_var(m, key) == Some(v)
            && makefile_parser::expanded_var(m, key) == Some(v)
            && makefile_parser::expanded_or_empty(m, key) == v,
        lacks(m, key) ==> makefile_parser::resolved_var(m, key) is None
            && makefile_parser::expanded_or_empty(m, key).len() == 0,
{
    if gives(m, key, v) {
        expand::lemma_expand_plain(v, m, 0);
        lemma_no_expression(v);
    }
    expand::lemma_expand_plain(Seq::<char>::empty(), m, 0);
}

proof fn lemma_no_expression(v: Seq<char>)
    requires
        expand::is_plain(v),
    ensures
        !text::contains(v, "$("@),
{
    reveal_strlit("$(");
    if text::contains(v, "$("@) {
        let i = choose|i: int| text::occurs_at(v, "$("@, i);
        assert(v.subrange(i, i + 2)[0] == v[i]);
    }
}

/// A package without a known URL is looked for where the variables of its language
/// say: PYPI_NAME, then METACPAN_NAME, PECL_NAME, and PKG_NPM_NAME with its scope.
/// Without any it has its first URL, and without that no source.
pub proof fn law_language_variables(
    urls: Seq<Seq<char>>,
    m: Map<Seq<char>, Seq<char>>,
    x: Seq<char>,
    scope: Seq<char>,
)
    ensures
        ({
            let s = makefile_parser::ecosystem_source(urls, m);
            let python = lacks(m, "PYPI_NAME"@);
            let perl = lacks(m, "METACPAN_NAME"@);
            let php = lacks(m, "PECL_NAME"@);
            let node = lacks(m, "PKG_NPM_NAME"@);
            &&& gives(m, "PYPI_NAME"@, x) ==> s == (Source::PyPI { package: x })
            &&& python && gives(m, "METACPAN_NAME"@, x) ==> s == (Source::Cpan { module: x })
            &&& python && perl && gives(m, "PECL_NAME"@, x) ==> s == (Source::Pecl { package: x })
            &&& python && perl && php && gives(m, "PKG_NPM_NAME"@, x) && lacks(
                m,
                "PKG_NPM_SCOPE"@,
            ) ==> s == (Source::Npm { package: x })
            &&& python && perl && php && gives(m, "PKG_NPM_NAME"@, x) && gives(
                m,
                "PKG_NPM_SCOPE"@,
                scope,
            ) ==> s == (Source::Npm { package: seq!['@'] + scope + seq!['/'] + x })
            &&& python && perl && php && node && urls.len() > 0 ==> s == (Source::CustomUrl {
                url: urls[0],
            })
            &&& python && perl && php && node && urls.len() == 0 && lacks(m, "PKG_SOURCE_URL"@)
                ==> s is NoSource
            &&& python && perl && php && node && urls.len() == 0 && vars::value_of(
                m,
                "PKG_SOURCE_URL"@,
            ).len() > 0 ==> s is Unknown
        }),
{
    lemma_given(m, "PYPI_NAME"@, x);
    lemma_given(m, "METACPAN_NAME"@, x);
    lemma_given(m, "PECL_NAME"@, x);
    lemma_given(m, "PKG_NPM_NAME"@, x);
    lemma_given(m, "PKG_NPM_SCOPE"@, scope);
    reveal_strlit("@");
    reveal_strlit("/");
    assert("@"@ =~= seq!['@']);
    assert("/"@ =~= seq!['/']);
}

/// Whether none of some URLs is a clone URL or a page of GitHub or GitLab, nor a
/// directory of CPAN.
pub open spec fn of_no_repository(urls: Seq<Seq<char>>) -> bool {
    forall|i: int|
        0 <= i < urls.len() ==> {
            &&& outside::regex_captures(patterns::GITHUB_GIT@, #[trigger] urls[i]) is None
            &&& outside::regex_captures(patterns::GITLAB_GIT@, urls[i]) is None
            &&& outside::regex_captures(patterns::GITHUB_BARE@, urls[i]) is None
            &&& !outside::regex_is_match(patterns::CPAN_DIR@, urls[i])
        }
}

/// A commit hash in PKG_SOURCE_VERSION makes a repository followed by commits; a
/// tag there is followed by the tags that its template makes, or those of its path;
/// without it the releases with a `v` count.
pub proof fn law_repositories_by_source_version(
    owner: Seq<char>,
    repo: Seq<char>,
    host: Seq<char>,
    hash: Seq<char>,
    tag: Seq<char>,
    path: Seq<char>,
    version: Seq<char>,
)
    requires
        hash.len() == 40,
        text::all_in(hash, Class::LowerHex),
        tag.len() != 40,
        !tag.contains('/'),
        path.len() > 0,
        !path.contains('/'),
        text::any_in(path, Class::NotDigitNorDot),
        !version.contains('/'),
    ensures
        makefile_parser::github_source(owner, repo, Some(hash), version) == (
        Source::GitHubCommit { owner, repo, commit: hash }),
        makefile_parser::github_source(owner, repo, Some(tag), version) == (
        Source::GitHubRelease {
            owner,
            repo,
            tag_template: makefile_parser::template_of(tag, version),
        }),
        makefile_parser::github_source(owner, repo, Some(path + seq!['/'] + version), version) == (
        Source::GitHubTagPath { owner, repo, tag_path: path + seq!['/'] }),
        makefile_parser::github_source(owner, repo, None, version) == (Source::GitHubRelease {
            owner,
            repo,
            tag_template: TagForm::WithV,
        }),
        makefile_parser::gitlab_source(host, owner, repo, Some(hash), version) == (
        Source::GitLab { host, owner, repo, tag_template: TagForm::Plain }),
        makefile_parser::gitlab_source(host, owner, repo, Some(tag), version) == (
        Source::GitLab {
            host,
            owner,
            repo,
            tag_template: makefile_parser::template_of(tag, version),
        }),
        makefile_parser::gitlab_source(host, owner, repo, None, version) == (Source::GitLab {
            host,
            owner,
            repo,
            tag_template: TagForm::WithV,
        }),
{
    reveal_strlit("/");
    assert("/"@ =~= seq!['/']);
    laws_of_make::lemma_not_found(tag, '/', "/"@);
    laws_of_sources::law_paths_of_tags(path, seq!['1'], version, tag);
    let t = path + seq!['/'] + version;
    if outside::is_commit_hash(t) {
        assert(Class::LowerHex.has(t[path.len() as int]));
    }
}

proof fn lemma_firsts(urls: Seq<Seq<char>>, i: int)
    requires
        0 <= i < urls.len(),
        of_no_repository(urls.take(i)),
    ensures
        ({
            let f = makefile_parser::all_repo_facts(urls);
            &&& f[i].github_git is Some ==> makefile_parser::first_github_git(f) == f[i].github_git
            &&& f[i].gitlab_git is Some && makefile_parser::first_github_git(f) is None
                ==> makefile_parser::first_gitlab_git(f) == f[i].gitlab_git
            &&& f[i].github_bare is Some ==> makefile_parser::first_github_bare(f)
                == f[i].github_bare
        }),
    decreases i,
{
    let f = makefile_parser::all_repo_facts(urls);
    if i > 0 {
        let rest = urls.skip(1);
        assert(f.skip(1) =~= makefile_parser::all_repo_facts(rest));
        assert(urls.take(i)[0] == urls[0]);
        assert forall|j: int| 0 <= j < i - 1 implies #[trigger] rest.take(i - 1)[j] == urls.take(
            i,
        )[j + 1] by {}
        lemma_firsts(rest, i - 1);
    }
}

proof fn lemma_no_repository(urls: Seq<Seq<char>>)
    requires
        of_no_repository(urls),
    ensures
        ({
            let f = makefile_parser::all_repo_facts(urls);
            &&& makefile_parser::first_github_git(f) is None
            &&& makefile_parser::first_gitlab_git(f) is None
            &&& makefile_parser::first_github_bare(f) is None
            &&& !makefile_parser::any_cpan_dir(f)
        }),
    decreases urls.len(),
{
    let f = makefile_parser::all_repo_facts(urls);
    if urls.len() > 0 {
        let rest = urls.skip(1);
        assert(f.skip(1) =~= makefile_parser::all_repo_facts(rest));
        assert(urls[0] == urls[0]);
        assert forall|j: int| 0 <= j < rest.len() implies #[trigger] rest[j] == urls[j + 1] by {}
        lemma_no_repository(rest);
    }
    assert forall|j: int| 0 <= j < f.len() implies !(#[trigger] f[j]).cpan_dir by {
        assert(urls[j] == urls[j]);
    }
}

/// The source of a package whose single URL is of no registry: a clone URL of
/// GitHub or GitLab is of its repository, a directory of CPAN of the package's
/// module, a page of GitHub of its repository; otherwise the variables of languages
/// tell.
pub proof fn law_repositories_are_fallbacks(
    url: Seq<char>,
    m: Map<Seq<char>, Seq<char>>,
    name: Seq<char>,
    version: Seq<char>,
    w: Option<Seq<char>>,
    host: Seq<char>,
    owner: Seq<char>,
    repo: Seq<char>,
)
    ensures
        ({
            let urls = seq![url];
            let s = makefile_parser::fallback_source(
                makefile_parser::all_repo_facts(urls),
                urls,
                m,
                name,
                version,
            );
            let given = makefile_parser::expanded_var(m, "PKG_SOURCE_VERSION"@);
            let module = makefile_parser::cpan_module_name(m, name, version);
            let clone = outside::regex_captures(patterns::GITHUB_GIT@, url);
            let lab = outside::regex_captures(patterns::GITLAB_GIT@, url);
            let page = outside::regex_captures(patterns::GITHUB_BARE@, url);
            let cpan = outside::regex_is_match(patterns::CPAN_DIR@, url);
            let hub = Some(seq![w, Some(owner), Some(repo)]);
            &&& clone == hub ==> s == makefile_parser::github_source(owner, repo, given, version)
            &&& clone is None && cpan && module.len() > 0 ==> s == (Source::Cpan { module })
            &&& clone is None && !cpan && lab == Some(
                seq![w, Some(host), Some(owner), Some(repo)],
            ) ==> s == makefile_parser::gitlab_source(host, owner, repo, given, version)
            &&& clone is None && !cpan && lab is None && page == hub ==> s
                == makefile_parser::github_source(owner, repo, given, version)
            &&& clone is None && !cpan && lab is None && page is None ==> s
                == makefile_parser::ecosystem_source(urls, m)
        }),
{
    let urls = seq![url];
    let f = makefile_parser::all_repo_facts(urls);
    assert(f[0] == makefile_parser::repo_facts(url));
    assert(f.skip(1) =~= Seq::<RepoFacts>::empty());
    assert(makefile_parser::first_github_git(f.skip(1)) is None);
    assert(makefile_parser::first_gitlab_git(f.skip(1)) is None);
    assert(makefile_parser::first_github_bare(f.skip(1)) is None);
    assert(makefile_parser::any_cpan_dir(f) == f[0].cpan_dir);
}

/// Of several URLs the first that is a clone URL or a page of GitHub counts; of
/// some without any repository the variables of languages tell.
pub proof fn law_first_repository_counts(
    urls: Seq<Seq<char>>,
    i: int,
    m: Map<Seq<char>, Seq<char>>,
    name: Seq<char>,
    version: Seq<char>,
    w: Option<Seq<char>>,
    owner: Seq<char>,
    repo: Seq<char>,
)
    requires
        0 <= i < urls.len(),
    ensures
        ({
            let s = makefile_parser::fallback_source(
                makefile_parser::all_repo_facts(urls),
                urls,
                m,
                name,
                version,
            );
            let given = makefile_parser::expanded_var(m, "PKG_SOURCE_VERSION"@);
            &&& of_no_repository(urls.take(i)) && outside::regex_captures(
                patterns::GITHUB_GIT@,
                urls[i],
            ) == Some(seq![w, Some(owner), Some(repo)]) ==> s == makefile_parser::github_source(
                owner,
                repo,
                given,
                version,
            )
            &&& of_no_repository(urls) ==> s == makefile_parser::ecosystem_source(urls, m)
        }),
{
    if of_no_repository(urls.take(i)) {
        lemma_firsts(urls, i);
    }
    if of_no_repository(urls) {
        lemma_no_repository(urls);
    }
}

proof fn lemma_first_macro(
    ws: Seq<Seq<char>>,
    m: Map<Seq<char>, Seq<char>>,
    name: Seq<char>,
    i: int,
)
    requires
        0 <= i < ws.len(),
        makefile_parser::macro_source(ws[i], m, name) is Some,
        forall|j: int|
            0 <= j < i ==> makefile_parser::macro_source(#[trigger] ws[j], m, name) is None,
    ensures
        makefile_parser::first_macro(ws, m, name) == makefile_parser::macro_source(ws[i], m, name),
    decreases i,
{
    if i > 0 {
        assert(makefile_parser::macro_source(ws[0], m, name) is None);
        let rest = ws.skip(1);
        assert forall|j: int| 0 <= j < i - 1 implies makefile_parser::macro_source(
            #[trigger] rest[j],
            m,
            name,
        ) is None by {
            assert(rest[j] == ws[j + 1]);
        }
        assert(rest[i - 1] == ws[i]);
        lemma_first_macro(rest, m, name, i - 1);
    }
}

/// Where no URL of a package has a known source, its first macro counts.
pub proof fn law_first_macro_counts(
    m: Map<Seq<char>, Seq<char>>,
    name: Seq<char>,
    version: Seq<char>,
    i: int,
)
    requires
        ({
            let ws = text::words(makefile_parser::expanded_or_empty(m, "PKG_SOURCE_URL"@));
            &&& makefile_parser::first_known(makefile_parser::urls_among(ws), version, name) is None
            &&& 0 <= i < ws.len()
            &&& makefile_parser::macro_source(ws[i], m, name) is Some
            &&& forall|j: int|
                0 <= j < i ==> makefile_parser::macro_source(#[trigger] ws[j], m, name) is None
        }),
    ensures
        makefile_parser::package_source(m, name, version) == makefile_parser::macro_source(
            text::words(makefile_parser::expanded_or_empty(m, "PKG_SOURCE_URL"@))[i],
            m,
            name,
        )->0,
{
    let ws = text::words(makefile_parser::expanded_or_empty(m, "PKG_SOURCE_URL"@));
    lemma_first_macro(ws, m, name, i);
}

// ─────────────────────────────── names of modules ────────────────────────────

/// A file is called after its package, a dash, the version with or without a `v`,
/// and the extension of the archive.
pub proof fn law_file_names(name: Seq<char>, version: Seq<char>)
    requires
        version.len() > 0,
        text::all_in(version, Class::DigitOrDot),
        text::is_digit(version.last()),
    ensures
        makefile_parser::unversioned(name + seq!['-'] + version + ".tar.gz"@, version) == name,
        makefile_parser::unversioned(name + seq!['-'] + version + ".tar.bz2"@, version) == name,
        makefile_parser::unversioned(name + seq!['-'] + version + ".tgz"@, version) == name,
        makefile_parser::unversioned(name + seq!['-'] + version, version) == name,
{
    reveal_strlit("-");
    assert("-"@ =~= seq!['-']);
    let s = name + seq!['-'] + version;
    assert(s[s.len() - 2] != 'z') by {
        if version.len() > 1 {
            assert(s[s.len() - 2] == version[version.len() - 2]);
            assert(Class::DigitOrDot.has(version[version.len() - 2]));
        }
    }
    lemma_archive_ends(s);
    let p = "-"@ + version;
    assert(s.subrange(s.len() - p.len(), s.len() as int) =~= p);
    assert(text::occurs_at(s, p, s.len() - p.len()));
    assert(s.take(s.len() - p.len()) =~= name);
}

proof fn lemma_archive_ends(s: Seq<char>)
    requires
        s.len() > 1,
        text::is_digit(s.last()),
        s[s.len() - 2] != 'z',
    ensures
        text::trim_end_matches(s, ".tar.gz"@) == s,
        text::trim_end_matches(s, ".tar.bz2"@) == s,
        text::trim_end_matches(s, ".tgz"@) == s,
        text::trim_end_matches(s + ".tar.gz"@, ".tar.gz"@) == s,
        text::trim_end_matches(s + ".tar.bz2"@, ".tar.gz"@) == s + ".tar.bz2"@,
        text::trim_end_matches(s + ".tar.bz2"@, ".tar.bz2"@) == s,
        text::trim_end_matches(s + ".tgz"@, ".tar.gz"@) == s + ".tgz"@,
        text::trim_end_matches(s + ".tgz"@, ".tar.bz2"@) == s + ".tgz"@,
        text::trim_end_matches(s + ".tgz"@, ".tgz"@) == s,
{
    reveal_strlit(".tar.gz");
    reveal_strlit(".tar.bz2");
    reveal_strlit(".tgz");
    let gz = ".tar.gz"@;
    let bz = ".tar.bz2"@;
    let tgz = ".tgz"@;
    laws_of_texts::law_ends_are_taken_off(s, gz);
    laws_of_texts::law_ends_are_taken_off(s, bz);
    laws_of_texts::law_ends_are_taken_off(s, tgz);
    assert(gz[5] == 'g' && gz[6] == 'z' && gz[4] == '.');
    assert(bz[7] == '2' && bz[6] == 'z');
    assert(tgz[3] == 'z' && tgz[2] == 'g' && tgz[1] == 't');
    lemma_last_two(s, gz);
    lemma_last_two(s, bz);
    lemma_last_two(s, tgz);
    lemma_last_two(s + bz, gz);
    lemma_last_two(s + tgz, gz);
    lemma_last_two(s + tgz, bz);
    lemma_third_last(s + tgz, gz);
    if bz.is_suffix_of(s) {
        assert(s.subrange(s.len() - 8, s.len() as int)[6] == s[s.len() - 2]);
    }
}

proof fn lemma_last_two(s: Seq<char>, p: Seq<char>)
    requires
        p.len() > 0,
    ensures
        p.is_suffix_of(s) ==> s.last() == p.last(),
{
    if p.is_suffix_of(s) {
        assert(s.subrange(s.len() - p.len(), s.len() as int)[p.len() - 1] == s.last());
    }
}

proof fn lemma_third_last(s: Seq<char>, p: Seq<char>)
    requires
        p.len() > 2,
    ensures
        p.is_suffix_of(s) ==> s[s.len() - 3] == p[p.len() - 3],
{
    if p.is_suffix_of(s) {
        assert(s.subrange(s.len() - p.len(), s.len() as int)[p.len() - 3] == s[s.len() - 3]);
    }
}

/// The module of a Perl package: PKG_SOURCE_NAME; else what PKG_SOURCE is called
/// without version and extension; else the package's name in title case, without
/// `perl-`.
pub proof fn law_perl_modules(
    m: Map<Seq<char>, Seq<char>>,
    name: Seq<char>,
    version: Seq<char>,
    x: Seq<char>,
    a: Seq<char>,
    b: Seq<char>,
)
    requires
        version.len() > 0,
        text::all_in(version, Class::DigitOrDot),
        text::is_digit(version.last()),
        a.len() > 0,
        b.len() > 0,
        !a.contains('-'),
        !b.contains('-'),
        a != "perl"@,
    ensures
        gives(m, "PKG_SOURCE_NAME"@, x) ==> makefile_parser::cpan_module_name(m, name, version)
            == x,
        lacks(m, "PKG_SOURCE_NAME"@) && x.len() > 0 && gives(
            m,
            "PKG_SOURCE"@,
            x + seq!['-'] + version + ".tar.gz"@,
        ) ==> makefile_parser::cpan_module_name(m, name, version) == x,
        lacks(m, "PKG_SOURCE_NAME"@) && vars::lookup(m, "PKG_SOURCE"@) is None
            ==> makefile_parser::cpan_module_name(m, "perl-"@ + a + seq!['-'] + b, version)
            == outside::upper(a[0]) + a.skip(1) + seq!['-'] + outside::upper(b[0]) + b.skip(1),
{
    lemma_given(m, "PKG_SOURCE_NAME"@, x);
    lemma_given(m, "PKG_SOURCE"@, x + seq!['-'] + version + ".tar.gz"@);
    law_file_names(x, version);
    if x.len() > 0 && gives(m, "PKG_SOURCE"@, x + seq!['-'] + version + ".tar.gz"@) {
        let f = x + seq!['-'] + version + ".tar.gz"@;
        assert forall|i: int| 0 <= i < x.len() implies #[trigger] x[i] != '$' by {
            assert(f[i] == x[i]);
        }
        lemma_no_dollar(x);
    }
    lemma_title_case(a, b);
}

proof fn lemma_no_dollar(v: Seq<char>)
    requires
        forall|i: int| 0 <= i < v.len() ==> #[trigger] v[i] != '$',
    ensures
        !text::contains(v, "$("@),
{
    reveal_strlit("$(");
    if text::contains(v, "$("@) {
        let i = choose|i: int| text::occurs_at(v, "$("@, i);
        assert(v.subrange(i, i + 2)[0] == v[i]);
    }
}

proof fn lemma_title_case(a: Seq<char>, b: Seq<char>)
    requires
        a.len() > 0,
        b.len() > 0,
        !a.contains('-'),
        !b.contains('-'),
        a != "perl"@,
    ensures
        text::join(
            makefile_parser::all_capitalised(
                text::split_on(
                    text::trim_start_matches("perl-"@ + a + seq!['-'] + b, "perl-"@),
                    '-',
                ),
            ),
            "-"@,
        ) == outside::upper(a[0]) + a.skip(1) + seq!['-'] + outside::upper(b[0]) + b.skip(1),
{
    reveal_strlit("perl-");
    reveal_strlit("perl");
    reveal_strlit("-");
    let p = "perl-"@;
    let x = a + seq!['-'] + b;
    assert(p + a + seq!['-'] + b =~= p + x);
    laws_of_texts::law_ends_are_taken_off(x, p);
    if p.is_prefix_of(x) {
        let f = x.subrange(0, 5);
        assert(x[4] == '-') by {
            assert(f[4] == x[4]);
        }
        if a.len() > 4 {
            assert(a.contains(a[4]));
        } else if a.len() < 4 {
            assert(f[a.len() as int] == '-');
            assert(f[0] == 'p' && f[1] == 'e' && f[2] == 'r' && f[3] == 'l');
        } else {
            assert(f[0] == a[0] && f[1] == a[1] && f[2] == a[2] && f[3] == a[3]);
            assert(a =~= "perl"@);
        }
    }
    assert forall|i: int| 0 <= i < a.len() implies Class::Not('-').has(#[trigger] a[i]) by {
        assert(a.contains(a[i]));
    }
    assert forall|i: int| 0 <= i < b.len() implies Class::Not('-').has(#[trigger] b[i]) by {
        assert(b.contains(b[i]));
    }
    text::lemma_split_front(a, b, '-');
    text::lemma_split_front(b, a, '-');
    let parts = text::split_on(x, '-');
    assert(parts =~= seq![a, b]);
    let c = makefile_parser::all_capitalised(parts);
    let u = outside::upper(a[0]) + a.skip(1);
    let v = outside::upper(b[0]) + b.skip(1);
    assert(c =~= seq![u, v]);
    assert("-"@ =~= seq!['-']);
    text::lemma_join_front(u, seq![v], "-"@);
    assert(seq![u] + seq![v] =~= c);
    assert(text::join(seq![v], "-"@) =~= v);
    assert(u + "-"@ + v =~= outside::upper(a[0]) + a.skip(1) + seq!['-'] + outside::upper(b[0])
        + b.skip(1));
}

/// A `v` before the version belongs to the version.
pub proof fn law_file_names_with_v(name: Seq<char>, version: Seq<char>)
    requires
        version.len() > 0,
        text::all_in(version, Class::DigitOrDot),
        text::is_digit(version.last()),
        !name.contains('-'),
    ensures
        makefile_parser::unversioned(name + "-v"@ + version + ".tar.gz"@, version) == name,
        makefile_parser::unversioned(name + "-v"@ + version, version) == name,
{
    reveal_strlit("-");
    reveal_strlit("-v");
    let s = name + "-v"@ + version;
    let n = name.len() as int;
    assert(s[s.len() - 2] != 'z') by {
        if version.len() > 1 {
            assert(s[s.len() - 2] == version[version.len() - 2]);
            assert(Class::DigitOrDot.has(version[version.len() - 2]));
        }
    }
    lemma_archive_ends(s);
    let p = "-"@ + version;
    let q = "-v"@ + version;
    text::lemma_rfind(s, p);
    if let Some(i) = text::rfind(s, p) {
        assert(s.subrange(i, i + p.len())[0] == s[i]);
        assert(s.subrange(i, i + p.len())[1] == s[i + 1]);
        assert(p[0] == '-' && p[1] == version[0]);
        assert(Class::DigitOrDot.has(version[0]));
        if i < n {
            assert(name.contains(name[i]));
        } else if i > n + 1 {
            assert(Class::DigitOrDot.has(version[i - n - 2]));
        }
    }
    assert(s.subrange(s.len() - q.len(), s.len() as int) =~= q);
    assert(text::occurs_at(s, q, s.len() - q.len()));
    assert(s.take(s.len() - q.len()) =~= name);
}

// ───────────────────────────────── the package ───────────────────────────────

/// A makefile describes a package where it gives it a name and a version; these
/// and what else it gives are read into the fields that are called after them.
pub proof fn law_variables_are_fields(
    path: &str,
    content: &str,
    r: Option<ParsedMakefile>,
    name: Seq<char>,
    version: Seq<char>,
    x: Seq<char>,
)
    requires
        call_ensures(makefile_parser::parse_makefile, (path, content), r),
    ensures
        ({
            let m = makefile_parser::makefile_vars(content@);
            &&& lacks(m, "PKG_NAME"@) || lacks(m, "PKG_VERSION"@) ==> r is None
            &&& gives(m, "PKG_NAME"@, name) && gives(m, "PKG_VERSION"@, version) ==> {
                let p = r->0;
                &&& r is Some
                &&& p.path@ == path@
                &&& p.pkg_name@ == name
                &&& p.pkg_version@ == version
                &&& p.raw_vars@ == m
                &&& gives(m, "PKG_RELEASE"@, x) ==> text::opt_text(p.pkg_release) == Some(x)
                &&& gives(m, "PKG_HASH"@, x) ==> text::opt_text(p.pkg_hash) == Some(x)
                &&& gives(m, "PKG_SOURCE_DATE"@, x) ==> text::opt_text(p.pkg_source_date) == Some(x)
                &&& gives(m, "PKG_SOURCE_VERSION"@, x) ==> text::opt_text(p.pkg_source_version)
                    == Some(x)
                &&& gives(m, "PKG_SOURCE"@, x) ==> text::opt_text(p.source_file) == Some(x)
                &&& lacks(m, "PKG_SOURCE"@) ==> p.source_file is None
                &&& vars::lookup(m, "PKG_RELEASE"@) is None ==> p.pkg_release is None
                &&& vars::lookup(m, "PKG_HASH"@) is None ==> p.pkg_hash is None
                &&& vars::lookup(m, "PKG_SOURCE_DATE"@) is None ==> p.pkg_source_date is None
                &&& vars::lookup(m, "PKG_SOURCE_VERSION"@) is None ==> p.pkg_source_version is None
                &&& gives(m, "PKG_SOURCE_URL"@, x) ==> {
                    let urls = makefile_parser::urls_among(text::words(x));
                    &&& text::texts(p.source_urls@) == urls
                    &&& urls.len() > 0 ==> text::opt_text(p.source_url) == Some(urls[0])
                    &&& urls.len() == 0 ==> p.source_url is None
                }
                &&& p.source_type@ == makefile_parser::package_source(m, name, version)
            }
        }),
{
    let m = makefile_parser::makefile_vars(content@);
    lemma_given(m, "PKG_NAME"@, name);
    lemma_given(m, "PKG_VERSION"@, version);
    lemma_given(m, "PKG_RELEASE"@, x);
    lemma_given(m, "PKG_HASH"@, x);
    lemma_given(m, "PKG_SOURCE_DATE"@, x);
    lemma_given(m, "PKG_SOURCE_VERSION"@, x);
    lemma_given(m, "PKG_SOURCE"@, x);
    lemma_given(m, "PKG_SOURCE_URL"@, x);
}

/// What still holds an expression when it is worked out is not known, and neither is
/// what is empty: a makefile with such a name or version describes no package.
pub proof fn law_unresolved_values(
    path: &str,
    content: &str,
    a: Seq<char>,
    b: Seq<char>,
    r: Option<ParsedMakefile>,
)
    requires
        call_ensures(makefile_parser::parse_makefile, (path, content), r),
    ensures
        makefile_parser::is_unresolved(a + "$("@ + b),
        makefile_parser::is_unresolved(Seq::empty()),
        ({
            let m = makefile_parser::makefile_vars(content@);
            &&& makefile_parser::expanded_or_empty(m, "PKG_VERSION"@) == a + "$("@ + b ==> r is None
            &&& makefile_parser::expanded_or_empty(m, "PKG_NAME"@) == a + "$("@ + b ==> r is None
            &&& makefile_parser::expanded_or_empty(m, "PYPI_NAME"@) == a + "$("@ + b
                ==> makefile_parser::resolved_var(m, "PYPI_NAME"@) is None
        }),
{
    let s = a + "$("@ + b;
    let n = a.len() as int;
    assert(s.subrange(n, n + "$("@.len() as int) =~= "$("@);
    assert(text::occurs_at(s, "$("@, n));
}

/// A makefile that takes in the rules for u-boot packages has their source, unless
/// it assigns one itself; one that does not has what it assigns.
pub proof fn law_uboot_defaults(content: Seq<char>, key: Seq<char>)
    ensures
        ({
            let m = makefile_parser::makefile_vars(content);
            let own = makefile_parser::assigned_vars(content);
            &&& vars::lookup(own, key) is Some ==> vars::lookup(m, key) == vars::lookup(own, key)
            &&& text::contains(content, "include/u-boot.mk"@) && vars::lookup(
                own,
                "PKG_SOURCE_URL"@,
            ) is None ==> vars::lookup(m, "PKG_SOURCE_URL"@) == Some(
                "https://ftp.denx.de/pub/u-boot"@,
            )
            &&& text::contains(content, "include/u-boot.mk"@) && vars::lookup(
                own,
                "PKG_SOURCE"@,
            ) is None ==> vars::lookup(m, "PKG_SOURCE"@) == Some(
                "$(PKG_NAME)-$(PKG_VERSION).tar.bz2"@,
            )
            &&& text::contains(content, "$(INCLUDE_DIR)/u-boot.mk"@) && vars::lookup(
                own,
                "PKG_SOURCE_URL"@,
            ) is None ==> vars::lookup(m, "PKG_SOURCE_URL"@) == Some(
                "https://ftp.denx.de/pub/u-boot"@,
            )
            &&& !text::contains(content, "u-boot.mk"@) ==> m == own
        }),
{
    reveal_strlit("PKG_SOURCE");
    reveal_strlit("PKG_SOURCE_URL");
    assert("PKG_SOURCE"@.len() == 10 && "PKG_SOURCE_URL"@.len() == 14);
    lemma_uboot(content, "$(INCLUDE_DIR)/u-boot.mk"@);
    lemma_uboot(content, "include/u-boot.mk"@);
}

proof fn lemma_uboot(content: Seq<char>, f: Seq<char>)
    requires
        f == "$(INCLUDE_DIR)/u-boot.mk"@ || f == "include/u-boot.mk"@,
    ensures
        text::contains(content, f) ==> text::contains(content, "u-boot.mk"@),
{
    reveal_strlit("$(INCLUDE_DIR)/u-boot.mk");
    reveal_strlit("include/u-boot.mk");
    reveal_strlit("u-boot.mk");
    let u = "u-boot.mk"@;
    let k = f.len() - u.len();
    assert(f.subrange(k, f.len() as int) =~= u);
    if text::contains(content, f) {
        let i = choose|i: int| text::occurs_at(content, f, i);
        assert(content.subrange(i + k, i + k + u.len()) =~= content.subrange(
            i,
            i + f.len(),
        ).subrange(k, f.len() as int));
        assert(text::occurs_at(content, u, i + k));
    }
}

} // verus!

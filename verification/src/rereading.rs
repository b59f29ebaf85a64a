//! What a makefile says when it is read again after an update.

use crate::makefile_parser;
use crate::makefile_parser::Reading;
use crate::makefile_updater;
use crate::makefile_updater::MakefileUpdate;
use crate::outside;
use crate::text;
use crate::text::Class;
use crate::vars;
use vstd::prelude::*;

verus! {

// ─────────────────────────────────── lines ───────────────────────────────────

/// Lines, each with a line feed behind it.
pub open spec fn with_feeds(ls: Seq<Seq<char>>) -> Seq<char>
    decreases ls.len(),
{
    if ls.len() == 0 {
        Seq::empty()
    } else {
        with_feeds(ls.drop_last()) + ls.last() + seq!['\n']
    }
}

/// Lines after an update.
pub open spec fn changed_lines(ls: Seq<Seq<char>>, u: MakefileUpdate) -> Seq<Seq<char>> {
    Seq::new(ls.len(), |i: int| makefile_updater::updated_line(ls[i], u))
}

/// Lines as they are read again, each without the carriage return that ends it.
pub open spec fn ended(ls: Seq<Seq<char>>) -> Seq<Seq<char>> {
    Seq::new(ls.len(), |i: int| text::strip_cr(ls[i]))
}

proof fn lemma_feeds_front(x: Seq<char>, ls: Seq<Seq<char>>)
    ensures
        with_feeds(seq![x] + ls) == x + seq!['\n'] + with_feeds(ls),
    decreases ls.len(),
{
    let all = seq![x] + ls;
    if ls.len() == 0 {
        assert(all.drop_last() =~= Seq::<Seq<char>>::empty());
        assert(all.last() == x);
        assert(with_feeds(all.drop_last()) =~= Seq::<char>::empty());
        assert(with_feeds(all) =~= x + seq!['\n'] + with_feeds(ls));
    } else {
        assert(all.drop_last() =~= seq![x] + ls.drop_last());
        lemma_feeds_front(x, ls.drop_last());
        assert(all.last() == ls.last());
        assert(with_feeds(all) =~= x + seq!['\n'] + with_feeds(ls));
    }
}

proof fn lemma_lines_front(x: Seq<char>, rest: Seq<char>)
    requires
        makefile_parser::one_line(x),
    ensures
        text::lines(x + seq!['\n'] + rest) == seq![text::strip_cr(x)] + text::lines(rest),
{
    let s = x + seq!['\n'] + rest;
    assert forall|j: int| 0 <= j < x.len() implies Class::Not('\n').has(#[trigger] s[j]) by {
        assert(s[j] == x[j]);
    }
    text::lemma_span_is(s, Class::Not('\n'), x.len() as int);
    assert(s.take(x.len() as int) =~= x);
    assert(s.skip(x.len() as int + 1) =~= rest);
}

/// Lines that are put together with line feeds come apart again.  Without the last
/// line feed the last line keeps its carriage return.
proof fn lemma_lines_of_feeds(ls: Seq<Seq<char>>)
    requires
        forall|i: int| 0 <= i < ls.len() ==> makefile_parser::one_line(#[trigger] ls[i]),
    ensures
        text::lines(with_feeds(ls)) == ended(ls),
        ls.len() > 0 ==> with_feeds(ls).len() > 0 && (ls.last().len() > 0 ==> text::lines(
            with_feeds(ls).drop_last(),
        ) == ended(ls.drop_last()).push(ls.last())),
    decreases ls.len(),
{
    if ls.len() == 0 {
        assert(text::lines(with_feeds(ls)) =~= ended(ls));
    } else {
        let x = ls[0];
        let rest = ls.skip(1);
        assert(ls =~= seq![x] + rest);
        assert forall|i: int| 0 <= i < rest.len() implies makefile_parser::one_line(
            #[trigger] rest[i],
        ) by {
            assert(rest[i] == ls[i + 1]);
        }
        lemma_lines_of_feeds(rest);
        lemma_feeds_front(x, rest);
        lemma_lines_front(x, with_feeds(rest));
        assert(ended(ls) =~= seq![text::strip_cr(x)] + ended(rest));
        if ls.last().len() > 0 {
            let t = with_feeds(ls).drop_last();
            let back = ended(ls.drop_last()).push(ls.last());
            if rest.len() == 0 {
                assert(with_feeds(rest) =~= Seq::<char>::empty());
                assert(t =~= x);
                text::lemma_span_is(x, Class::Not('\n'), x.len() as int);
                assert(text::lines(t) =~= back);
            } else {
                assert(rest.last() == ls.last());
                assert(t =~= x + seq!['\n'] + with_feeds(rest).drop_last());
                lemma_lines_front(x, with_feeds(rest).drop_last());
                assert(back =~= seq![text::strip_cr(x)] + ended(rest.drop_last()).push(rest.last()));
            }
        }
    }
}

/// A text that is not empty has lines; where it does not end in a line feed the
/// last one is not empty.
proof fn lemma_last_line(s: Seq<char>)
    ensures
        s.len() > 0 ==> text::lines(s).len() > 0,
        s.len() > 0 && s.last() != '\n' ==> text::lines(s).last().len() > 0,
    decreases s.len(),
{
    let k = Class::Not('\n');
    text::lemma_span(s, k);
    let n = text::span(s, k) as int;
    if s.len() > 0 && n < s.len() {
        let rest = s.skip(n + 1);
        lemma_last_line(rest);
        if s.last() != '\n' {
            assert(n < s.len() - 1);
            assert(rest.last() == s.last());
            assert(text::lines(s).last() == text::lines(rest).last());
        }
    }
}

// ─────────────────────────────── updated makefiles ───────────────────────────

/// A value that can be written: without white space at either end, without line
/// feeds, and without a backslash at its end.
pub open spec fn is_value(s: Seq<char>) -> bool {
    &&& makefile_updater::is_trimmed(s)
    &&& makefile_parser::one_line(s)
    &&& s.len() > 0 ==> s.last() != '\\'
}

/// An update whose values can be written.
pub open spec fn is_proper(u: MakefileUpdate) -> bool {
    &&& u.pkg_version is Some ==> is_value(u.pkg_version->0@)
    &&& u.pkg_source_version is Some ==> is_value(u.pkg_source_version->0@)
    &&& u.pkg_source_date is Some ==> is_value(u.pkg_source_date->0@)
    &&& u.pkg_hash is Some ==> is_value(u.pkg_hash->0@)
}

/// Whether a line goes on in the next one.
pub open spec fn goes_on(line: Seq<char>) -> bool {
    "\\"@.is_suffix_of(line)
}

/// Whether every line that an update writes stands by itself, neither going on
/// nor gone on to, and no line has a backslash before a carriage return of its own.
pub open spec fn is_orderly(ls: Seq<Seq<char>>, u: MakefileUpdate) -> bool {
    forall|i: int|
        0 <= i < ls.len() ==> {
            &&& makefile_updater::written_var(#[trigger] ls[i], u) is Some ==> !goes_on(ls[i]) && (
            i > 0 ==> !goes_on(ls[i - 1]))
            &&& goes_on(text::strip_cr(ls[i])) ==> goes_on(ls[i])
        }
}

/// Whether an update asks for a variable.
pub open spec fn asks_for(u: MakefileUpdate, var: Seq<char>) -> bool {
    ||| u.pkg_version is Some && var == "PKG_VERSION"@
    ||| u.pkg_source_version is Some && var == "PKG_SOURCE_VERSION"@
    ||| u.pkg_source_date is Some && var == "PKG_SOURCE_DATE"@
    ||| u.pkg_hash is Some && var == "PKG_HASH"@
}

/// Whether a line is what another one is read as after an update.
pub open spec fn is_reread(l: Seq<char>, m: Seq<char>, u: MakefileUpdate) -> bool {
    m == makefile_updater::updated_line(l, u) || m == text::strip_cr(
        makefile_updater::updated_line(l, u),
    )
}

/// Whether lines are what other ones are read as after an update.
pub open spec fn are_reread(ls: Seq<Seq<char>>, ms: Seq<Seq<char>>, u: MakefileUpdate) -> bool {
    ls.len() == ms.len() && forall|i: int|
        0 <= i < ls.len() ==> is_reread(#[trigger] ls[i], ms[i], u)
}

proof fn lemma_updated_lines(ls: Seq<Seq<char>>, u: MakefileUpdate)
    ensures
        makefile_updater::updated_lines(ls, u) == with_feeds(changed_lines(ls, u)),
    decreases ls.len(),
{
    let c = changed_lines(ls, u);
    if ls.len() > 0 {
        lemma_updated_lines(ls.drop_last(), u);
        assert(c.drop_last() =~= changed_lines(ls.drop_last(), u));
        assert("\n"@ =~= seq!['\n']) by {
            reveal_strlit("\n");
        }
    }
}

/// The variables that updates write are names of variables, and start with `P`.
proof fn lemma_names()
    ensures
        makefile_updater::is_variable_name("PKG_VERSION"@),
        makefile_updater::is_variable_name("PKG_SOURCE_VERSION"@),
        makefile_updater::is_variable_name("PKG_SOURCE_DATE"@),
        makefile_updater::is_variable_name("PKG_HASH"@),
        "PKG_VERSION"@[0] == 'P',
        "PKG_SOURCE_VERSION"@[0] == 'P',
        "PKG_SOURCE_DATE"@[0] == 'P',
        "PKG_HASH"@[0] == 'P',
{
    reveal_strlit("PKG_VERSION");
    reveal_strlit("PKG_SOURCE_VERSION");
    reveal_strlit("PKG_SOURCE_DATE");
    reveal_strlit("PKG_HASH");
}

/// The value that an update writes to a variable.
pub open spec fn value_for(u: MakefileUpdate, var: Seq<char>) -> Seq<char> {
    if var == "PKG_VERSION"@ {
        u.pkg_version->0@
    } else if var == "PKG_SOURCE_VERSION"@ {
        u.pkg_source_version->0@
    } else if var == "PKG_SOURCE_DATE"@ {
        u.pkg_source_date->0@
    } else {
        u.pkg_hash->0@
    }
}

/// The four variables that updates write are different ones.
proof fn lemma_names_differ()
    ensures
        "PKG_VERSION"@ != "PKG_SOURCE_VERSION"@,
        "PKG_VERSION"@ != "PKG_SOURCE_DATE"@,
        "PKG_VERSION"@ != "PKG_HASH"@,
        "PKG_SOURCE_VERSION"@ != "PKG_SOURCE_DATE"@,
        "PKG_SOURCE_VERSION"@ != "PKG_HASH"@,
        "PKG_SOURCE_DATE"@ != "PKG_HASH"@,
{
    reveal_strlit("PKG_VERSION");
    reveal_strlit("PKG_SOURCE_VERSION");
    reveal_strlit("PKG_SOURCE_DATE");
    reveal_strlit("PKG_HASH");
    assert("PKG_VERSION"@.len() == 11);
    assert("PKG_SOURCE_VERSION"@.len() == 18);
    assert("PKG_SOURCE_DATE"@.len() == 15);
    assert("PKG_HASH"@.len() == 8);
}

/// What an update does to a line: nothing, or it writes one of the variables that
/// it asks for.
proof fn lemma_updated_line(line: Seq<char>, u: MakefileUpdate)
    requires
        is_proper(u),
    ensures
        match makefile_updater::written_var(line, u) {
            Some(var) => {
                &&& asks_for(u, var)
                &&& makefile_updater::is_variable_name(var)
                &&& var[0] == 'P'
                &&& makefile_updater::sets_literal(line, var)
                &&& is_value(value_for(u, var))
                &&& makefile_updater::updated_line(line, u) == makefile_updater::with_value(
                    line,
                    var,
                    value_for(u, var),
                )
            },
            None => makefile_updater::updated_line(line, u) == line,
        },
{
    lemma_names();
    lemma_names_differ();
}

/// A line with a new value is one line, is not empty and does not go on, with or
/// without a carriage return at its end.
proof fn lemma_with_value(line: Seq<char>, var: Seq<char>, new: Seq<char>)
    requires
        makefile_parser::one_line(line),
        makefile_updater::is_variable_name(var),
        is_value(new),
        makefile_updater::sets_literal(line, var),
    ensures
        ({
            let l = makefile_updater::with_value(line, var, new);
            makefile_parser::one_line(l) && l.len() > 0 && !goes_on(l) && !goes_on(
                text::strip_cr(l),
            )
        }),
{
    let k = Class::Not('\n');
    let t = text::trim_start_of(line, Class::Space);
    text::lemma_span(line, Class::Space);
    let rest = makefile_updater::after_name(line, var);
    let n = makefile_updater::operator_length(rest);
    makefile_updater::lemma_operator(rest);
    let tail = t.skip(var.len() as int);
    text::lemma_span(tail, Class::Space);
    let i = text::span(line, Class::Space) as int;
    let j0 = text::span(tail, Class::Space) as int;
    let off = i + var.len() + j0;
    assert forall|j: int| 0 <= j < rest.len() implies #[trigger] rest[j] == line[off + j] by {}
    let after = rest.skip(n);
    text::lemma_span(after, Class::Space);
    let b = text::span(after, Class::Space) as int;
    let blanks = after.take(b);
    let l = makefile_updater::with_value(line, var, new);
    let front = line.take(i) + var + rest.take(n) + blanks;
    assert(l =~= front + new);
    assert forall|j: int| 0 <= j < front.len() implies k.has(#[trigger] front[j]) by {
        if j < i {
            assert(front[j] == line[j]);
        } else if j < i + var.len() {
            assert(front[j] == var[j - i]);
            assert(Class::Ident.has(var[j - i]));
        } else if j < i + var.len() + n {
            assert(front[j] == rest[j - i - var.len()]);
            assert(k.has(line[off + (j - i - var.len())]));
        } else {
            assert(front[j] == rest[n + (j - i - var.len() - n)]);
            assert(k.has(line[off + n + (j - i - var.len() - n)]));
        }
    }
    assert forall|j: int| 0 <= j < l.len() implies k.has(#[trigger] l[j]) by {
        if j < front.len() {
            assert(l[j] == front[j]);
        } else {
            assert(l[j] == new[j - front.len()]);
        }
    }
    // the operator ends in `=`, and only blanks and the value follow
    let e = i + var.len() + n - 1;
    assert(l[e] == rest[n - 1]);
    assert forall|j: int| e <= j < l.len() - new.len() implies #[trigger] l[j] != '\\' by {
        if j > e {
            assert(l[j] == after[j - e - 1]);
            assert(Class::Space.has(after[j - e - 1]));
        }
    }
    if new.len() > 0 {
        assert(l.last() == new.last());
        assert(text::strip_cr(l) == l);
    }
    reveal_strlit("\\");
    if goes_on(l) {
        assert(l.last() == l.subrange(l.len() - 1, l.len() as int)[0]);
    }
    let m = text::strip_cr(l);
    if goes_on(m) {
        assert(m.last() == m.subrange(m.len() - 1, m.len() as int)[0]);
        assert(m.last() == l[m.len() - 1]);
    }
}

/// The lines of a makefile are read again as an update changes them.
proof fn lemma_lines_after(content: Seq<char>, u: MakefileUpdate)
    requires
        is_proper(u),
    ensures
        are_reread(text::lines(content), text::lines(makefile_updater::updated_text(content, u)), u),
{
    let ls = text::lines(content);
    let c = changed_lines(ls, u);
    makefile_parser::lemma_lines_hold_no_feed(content);
    lemma_last_line(content);
    assert forall|i: int| 0 <= i < ls.len() implies makefile_parser::one_line(#[trigger] c[i]) && (
    ls[i].len() > 0 ==> c[i].len() > 0) by {
        lemma_updated_line(ls[i], u);
        assert(makefile_parser::one_line(ls[i]));
        if let Some(var) = makefile_updater::written_var(ls[i], u) {
            lemma_with_value(ls[i], var, value_for(u, var));
        }
    }
    lemma_lines_of_feeds(c);
    lemma_updated_lines(ls, u);
    reveal_strlit("\n");
    let ms = text::lines(makefile_updater::updated_text(content, u));
    if content.len() > 0 {
        assert(content.subrange(content.len() - 1, content.len() as int) =~= seq![content.last()]);
        assert("\n"@ =~= seq!['\n']);
        assert("\n"@.is_suffix_of(content) == (content.last() == '\n')) by {
            if content.last() != '\n' {
                assert(seq![content.last()][0] != "\n"@[0]);
            }
        }
        assert(c.last() == c[ls.len() - 1]);
        assert(ls.last() == ls[ls.len() - 1]);
        assert forall|i: int| 0 <= i < ls.len() implies is_reread(#[trigger] ls[i], ms[i], u) by {
            assert(c[i] == makefile_updater::updated_line(ls[i], u));
            assert(i < c.len() - 1 ==> c.drop_last()[i] == c[i]);
        }
    } else {
        assert(ls =~= Seq::<Seq<char>>::empty());
    }
}

// ──────────────────────────────── logical lines ──────────────────────────────

/// Whether a logical line becomes another one by an update: it stays, or it is a
/// line that the update writes.
pub open spec fn becomes(x: Seq<char>, y: Seq<char>, u: MakefileUpdate) -> bool {
    x == y || exists|l: Seq<char>|
        {
            &&& #[trigger] makefile_updater::written_var(l, u) is Some
            &&& x == text::trim(l)
            &&& y == text::trim(makefile_updater::updated_line(l, u))
        }
}

/// Whether logical lines become others by an update.
pub open spec fn all_become(xs: Seq<Seq<char>>, ys: Seq<Seq<char>>, u: MakefileUpdate) -> bool {
    xs.len() == ys.len() && forall|i: int| 0 <= i < xs.len() ==> becomes(#[trigger] xs[i], ys[i], u)
}

/// A carriage return at the end is trimmed away.
proof fn lemma_trim_cr(open: Seq<char>, l: Seq<char>)
    ensures
        text::trim(open + text::strip_cr(l)) == text::trim(open + l),
{
    if l.len() > 0 && l.last() == '\r' {
        let k = Class::Space;
        let s = open + text::strip_cr(l);
        let t = open + l;
        assert(t =~= s.push('\r'));
        text::lemma_span(s, k);
        let n = text::span(s, k) as int;
        if n < s.len() {
            assert forall|j: int| 0 <= j < n implies k.has(#[trigger] t[j]) by {
                assert(t[j] == s[j]);
            }
            assert(t[n] == s[n]);
            text::lemma_span_is(t, k, n);
            let a = s.skip(n);
            let b = t.skip(n);
            assert(b.drop_last() =~= a);
            assert(k.has(b.last()));
            text::lemma_span_back(a, k);
            assert(a.take(a.len() - text::span_back(a, k)) =~= b.take(
                b.len() - text::span_back(b, k),
            ));
        } else {
            assert forall|j: int| 0 <= j < t.len() implies k.has(#[trigger] t[j]) by {
                if j < s.len() {
                    assert(t[j] == s[j]);
                }
            }
            text::lemma_span_is(t, k, t.len() as int);
            assert(s.skip(n) =~= Seq::<char>::empty());
            assert(t.skip(t.len() as int) =~= Seq::<char>::empty());
        }
    }
}

/// A line that is read again goes on where it did before; one that goes on is the
/// same, and one that does not is the updated line when it is trimmed.
proof fn lemma_reread(ls: Seq<Seq<char>>, i: int, m: Seq<char>, u: MakefileUpdate)
    requires
        is_proper(u),
        is_orderly(ls, u),
        makefile_parser::one_line(ls[i]),
        0 <= i < ls.len(),
        is_reread(ls[i], m, u),
    ensures
        goes_on(m) == goes_on(ls[i]),
        goes_on(ls[i]) ==> m == ls[i],
        makefile_updater::written_var(ls[i], u) is None ==> forall|open: Seq<char>| #[trigger]
            text::trim(open + m) == text::trim(open + ls[i]),
        text::trim(m) == text::trim(makefile_updater::updated_line(ls[i], u)),
{
    let l = ls[i];
    let c = makefile_updater::updated_line(l, u);
    lemma_updated_line(l, u);
    reveal_strlit("\\");
    if goes_on(l) {
        assert(l.last() == l.subrange(l.len() - 1, l.len() as int)[0]);
    }
    if let Some(var) = makefile_updater::written_var(l, u) {
        lemma_with_value(l, var, value_for(u, var));
    } else {
        assert forall|open: Seq<char>| #[trigger] text::trim(open + m) == text::trim(open + l) by {
            lemma_trim_cr(open, l);
        }
    }
    lemma_trim_cr(Seq::empty(), c);
    assert(Seq::<char>::empty() + c =~= c);
    assert(Seq::<char>::empty() + text::strip_cr(c) =~= text::strip_cr(c));
}

/// The logical lines of a makefile become those that are read again.
proof fn lemma_logical_lines(
    ls: Seq<Seq<char>>,
    ms: Seq<Seq<char>>,
    open: Seq<char>,
    u: MakefileUpdate,
)
    requires
        is_proper(u),
        is_orderly(ls, u),
        are_reread(ls, ms, u),
        forall|i: int| 0 <= i < ls.len() ==> makefile_parser::one_line(#[trigger] ls[i]),
        ls.len() > 0 && makefile_updater::written_var(ls[0], u) is Some ==> open.len() == 0,
    ensures
        all_become(
            makefile_parser::logical_lines(ls, open),
            makefile_parser::logical_lines(ms, open),
            u,
        ),
    decreases ls.len(),
{
    if ls.len() > 0 {
        let l = ls[0];
        let m = ms[0];
        let lr = ls.skip(1);
        let mr = ms.skip(1);
        assert(is_reread(ls[0], ms[0], u));
        lemma_reread(ls, 0, m, u);
        assert forall|i: int| 0 <= i < lr.len() implies makefile_parser::one_line(
            #[trigger] lr[i],
        ) && is_reread(lr[i], mr[i], u) by {
            assert(lr[i] == ls[i + 1]);
            assert(is_reread(ls[i + 1], ms[i + 1], u));
        }
        assert(is_orderly(lr, u)) by {
            assert forall|i: int| 0 <= i < lr.len() implies {
                &&& makefile_updater::written_var(#[trigger] lr[i], u) is Some ==> !goes_on(lr[i])
                    && (i > 0 ==> !goes_on(lr[i - 1]))
                &&& goes_on(text::strip_cr(lr[i])) ==> goes_on(lr[i])
            } by {
                assert(lr[i] == ls[i + 1]);
                assert(i > 0 ==> lr[i - 1] == ls[i]);
            }
        }
        if lr.len() > 0 {
            assert(lr[0] == ls[1]);
        }
        if goes_on(l) {
            let next = open + text::trim_end_matches(l, "\\"@) + " "@;
            lemma_logical_lines(lr, mr, next, u);
        } else {
            lemma_logical_lines(lr, mr, Seq::empty(), u);
            let xs = makefile_parser::logical_lines(lr, Seq::empty());
            let ys = makefile_parser::logical_lines(mr, Seq::empty());
            let x = text::trim(open + l);
            let y = text::trim(open + m);
            if makefile_updater::written_var(l, u) is Some {
                assert(open + l =~= l);
                assert(open + m =~= m);
            }
            assert(becomes(x, y, u));
            let all = makefile_parser::logical_lines(ls, open);
            let new = makefile_parser::logical_lines(ms, open);
            assert(all =~= seq![x] + xs);
            assert(new =~= seq![y] + ys);
            assert forall|i: int| 0 <= i < all.len() implies becomes(#[trigger] all[i], new[i], u) by {
                if i > 0 {
                    assert(all[i] == xs[i - 1]);
                    assert(new[i] == ys[i - 1]);
                }
            }
        }
    }
}

/// Where a line does not go on, the logical lines before and behind its end are
/// read apart.
proof fn lemma_logical_apart(ls: Seq<Seq<char>>, open: Seq<char>, i: int)
    requires
        0 <= i <= ls.len(),
        if i > 0 {
            !goes_on(ls[i - 1])
        } else {
            open.len() == 0
        },
    ensures
        makefile_parser::logical_lines(ls, open) == makefile_parser::logical_lines(
            ls.take(i),
            open,
        ) + makefile_parser::logical_lines(ls.skip(i), Seq::empty()),
    decreases i,
{
    let back = makefile_parser::logical_lines(ls.skip(i), Seq::empty());
    let t = ls.take(i);
    if i == 0 {
        assert(open =~= Seq::<char>::empty());
        assert(ls.skip(0) =~= ls);
        assert(Seq::<Seq<char>>::empty() + back =~= back);
    } else {
        let rest = ls.skip(1);
        assert(t.skip(1) =~= rest.take(i - 1));
        assert(ls.skip(i) =~= rest.skip(i - 1));
        assert(i > 1 ==> rest[i - 2] == ls[i - 1]);
        assert(t[0] == ls[0]);
        if goes_on(ls[0]) {
            let next = open + text::trim_end_matches(ls[0], "\\"@) + " "@;
            lemma_logical_apart(rest, next, i - 1);
        } else {
            lemma_logical_apart(rest, Seq::empty(), i - 1);
            let x = seq![text::trim(open + ls[0])];
            let front = makefile_parser::logical_lines(rest.take(i - 1), Seq::empty());
            assert(x + (front + back) =~= x + front + back);
        }
    }
}

// ─────────────────────────────────── reading ─────────────────────────────────

/// A line that sets a variable assigns it, whether it is trimmed or not.
proof fn lemma_sets_assigns(l: Seq<char>, var: Seq<char>)
    requires
        makefile_updater::is_variable_name(var),
        makefile_updater::sets_literal(l, var),
    ensures
        ({
            let line = text::trim(l);
            let g = outside::assignment(line);
            &&& line.len() > 0
            &&& line[0] == var[0]
            &&& g is Some
            &&& outside::group(g->0, 1) == var
            &&& outside::group(g->0, 2) == makefile_updater::after_name(l, var).take(
                makefile_updater::operator_length(makefile_updater::after_name(l, var)),
            )
        }),
{
    let t = text::trim_start_of(l, Class::Space);
    text::lemma_span(l, Class::Space);
    let tail = t.skip(var.len() as int);
    text::lemma_span(tail, Class::Space);
    let j0 = text::span(tail, Class::Space) as int;
    let rest = makefile_updater::after_name(l, var);
    assert(rest =~= tail.skip(j0));
    let n = makefile_updater::operator_length(rest);
    makefile_updater::lemma_operator(rest);
    let v = var.len() as int;
    assert forall|i: int| 0 <= i < v implies #[trigger] t[i] == var[i] by {
        assert(var[i] == t.subrange(0, v)[i]);
    }
    assert forall|i: int| 0 <= i < rest.len() implies #[trigger] rest[i] == t[v + j0 + i] by {}
    text::lemma_span_back(t, Class::Space);
    let sb = text::span_back(t, Class::Space) as int;
    let p = v + j0 + n - 1;
    assert(t[p] == rest[n - 1]);
    assert(t[p] == '=');
    assert(sb < t.len() - p) by {
        if sb >= t.len() - p {
            assert(Class::Space.has(t[p]));
        }
    }
    let line = text::trim(l);
    assert(line =~= t.take(t.len() - sb));
    assert forall|i: int| 0 <= i < line.len() implies #[trigger] line[i] == t[i] by {}
    assert forall|i: int| 0 <= i < v implies Class::Ident.has(#[trigger] line[i]) by {
        assert(line[i] == var[i]);
        assert(Class::Ident.has(var[i]));
    }
    assert(!Class::Ident.has(line[v])) by {
        if j0 > 0 {
            assert(line[v] == tail[0]);
            assert(Class::Space.has(tail[0]));
        } else {
            assert(line[v] == rest[0]);
        }
    }
    text::lemma_span_is(line, Class::Ident, v);
    let after = line.skip(v);
    assert forall|i: int| 0 <= i < j0 implies Class::Space.has(#[trigger] after[i]) by {
        assert(after[i] == tail[i]);
    }
    assert(after[j0] == rest[0]);
    text::lemma_span_is(after, Class::Space, j0);
    let op = after.skip(j0);
    assert(op[0] == rest[0]);
    assert(n == 2 ==> op[1] == rest[1]);
    assert(line.take(v) =~= var);
    assert(op.take(n) =~= rest.take(n));
}

/// A line that starts with `P` opens and closes no block.
proof fn lemma_no_block(line: Seq<char>)
    requires
        line.len() > 0,
        line[0] == 'P',
    ensures
        line[0] != '#',
        !makefile_parser::opens_block(makefile_parser::first_word(line)),
        makefile_parser::first_word(line) != "endif"@,
        makefile_parser::first_word(line) != "else"@,
{
    text::lemma_span_is(line, Class::Space, 0);
    assert(line.skip(0) =~= line);
    text::lemma_span(line, Class::NotSpace);
    let n = text::span(line, Class::NotSpace) as int;
    assert(n > 0);
    let w = makefile_parser::first_word(line);
    assert(text::words(line)[0] == line.take(n));
    assert(w == line.take(n));
    assert(w[0] == 'P');
    reveal_strlit("ifeq");
    reveal_strlit("ifneq");
    reveal_strlit("ifdef");
    reveal_strlit("ifndef");
    reveal_strlit("endif");
    reveal_strlit("else");
}

/// What a line that assigns a variable, and starts with `P`, does.
proof fn lemma_assigning_line(r: Reading, line: Seq<char>)
    requires
        line.len() > 0,
        line[0] == 'P',
        outside::assignment(line) is Some,
    ensures
        ({
            let g = outside::assignment(line)->0;
            let after = makefile_parser::read_line(r, line);
            &&& after.depth == r.depth
            &&& r.depth == 0 ==> after.vars == makefile_parser::assigned(
                r.vars,
                outside::group(g, 1),
                outside::group(g, 2),
                text::trim(outside::group(g, 3)),
            )
            &&& forall|k: Seq<char>|
                k != outside::group(g, 1) ==> #[trigger] vars::lookup(after.vars, k)
                    == vars::lookup(r.vars, k)
        }),
{
    lemma_no_block(line);
}

/// Whether two readings agree on everything but what an update asks for.
pub open spec fn agree(a: Reading, b: Reading, u: MakefileUpdate) -> bool {
    &&& a.depth == b.depth
    &&& forall|k: Seq<char>|
        !asks_for(u, k) ==> #[trigger] vars::lookup(a.vars, k) == vars::lookup(b.vars, k)
}

/// The same line leaves readings in agreement.
proof fn lemma_same_line(a: Reading, b: Reading, line: Seq<char>, u: MakefileUpdate)
    requires
        agree(a, b, u),
    ensures
        agree(makefile_parser::read_line(a, line), makefile_parser::read_line(b, line), u),
{
    let x = makefile_parser::read_line(a, line);
    let y = makefile_parser::read_line(b, line);
    assert forall|k: Seq<char>| !asks_for(u, k) implies #[trigger] vars::lookup(x.vars, k)
        == vars::lookup(y.vars, k) by {
        assert(vars::lookup(a.vars, k) == vars::lookup(b.vars, k));
        if let Some(g) = outside::assignment(line) {
            let key = outside::group(g, 1);
            assert(key == k ==> vars::lookup(a.vars, key) == vars::lookup(b.vars, key));
        }
    }
}

/// A line and what an update makes of it leave readings in agreement.
proof fn lemma_changed_line(a: Reading, b: Reading, l: Seq<char>, u: MakefileUpdate)
    requires
        agree(a, b, u),
        is_proper(u),
    ensures
        agree(
            makefile_parser::read_line(a, text::trim(l)),
            makefile_parser::read_line(b, text::trim(makefile_updater::updated_line(l, u))),
            u,
        ),
{
    lemma_updated_line(l, u);
    let m = makefile_updater::updated_line(l, u);
    match makefile_updater::written_var(l, u) {
        Some(var) => {
            lemma_sets_assigns(l, var);
            lemma_assigning_line(a, text::trim(l));
            makefile_updater::law_written_value_reads_back(l, var, value_for(u, var));
            lemma_with_value_start(l, var, value_for(u, var));
            lemma_assigning_line(b, text::trim(m));
            let x = makefile_parser::read_line(a, text::trim(l));
            let y = makefile_parser::read_line(b, text::trim(m));
            assert forall|k: Seq<char>| !asks_for(u, k) implies #[trigger] vars::lookup(x.vars, k)
                == vars::lookup(y.vars, k) by {
                assert(k != var);
                assert(vars::lookup(a.vars, k) == vars::lookup(b.vars, k));
                assert(vars::lookup(y.vars, k) == vars::lookup(b.vars, k));
            }
        },
        None => {
            lemma_same_line(a, b, text::trim(l), u);
        },
    }
}

/// A line with a new value starts with the variable when it is trimmed.
proof fn lemma_with_value_start(l: Seq<char>, var: Seq<char>, new: Seq<char>)
    requires
        makefile_updater::is_variable_name(var),
        makefile_updater::sets_literal(l, var),
        makefile_updater::is_trimmed(new),
    ensures
        ({
            let line = text::trim(makefile_updater::with_value(l, var, new));
            line.len() > 0 && line[0] == var[0]
        }),
{
    makefile_updater::law_written_value_reads_back(l, var, new);
    let line = text::trim(makefile_updater::with_value(l, var, new));
    let g = outside::assignment(line)->0;
    let n = text::span(line, Class::Ident) as int;
    text::lemma_span(line, Class::Ident);
    assert(outside::group(g, 1) == line.take(n));
    assert(line.take(n)[0] == line[0]);
}

/// Logical lines and what they become leave readings in agreement.
proof fn lemma_readings_agree(xs: Seq<Seq<char>>, ys: Seq<Seq<char>>, u: MakefileUpdate)
    requires
        is_proper(u),
        all_become(xs, ys, u),
    ensures
        agree(makefile_parser::read_lines(xs), makefile_parser::read_lines(ys), u),
    decreases xs.len(),
{
    if xs.len() > 0 {
        let xf = xs.drop_last();
        let yf = ys.drop_last();
        assert forall|i: int| 0 <= i < xf.len() implies becomes(#[trigger] xf[i], yf[i], u) by {
            assert(xf[i] == xs[i]);
        }
        lemma_readings_agree(xf, yf, u);
        let x = xs[xs.len() - 1];
        let y = ys[xs.len() - 1];
        assert(becomes(x, y, u));
        let a = makefile_parser::read_lines(xf);
        let b = makefile_parser::read_lines(yf);
        if x == y {
            lemma_same_line(a, b, x, u);
        } else {
            let l = choose|l: Seq<char>|
                {
                    &&& #[trigger] makefile_updater::written_var(l, u) is Some
                    &&& x == text::trim(l)
                    &&& y == text::trim(makefile_updater::updated_line(l, u))
                };
            lemma_changed_line(a, b, l, u);
        }
    }
}

/// A line keeps its operator when it takes a new value.
proof fn lemma_written_operator(l: Seq<char>, var: Seq<char>, new: Seq<char>)
    requires
        makefile_updater::is_variable_name(var),
        makefile_updater::sets_literal(l, var),
        makefile_updater::is_trimmed(new),
        !"?"@.is_prefix_of(makefile_updater::after_name(l, var)),
    ensures
        ({
            let g = outside::assignment(text::trim(makefile_updater::with_value(l, var, new)))->0;
            outside::group(g, 2) != "?="@ && outside::group(g, 2) != "+="@
        }),
{
    reveal_strlit("?");
    reveal_strlit("?=");
    reveal_strlit("+=");
    let rest = makefile_updater::after_name(l, var);
    let n = makefile_updater::operator_length(rest);
    makefile_updater::lemma_operator(rest);
    assert(rest.subrange(0, 1) =~= seq![rest[0]]);
    assert("?"@ =~= seq!['?']);
    assert(rest[0] != '?');
    makefile_updater::law_written_value_reads_back(l, var, new);
    let line = text::trim(makefile_updater::with_value(l, var, new));
    let g = outside::assignment(line)->0;
    makefile_updater::lemma_written_assignment(l, var, new);
    assert(outside::group(g, 2) == rest.take(n));
    assert(rest.take(n)[0] == rest[0]);
}

// ──────────────────────────────────── laws ───────────────────────────────────

/// An update changes only what it asks for: a makefile that is read again after
/// it assigns every other variable the value that it had.
pub proof fn law_update_changes_only_what_it_asks_for(
    content: Seq<char>,
    u: MakefileUpdate,
    var: Seq<char>,
)
    requires
        is_proper(u),
        is_orderly(text::lines(content), u),
        !asks_for(u, var),
    ensures
        vars::lookup(
            makefile_parser::assigned_vars(makefile_updater::updated_text(content, u)),
            var,
        ) == vars::lookup(makefile_parser::assigned_vars(content), var),
{
    let ls = text::lines(content);
    let ms = text::lines(makefile_updater::updated_text(content, u));
    makefile_parser::lemma_lines_hold_no_feed(content);
    lemma_lines_after(content, u);
    lemma_logical_lines(ls, ms, Seq::empty(), u);
    lemma_readings_agree(
        makefile_parser::logical_lines(ls, Seq::empty()),
        makefile_parser::logical_lines(ms, Seq::empty()),
        u,
    );
}

/// Whether a logical line gives a variable a value, whatever value it had.
pub open spec fn sets(line: Seq<char>, var: Seq<char>) -> bool {
    outside::assignment(line) matches Some(g) && outside::group(g, 1) == var && outside::group(
        g,
        2,
    ) != "?="@
}

/// Whether no line sets a variable after some others, outside conditional blocks.
pub open spec fn leave(
    before: Seq<Seq<char>>,
    after: Seq<Seq<char>>,
    var: Seq<char>,
) -> bool {
    forall|j: int|
        0 <= j < after.len() && makefile_parser::read_lines(before + after.take(j)).depth == 0
            ==> !sets(#[trigger] after[j], var)
}

/// A line that does not set a variable keeps the value that it has, and so does
/// the line that it becomes.
proof fn lemma_keeps_value(
    a: Reading,
    b: Reading,
    x: Seq<char>,
    y: Seq<char>,
    u: MakefileUpdate,
    var: Seq<char>,
)
    requires
        is_proper(u),
        becomes(x, y, u),
        agree(a, b, u),
        a.depth == 0 ==> !sets(x, var),
        vars::lookup(b.vars, var) is Some,
    ensures
        vars::lookup(makefile_parser::read_line(b, y).vars, var) == vars::lookup(b.vars, var),
{
    if x != y {
        let l = choose|l: Seq<char>|
            {
                &&& #[trigger] makefile_updater::written_var(l, u) is Some
                &&& x == text::trim(l)
                &&& y == text::trim(makefile_updater::updated_line(l, u))
            };
        lemma_updated_line(l, u);
        let other = makefile_updater::written_var(l, u)->0;
        lemma_sets_assigns(l, other);
        makefile_updater::lemma_written_assignment(l, other, value_for(u, other));
    }
}

/// A value that is there stays while no line sets the variable.
proof fn lemma_value_stays(
    xs: Seq<Seq<char>>,
    ys: Seq<Seq<char>>,
    after: Seq<Seq<char>>,
    new: Seq<Seq<char>>,
    u: MakefileUpdate,
    var: Seq<char>,
    n: int,
)
    requires
        is_proper(u),
        all_become(xs, ys, u),
        all_become(after, new, u),
        leave(xs, after, var),
        vars::lookup(makefile_parser::read_lines(ys).vars, var) is Some,
        0 <= n <= after.len(),
    ensures
        vars::lookup(makefile_parser::read_lines(ys + new.take(n)).vars, var) == vars::lookup(
            makefile_parser::read_lines(ys).vars,
            var,
        ),
    decreases n,
{
    if n == 0 {
        assert(ys + new.take(0) =~= ys);
    } else {
        lemma_value_stays(xs, ys, after, new, u, var, n - 1);
        let xf = xs + after.take(n - 1);
        let yf = ys + new.take(n - 1);
        assert((ys + new.take(n)).drop_last() =~= yf);
        assert((ys + new.take(n)).last() == new[n - 1]);
        assert forall|i: int| 0 <= i < xf.len() implies becomes(#[trigger] xf[i], yf[i], u) by {
            if i < xs.len() {
                assert(becomes(xs[i], ys[i], u));
            } else {
                assert(becomes(after[i - xs.len()], new[i - xs.len()], u));
            }
        }
        lemma_readings_agree(xf, yf, u);
        assert(becomes(after[n - 1], new[n - 1], u));
        lemma_keeps_value(
            makefile_parser::read_lines(xf),
            makefile_parser::read_lines(yf),
            after[n - 1],
            new[n - 1],
            u,
            var,
        );
    }
}

/// A value that an update writes is what the makefile says when it is read again:
/// where the line stands outside conditional blocks, assigns without `?`, and no
/// later line outside such blocks sets the variable.
pub proof fn law_updated_value_is_read_back(
    content: Seq<char>,
    u: MakefileUpdate,
    var: Seq<char>,
    i: int,
)
    requires
        is_proper(u),
        is_orderly(text::lines(content), u),
        0 <= i < text::lines(content).len(),
        makefile_updater::written_var(text::lines(content)[i], u) == Some(var),
        !"?"@.is_prefix_of(makefile_updater::after_name(text::lines(content)[i], var)),
        ({
            let ls = text::lines(content);
            let before = makefile_parser::logical_lines(ls.take(i), Seq::empty());
            let after = makefile_parser::logical_lines(ls.skip(i + 1), Seq::empty());
            &&& makefile_parser::read_lines(before).depth == 0
            &&& leave(before.push(text::trim(ls[i])), after, var)
        }),
    ensures
        vars::lookup(
            makefile_parser::assigned_vars(makefile_updater::updated_text(content, u)),
            var,
        ) == Some(value_for(u, var)),
{
    let none = Seq::<char>::empty();
    let ls = text::lines(content);
    let ms = text::lines(makefile_updater::updated_text(content, u));
    makefile_parser::lemma_lines_hold_no_feed(content);
    lemma_lines_after(content, u);
    let before = makefile_parser::logical_lines(ls.take(i), none);
    let after = makefile_parser::logical_lines(ls.skip(i + 1), none);
    let old_before = makefile_parser::logical_lines(ms.take(i), none);
    let new_after = makefile_parser::logical_lines(ms.skip(i + 1), none);
    lemma_parts(ls, ms, u, 0, i);
    lemma_parts(ls, ms, u, i + 1, ls.len() as int);
    assert(ls.subrange(0, i) =~= ls.take(i));
    assert(ms.subrange(0, i) =~= ms.take(i));
    assert(ls.subrange(i + 1, ls.len() as int) =~= ls.skip(i + 1));
    assert(ms.subrange(i + 1, ls.len() as int) =~= ms.skip(i + 1));
    // the lines that are read again come apart at the written line
    assert(is_reread(ls[i], ms[i], u));
    lemma_reread(ls, i, ms[i], u);
    if i > 0 {
        assert(is_reread(ls[i - 1], ms[i - 1], u));
        lemma_reread(ls, i - 1, ms[i - 1], u);
    }
    let y = text::trim(ms[i]);
    lemma_logical_apart(ms, none, i);
    let back = ms.skip(i);
    assert(back[0] == ms[i]);
    assert(none + ms[i] =~= ms[i]);
    assert(back.skip(1) =~= ms.skip(i + 1));
    let ys = makefile_parser::logical_lines(ms, none);
    assert(ys =~= old_before.push(y) + new_after);
    // the line assigns the new value
    lemma_updated_line(ls[i], u);
    let new = value_for(u, var);
    makefile_updater::law_written_value_reads_back(ls[i], var, new);
    lemma_with_value_start(ls[i], var, new);
    lemma_written_operator(ls[i], var, new);
    lemma_readings_agree(before, old_before, u);
    lemma_assigning_line(makefile_parser::read_lines(old_before), y);
    assert(old_before.push(y).drop_last() =~= old_before);
    // and no later line changes it
    let xs = before.push(text::trim(ls[i]));
    assert forall|j: int| 0 <= j < xs.len() implies becomes(
        #[trigger] xs[j],
        old_before.push(y)[j],
        u,
    ) by {
        if j < before.len() {
            assert(becomes(before[j], old_before[j], u));
        } else {
            assert(makefile_updater::written_var(ls[i], u) is Some);
        }
    }
    lemma_value_stays(xs, old_before.push(y), after, new_after, u, var, after.len() as int);
    assert(new_after.take(after.len() as int) =~= new_after);
}

/// The logical lines of a part of a makefile become those that are read again.
proof fn lemma_parts(ls: Seq<Seq<char>>, ms: Seq<Seq<char>>, u: MakefileUpdate, a: int, b: int)
    requires
        is_proper(u),
        is_orderly(ls, u),
        are_reread(ls, ms, u),
        forall|i: int| 0 <= i < ls.len() ==> makefile_parser::one_line(#[trigger] ls[i]),
        0 <= a <= b <= ls.len(),
    ensures
        all_become(
            makefile_parser::logical_lines(ls.subrange(a, b), Seq::empty()),
            makefile_parser::logical_lines(ms.subrange(a, b), Seq::empty()),
            u,
        ),
{
    let x = ls.subrange(a, b);
    let y = ms.subrange(a, b);
    assert forall|i: int| 0 <= i < x.len() implies makefile_parser::one_line(#[trigger] x[i])
        && is_reread(x[i], y[i], u) by {
        assert(x[i] == ls[a + i]);
        assert(is_reread(ls[a + i], ms[a + i], u));
    }
    assert(is_orderly(x, u)) by {
        assert forall|i: int| 0 <= i < x.len() implies {
            &&& makefile_updater::written_var(#[trigger] x[i], u) is Some ==> !goes_on(x[i]) && (i
                > 0 ==> !goes_on(x[i - 1]))
            &&& goes_on(text::strip_cr(x[i])) ==> goes_on(x[i])
        } by {
            assert(x[i] == ls[a + i]);
            assert(i > 0 ==> x[i - 1] == ls[a + i - 1]);
        }
    }
    lemma_logical_lines(x, y, Seq::empty(), u);
}

// ──────────────────────────────── updating twice ─────────────────────────────

/// A value that stands where it is written: it does not start with white space,
/// holds no line feed, and does not end in a carriage return.
pub open spec fn is_firm(s: Seq<char>) -> bool {
    &&& makefile_parser::one_line(s)
    &&& s.len() > 0 ==> !text::is_space(s[0]) && s.last() != '\r'
}

/// An update whose values stand where they are written.
pub open spec fn all_firm(u: MakefileUpdate) -> bool {
    &&& u.pkg_version is Some ==> is_firm(u.pkg_version->0@)
    &&& u.pkg_source_version is Some ==> is_firm(u.pkg_source_version->0@)
    &&& u.pkg_source_date is Some ==> is_firm(u.pkg_source_date->0@)
    &&& u.pkg_hash is Some ==> is_firm(u.pkg_hash->0@)
}

/// A line with a new value for a variable says the same again when it is given the
/// value again, and sets no variable that starts differently.
proof fn lemma_value_again(line: Seq<char>, var: Seq<char>, new: Seq<char>)
    requires
        makefile_updater::is_variable_name(var),
        makefile_updater::sets_literal(line, var),
        new.len() > 0 ==> !text::is_space(new[0]),
    ensures
        ({
            let l = makefile_updater::with_value(line, var, new);
            &&& makefile_updater::with_value(l, var, new) == l
            &&& forall|w: Seq<char>|
                makefile_updater::is_variable_name(w) && !w.is_prefix_of(var)
                    ==> !#[trigger] makefile_updater::sets_literal(l, w)
        }),
{
    let rest = makefile_updater::after_name(line, var);
    let n = makefile_updater::operator_length(rest);
    makefile_updater::lemma_operator(rest);
    let op = rest.take(n);
    let after = rest.skip(n);
    text::lemma_span(after, Class::Space);
    let b = text::span(after, Class::Space) as int;
    let blanks = after.take(b);
    text::lemma_span(line, Class::Space);
    let i = text::span(line, Class::Space) as int;
    let indent = line.take(i);
    let l = makefile_updater::with_value(line, var, new);
    let tail = op + blanks + new;
    let m = var + tail;
    assert(l =~= indent + m);
    assert forall|j: int| 0 <= j < i implies Class::Space.has(#[trigger] l[j]) by {
        assert(l[j] == line[j]);
    }
    assert(Class::Ident.has(var[0]));
    assert(l[i] == var[0]);
    text::lemma_span_is(l, Class::Space, i);
    assert(l.skip(i) =~= m);
    assert(m.skip(var.len() as int) =~= tail);
    assert(tail[0] == rest[0]);
    text::lemma_span_is(tail, Class::Space, 0);
    assert(tail.skip(0) =~= tail);
    assert(makefile_updater::after_name(l, var) == tail);
    makefile_updater::lemma_operator(tail);
    assert(makefile_updater::operator_length(tail) == n) by {
        reveal_strlit(":=");
        reveal_strlit("?=");
        reveal_strlit("=");
        if n == 2 {
            assert(tail[1] == rest[1]);
            assert(tail.subrange(0, 2) =~= rest.subrange(0, 2));
        } else {
            assert(tail.subrange(0, 1) =~= rest.subrange(0, 1));
            assert(tail.len() >= 2 ==> tail.subrange(0, 2)[0] == '=');
        }
    }
    let behind = tail.skip(n);
    assert(behind =~= blanks + new);
    assert forall|j: int| 0 <= j < b implies Class::Space.has(#[trigger] behind[j]) by {
        assert(behind[j] == after[j]);
    }
    assert(new.len() > 0 ==> behind[b] == new[0]);
    text::lemma_span_is(behind, Class::Space, b);
    assert(tail.take(n) =~= op);
    assert(behind.take(b) =~= blanks);
    assert(l.take(i) =~= indent);
    assert forall|w: Seq<char>|
        makefile_updater::is_variable_name(w) && !w.is_prefix_of(
            var,
        ) implies !#[trigger] makefile_updater::sets_literal(l, w) by {
        if w.is_prefix_of(m) {
            if w.len() <= var.len() {
                assert(var.subrange(0, w.len() as int) =~= m.subrange(0, w.len() as int));
            } else {
                assert(m[var.len() as int] == tail[0]);
                assert(w[var.len() as int] == m.subrange(0, w.len() as int)[var.len() as int]);
                assert(Class::Ident.has(w[var.len() as int]));
            }
        }
    }
}

/// Of the four variables that updates write only itself starts a given one.
proof fn lemma_other_names(var: Seq<char>)
    requires
        var == "PKG_VERSION"@ || var == "PKG_SOURCE_VERSION"@ || var == "PKG_SOURCE_DATE"@ || var
            == "PKG_HASH"@,
    ensures
        "PKG_VERSION"@.is_prefix_of(var) ==> var == "PKG_VERSION"@,
        "PKG_SOURCE_VERSION"@.is_prefix_of(var) ==> var == "PKG_SOURCE_VERSION"@,
        "PKG_SOURCE_DATE"@.is_prefix_of(var) ==> var == "PKG_SOURCE_DATE"@,
        "PKG_HASH"@.is_prefix_of(var) ==> var == "PKG_HASH"@,
{
    reveal_strlit("PKG_VERSION");
    reveal_strlit("PKG_SOURCE_VERSION");
    reveal_strlit("PKG_SOURCE_DATE");
    reveal_strlit("PKG_HASH");
    let v = "PKG_VERSION"@;
    let s = "PKG_SOURCE_VERSION"@;
    let d = "PKG_SOURCE_DATE"@;
    let h = "PKG_HASH"@;
    assert(v[4] == 'V' && s[4] == 'S' && d[4] == 'S' && h[4] == 'H');
    assert(s[11] == 'V' && d[11] == 'D');
    if v.is_prefix_of(var) {
        assert(var[4] == var.subrange(0, v.len() as int)[4]);
    }
    if s.is_prefix_of(var) {
        assert(var[4] == var.subrange(0, s.len() as int)[4]);
        assert(var[11] == var.subrange(0, s.len() as int)[11]);
    }
    if d.is_prefix_of(var) {
        assert(var[4] == var.subrange(0, d.len() as int)[4]);
        assert(var[11] == var.subrange(0, d.len() as int)[11]);
    }
    if h.is_prefix_of(var) {
        assert(var[4] == var.subrange(0, h.len() as int)[4]);
    }
}

/// Updating a line again changes nothing more.
proof fn lemma_line_twice(line: Seq<char>, u: MakefileUpdate)
    requires
        all_firm(u),
    ensures
        makefile_updater::updated_line(makefile_updater::updated_line(line, u), u)
            == makefile_updater::updated_line(line, u),
{
    lemma_names();
    if u.pkg_version is Some && makefile_updater::sets_literal(line, "PKG_VERSION"@) {
        lemma_value_again(line, "PKG_VERSION"@, u.pkg_version->0@);
        lemma_other_names("PKG_VERSION"@);
    } else if u.pkg_source_version is Some && makefile_updater::sets_literal(
        line,
        "PKG_SOURCE_VERSION"@,
    ) {
        lemma_value_again(line, "PKG_SOURCE_VERSION"@, u.pkg_source_version->0@);
        lemma_other_names("PKG_SOURCE_VERSION"@);
    } else if u.pkg_source_date is Some && makefile_updater::sets_literal(
        line,
        "PKG_SOURCE_DATE"@,
    ) {
        lemma_value_again(line, "PKG_SOURCE_DATE"@, u.pkg_source_date->0@);
        lemma_other_names("PKG_SOURCE_DATE"@);
    } else if u.pkg_hash is Some && makefile_updater::sets_literal(line, "PKG_HASH"@) {
        lemma_value_again(line, "PKG_HASH"@, u.pkg_hash->0@);
        lemma_other_names("PKG_HASH"@);
    }
}

/// A line with a new value is one line, is not empty, and does not end in a
/// carriage return.
proof fn lemma_firm_value(line: Seq<char>, var: Seq<char>, new: Seq<char>)
    requires
        text::all_in(line, Class::Neither('\n', '\r')),
        makefile_updater::is_variable_name(var),
        makefile_updater::sets_literal(line, var),
        is_firm(new),
    ensures
        ({
            let l = makefile_updater::with_value(line, var, new);
            makefile_parser::one_line(l) && l.len() > 0 && text::strip_cr(l) == l
        }),
{
    let k = Class::Neither('\n', '\r');
    let t = text::trim_start_of(line, Class::Space);
    text::lemma_span(line, Class::Space);
    let i = text::span(line, Class::Space) as int;
    let named = t.skip(var.len() as int);
    text::lemma_span(named, Class::Space);
    let rest = makefile_updater::after_name(line, var);
    let n = makefile_updater::operator_length(rest);
    makefile_updater::lemma_operator(rest);
    let off = i + var.len() + text::span(named, Class::Space);
    assert forall|j: int| 0 <= j < rest.len() implies k.has(#[trigger] rest[j]) by {
        assert(rest[j] == line[off + j]);
    }
    let after = rest.skip(n);
    text::lemma_span(after, Class::Space);
    let b = text::span(after, Class::Space) as int;
    let front = line.take(i) + var + rest.take(n) + after.take(b);
    let l = makefile_updater::with_value(line, var, new);
    assert(l =~= front + new);
    assert forall|j: int| 0 <= j < front.len() implies k.has(#[trigger] front[j]) by {
        if j < i {
            assert(front[j] == line[j]);
        } else if j < i + var.len() {
            assert(front[j] == var[j - i]);
            assert(Class::Ident.has(var[j - i]));
        } else if j < i + var.len() + n {
            assert(front[j] == rest[j - i - var.len()]);
        } else {
            assert(front[j] == rest[j - i - var.len()]);
        }
    }
    assert forall|j: int| 0 <= j < l.len() implies Class::Not('\n').has(#[trigger] l[j]) by {
        if j < front.len() {
            assert(l[j] == front[j]);
        } else {
            assert(l[j] == new[j - front.len()]);
        }
    }
    if new.len() > 0 {
        assert(l.last() == new.last());
    } else {
        assert(l.last() == front.last());
    }
}

/// An updated line is one line, is empty only if it was, and does not end in a
/// carriage return.
proof fn lemma_firm_line(line: Seq<char>, u: MakefileUpdate)
    requires
        text::all_in(line, Class::Neither('\n', '\r')),
        all_firm(u),
    ensures
        ({
            let l = makefile_updater::updated_line(line, u);
            makefile_parser::one_line(l) && (line.len() > 0 ==> l.len() > 0) && text::strip_cr(l)
                == l
        }),
{
    lemma_names();
    assert forall|j: int| 0 <= j < line.len() implies Class::Not('\n').has(#[trigger] line[j]) by {
        assert(Class::Neither('\n', '\r').has(line[j]));
    }
    if u.pkg_version is Some && makefile_updater::sets_literal(line, "PKG_VERSION"@) {
        lemma_firm_value(line, "PKG_VERSION"@, u.pkg_version->0@);
    } else if u.pkg_source_version is Some && makefile_updater::sets_literal(
        line,
        "PKG_SOURCE_VERSION"@,
    ) {
        lemma_firm_value(line, "PKG_SOURCE_VERSION"@, u.pkg_source_version->0@);
    } else if u.pkg_source_date is Some && makefile_updater::sets_literal(
        line,
        "PKG_SOURCE_DATE"@,
    ) {
        lemma_firm_value(line, "PKG_SOURCE_DATE"@, u.pkg_source_date->0@);
    } else if u.pkg_hash is Some && makefile_updater::sets_literal(line, "PKG_HASH"@) {
        lemma_firm_value(line, "PKG_HASH"@, u.pkg_hash->0@);
    } else if line.len() > 0 {
        assert(Class::Neither('\n', '\r').has(line.last()));
    }
}

/// The lines of an updated makefile are its lines after the update, and it ends in
/// a line feed if it did before.
proof fn lemma_updated_text(content: Seq<char>, u: MakefileUpdate)
    requires
        content.len() > 0,
        forall|i: int|
            0 <= i < text::lines(content).len() ==> text::all_in(
                #[trigger] text::lines(content)[i],
                Class::Not('\r'),
            ),
        all_firm(u),
    ensures
        ({
            let once = makefile_updater::updated_text(content, u);
            &&& text::lines(once) == changed_lines(text::lines(content), u)
            &&& once.len() > 0
            &&& "\n"@.is_suffix_of(once) == "\n"@.is_suffix_of(content)
        }),
{
    let ls = text::lines(content);
    let c = changed_lines(ls, u);
    let once = makefile_updater::updated_text(content, u);
    makefile_parser::lemma_lines_hold_no_feed(content);
    lemma_last_line(content);
    assert forall|i: int| 0 <= i < ls.len() implies makefile_parser::one_line(#[trigger] c[i]) && (
    ls[i].len() > 0 ==> c[i].len() > 0) && text::strip_cr(c[i]) == c[i] by {
        assert(makefile_parser::one_line(ls[i]));
        assert(text::all_in(ls[i], Class::Not('\r')));
        assert forall|j: int| 0 <= j < ls[i].len() implies Class::Neither('\n', '\r').has(
            #[trigger] ls[i][j],
        ) by {
            assert(Class::Not('\n').has(ls[i][j]));
            assert(Class::Not('\r').has(ls[i][j]));
        }
        lemma_firm_line(ls[i], u);
    }
    lemma_lines_of_feeds(c);
    lemma_updated_lines(ls, u);
    assert("\n"@ =~= seq!['\n']) by {
        reveal_strlit("\n");
    }
    lemma_ends_in_feed(content);
    assert(c.last() == c[ls.len() - 1]);
    assert(ls.last() == ls[ls.len() - 1]);
    assert(ended(c) =~= c);
    let whole = with_feeds(c);
    assert(whole.last() == '\n');
    if content.last() == '\n' {
        lemma_ends_in_feed(whole);
    } else {
        assert(c.last().len() > 0);
        assert(ended(c.drop_last()).push(c.last()) =~= c);
        let t = whole.drop_last();
        assert(t =~= with_feeds(c.drop_last()) + c.last());
        assert(t.last() == c.last().last());
        assert(Class::Not('\n').has(c.last()[c.last().len() - 1]));
        lemma_ends_in_feed(t);
    }
}

proof fn lemma_ends_in_feed(s: Seq<char>)
    requires
        s.len() > 0,
    ensures
        "\n"@.is_suffix_of(s) == (s.last() == '\n'),
{
    reveal_strlit("\n");
    assert("\n"@ =~= seq!['\n']);
    assert(s.subrange(s.len() - 1, s.len() as int) =~= seq![s.last()]);
    if s.last() != '\n' {
        assert(seq![s.last()][0] != "\n"@[0]);
    }
}

/// The lines of a text hold what it holds.
proof fn lemma_lines_hold(s: Seq<char>, k: Class)
    requires
        text::all_in(s, k),
    ensures
        forall|i: int|
            0 <= i < text::lines(s).len() ==> text::all_in(#[trigger] text::lines(s)[i], k),
    decreases s.len(),
{
    text::lemma_span(s, Class::Not('\n'));
    let n = text::span(s, Class::Not('\n')) as int;
    if s.len() > 0 && n < s.len() {
        let rest = s.skip(n + 1);
        assert forall|j: int| 0 <= j < rest.len() implies k.has(#[trigger] rest[j]) by {
            assert(rest[j] == s[n + 1 + j]);
        }
        lemma_lines_hold(rest, k);
        let ls = text::lines(s);
        assert forall|i: int| 0 <= i < ls.len() implies text::all_in(#[trigger] ls[i], k) by {
            if i == 0 {
                assert forall|j: int| 0 <= j < ls[0].len() implies k.has(#[trigger] ls[0][j]) by {
                    assert(ls[0][j] == s[j]);
                }
            } else {
                assert(ls[i] == text::lines(rest)[i - 1]);
            }
        }
    }
}

/// Applying an update twice is applying it once, where the values stand where they
/// are written and the makefile holds no carriage returns, or only such as end its
/// lines.
pub proof fn law_update_twice_is_once(content: Seq<char>, u: MakefileUpdate)
    requires
        text::all_in(content, Class::Not('\r')) || forall|i: int|
            0 <= i < text::lines(content).len() ==> text::all_in(
                #[trigger] text::lines(content)[i],
                Class::Not('\r'),
            ),
        all_firm(u),
    ensures
        ({
            let once = makefile_updater::updated_text(content, u);
            makefile_updater::updated_text(once, u) == once
        }),
{
    let ls = text::lines(content);
    let c = changed_lines(ls, u);
    let once = makefile_updater::updated_text(content, u);
    if text::all_in(content, Class::Not('\r')) {
        lemma_lines_hold(content, Class::Not('\r'));
    }
    if content.len() > 0 {
        lemma_updated_text(content, u);
        lemma_updated_lines(ls, u);
        lemma_updated_lines(c, u);
        assert(changed_lines(c, u) =~= c) by {
            assert forall|i: int| 0 <= i < c.len() implies changed_lines(c, u)[i] == c[i] by {
                lemma_line_twice(ls[i], u);
            }
        }
    } else {
        assert(ls =~= Seq::<Seq<char>>::empty());
        assert(once =~= content);
    }
}

} // verus!

//! What an update writes to the lines of a makefile.

use crate::makefile_updater;
use crate::makefile_updater::MakefileUpdate;
use crate::text;
use crate::text::Class;
use vstd::prelude::*;

verus! {

/// Whether a text is an assignment operator of a single value.
pub open spec fn is_operator(op: Seq<char>) -> bool {
    op == ":="@ || op == "?="@ || op == "="@
}

/// A line that assigns a variable: white space, the name, the operator, white space
/// and the value.
pub open spec fn assigns(
    indent: Seq<char>,
    var: Seq<char>,
    op: Seq<char>,
    blanks: Seq<char>,
    value: Seq<char>,
) -> Seq<char> {
    indent + var + op + blanks + value
}

/// Whether the parts of an assignment are what they are called.
pub open spec fn are_parts(
    indent: Seq<char>,
    var: Seq<char>,
    op: Seq<char>,
    blanks: Seq<char>,
    value: Seq<char>,
) -> bool {
    &&& text::all_in(indent, Class::Space)
    &&& var.len() > 0
    &&& text::all_in(var, Class::Ident)
    &&& is_operator(op)
    &&& text::all_in(blanks, Class::Space)
    &&& value.len() > 0
    &&& !text::is_space(value[0])
    &&& !value.contains('$')
}

proof fn lemma_operator(op: Seq<char>, rest: Seq<char>)
    requires
        is_operator(op),
    ensures
        op.len() == 1 || op.len() == 2,
        makefile_updater::operator_length(op + rest) == op.len(),
        !text::is_space(op[0]),
        !Class::Ident.has(op[0]),
{
    reveal_strlit(":=");
    reveal_strlit("?=");
    reveal_strlit("=");
    let s = op + rest;
    assert(s.subrange(0, op.len() as int) =~= op);
    if ":="@.is_prefix_of(s) {
        assert(s.subrange(0, 2)[0] == s[0]);
    }
    if "?="@.is_prefix_of(s) {
        assert(s.subrange(0, 2)[0] == s[0]);
    }
}

proof fn lemma_no_expression(value: Seq<char>)
    requires
        !value.contains('$'),
    ensures
        !text::contains(text::trim(value), "$("@),
        !text::contains(text::trim(value), "${"@),
{
    reveal_strlit("$(");
    reveal_strlit("${");
    let t = text::trim_start_of(value, Class::Space);
    text::lemma_span(value, Class::Space);
    text::lemma_span_back(t, Class::Space);
    let v = text::trim(value);
    assert forall|i: int| 0 <= i < v.len() implies #[trigger] v[i] != '$' by {
        assert(v[i] == value[i + text::span(value, Class::Space)]);
        assert(value.contains(value[i + text::span(value, Class::Space)]));
    }
    if text::contains(v, "$("@) {
        let i = choose|i: int| text::occurs_at(v, "$("@, i);
        assert(v.subrange(i, i + 2)[0] == v[i]);
    }
    if text::contains(v, "${"@) {
        let i = choose|i: int| text::occurs_at(v, "${"@, i);
        assert(v.subrange(i, i + 2)[0] == v[i]);
    }
}

/// White space before a value does not matter for whether it holds expressions.
proof fn lemma_blanks_before(blanks: Seq<char>, value: Seq<char>)
    requires
        text::all_in(blanks, Class::Space),
        value.len() > 0,
        !text::is_space(value[0]),
    ensures
        text::trim(blanks + value) == text::trim(value),
        text::span(blanks + value, Class::Space) == blanks.len(),
{
    let s = blanks + value;
    let n = blanks.len() as int;
    assert forall|i: int| 0 <= i < n implies Class::Space.has(#[trigger] s[i]) by {
        assert(s[i] == blanks[i]);
    }
    assert(s[n] == value[0]);
    text::lemma_span_is(s, Class::Space, n);
    assert(s.skip(n) =~= value);
    text::lemma_span_is(value, Class::Space, 0);
    assert(value.skip(0) =~= value);
}

proof fn lemma_assigns(
    indent: Seq<char>,
    var: Seq<char>,
    op: Seq<char>,
    blanks: Seq<char>,
    value: Seq<char>,
)
    requires
        are_parts(indent, var, op, blanks, value),
    ensures
        ({
            let line = assigns(indent, var, op, blanks, value);
            let rest = op + blanks + value;
            &&& text::trim_start_of(line, Class::Space) == var + rest
            &&& text::span(line, Class::Space) == indent.len()
            &&& makefile_updater::after_name(line, var) == rest
            &&& makefile_updater::operator_length(rest) == op.len()
            &&& rest.skip(op.len() as int) == blanks + value
            &&& rest.take(op.len() as int) == op
        }),
{
    let line = assigns(indent, var, op, blanks, value);
    let rest = op + blanks + value;
    let n = indent.len() as int;
    assert(Class::Ident.has(var[0]));
    assert(line[n] == var[0]);
    assert(!Class::Space.has(var[0]));
    assert forall|i: int| 0 <= i < n implies Class::Space.has(#[trigger] line[i]) by {
        assert(line[i] == indent[i]);
    }
    text::lemma_span_is(line, Class::Space, n);
    assert(line.skip(n) =~= var + rest);
    assert((var + rest).skip(var.len() as int) =~= rest);
    assert(rest =~= op + (blanks + value));
    lemma_operator(op, blanks + value);
    assert(rest[0] == op[0]);
    text::lemma_span_is(rest, Class::Space, 0);
    assert(rest.skip(0) =~= rest);
    assert(rest.skip(op.len() as int) =~= blanks + value);
    assert(rest.take(op.len() as int) =~= op);
}

/// A line that assigns a variable a value without expressions takes a new value:
/// everything before the value stays.
pub proof fn law_lines_take_new_values(
    indent: Seq<char>,
    var: Seq<char>,
    op: Seq<char>,
    blanks: Seq<char>,
    value: Seq<char>,
    new: Seq<char>,
)
    requires
        are_parts(indent, var, op, blanks, value),
    ensures
        makefile_updater::replaced_line(
            assigns(indent, var, op, blanks, value),
            var,
            Some(new),
        ) == Some(assigns(indent, var, op, blanks, new)),
{
    let line = assigns(indent, var, op, blanks, value);
    let rest = op + blanks + value;
    lemma_assigns(indent, var, op, blanks, value);
    lemma_blanks_before(blanks, value);
    lemma_no_expression(value);
    assert((var + rest).subrange(0, var.len() as int) =~= var);
    assert(line.take(indent.len() as int) =~= indent);
    assert((blanks + value).take(blanks.len() as int) =~= blanks);
}

/// A line that adds to a variable, or that assigns one whose name goes on, takes no
/// new value.
pub proof fn law_other_assignments_stay(
    var: Seq<char>,
    c: char,
    x: Seq<char>,
    new: Seq<char>,
)
    requires
        var.len() > 0,
        text::all_in(var, Class::Ident),
        c == '+' || Class::Ident.has(c),
    ensures
        makefile_updater::replaced_line(var + seq![c] + x, var, Some(new)) is None,
{
    reveal_strlit(":=");
    reveal_strlit("?=");
    reveal_strlit("=");
    let line = var + seq![c] + x;
    assert(Class::Ident.has(var[0]));
    assert(line[0] == var[0]);
    text::lemma_span_is(line, Class::Space, 0);
    assert(line.skip(0) =~= line);
    let rest = line.skip(var.len() as int);
    assert(rest =~= seq![c] + x);
    assert(!Class::Space.has(c));
    text::lemma_span_is(rest, Class::Space, 0);
    assert(rest.skip(0) =~= rest);
    assert(rest[0] == c);
    if ":="@.is_prefix_of(rest) {
        assert(rest.subrange(0, 2)[0] == rest[0]);
    }
    if "?="@.is_prefix_of(rest) {
        assert(rest.subrange(0, 2)[0] == rest[0]);
    }
    if "="@.is_prefix_of(rest) {
        assert(rest.subrange(0, 1)[0] == rest[0]);
    }
}

proof fn lemma_names_differ(s: Seq<char>, rest: Seq<char>)
    requires
        s == "PKG_VERSION"@ || s == "PKG_SOURCE_VERSION"@ || s == "PKG_SOURCE_DATE"@ || s
            == "PKG_HASH"@,
    ensures
        "PKG_VERSION"@.is_prefix_of(s + rest) ==> s == "PKG_VERSION"@,
        "PKG_SOURCE_VERSION"@.is_prefix_of(s + rest) ==> s == "PKG_SOURCE_VERSION"@,
        "PKG_SOURCE_DATE"@.is_prefix_of(s + rest) ==> s == "PKG_SOURCE_DATE"@,
        "PKG_HASH"@.is_prefix_of(s + rest) ==> s == "PKG_HASH"@,
        text::all_in(s, Class::Ident),
        s.len() > 0,
{
    reveal_strlit("PKG_VERSION");
    reveal_strlit("PKG_SOURCE_VERSION");
    reveal_strlit("PKG_SOURCE_DATE");
    reveal_strlit("PKG_HASH");
    let t = s + rest;
    assert(t[4] == s[4]);
    if "PKG_VERSION"@.is_prefix_of(t) {
        assert(t.subrange(0, 11)[4] == t[4]);
    }
    if "PKG_SOURCE_VERSION"@.is_prefix_of(t) {
        assert(t.subrange(0, 18)[4] == t[4]);
        assert(t.subrange(0, 18)[11] == t[11]);
        assert(s.len() > 11 ==> t[11] == s[11]);
    }
    if "PKG_SOURCE_DATE"@.is_prefix_of(t) {
        assert(t.subrange(0, 15)[4] == t[4]);
        assert(t.subrange(0, 15)[11] == t[11]);
        assert(s.len() > 11 ==> t[11] == s[11]);
    }
    if "PKG_HASH"@.is_prefix_of(t) {
        assert(t.subrange(0, 8)[4] == t[4]);
    }
}

/// The value that an update has for a variable.
pub open spec fn value_in(u: MakefileUpdate, var: Seq<char>) -> Option<Seq<char>> {
    if var == "PKG_VERSION"@ {
        text::opt_text(u.pkg_version)
    } else if var == "PKG_SOURCE_VERSION"@ {
        text::opt_text(u.pkg_source_version)
    } else if var == "PKG_SOURCE_DATE"@ {
        text::opt_text(u.pkg_source_date)
    } else if var == "PKG_HASH"@ {
        text::opt_text(u.pkg_hash)
    } else {
        None
    }
}

proof fn lemma_names_are_four()
    ensures
        "PKG_VERSION"@ != "PKG_SOURCE_VERSION"@,
        "PKG_VERSION"@ != "PKG_SOURCE_DATE"@,
        "PKG_VERSION"@ != "PKG_HASH"@,
        "PKG_SOURCE_VERSION"@ != "PKG_SOURCE_DATE"@,
        "PKG_SOURCE_VERSION"@ != "PKG_HASH"@,
        "PKG_SOURCE_DATE"@ != "PKG_HASH"@,
{
    reveal_strlit("PKG_VERSION");
    reveal_strlit("PKG_SOURCE_VERSION");
    reveal_strlit("PKG_SOURCE_DATE");
    reveal_strlit("PKG_HASH");
    assert("PKG_VERSION"@.len() == 11 && "PKG_SOURCE_VERSION"@.len() == 18);
    assert("PKG_SOURCE_DATE"@.len() == 15 && "PKG_HASH"@.len() == 8);
}

/// Each of the four variables of an update is written to the line that assigns it,
/// and its name is noted; a variable that the update does not have is left.
pub proof fn law_updates_write_their_variables(
    indent: Seq<char>,
    var: Seq<char>,
    op: Seq<char>,
    blanks: Seq<char>,
    value: Seq<char>,
    u: MakefileUpdate,
)
    requires
        are_parts(indent, var, op, blanks, value),
        var == "PKG_VERSION"@ || var == "PKG_SOURCE_VERSION"@ || var == "PKG_SOURCE_DATE"@ || var
            == "PKG_HASH"@,
    ensures
        ({
            let line = assigns(indent, var, op, blanks, value);
            match value_in(u, var) {
                Some(new) => makefile_updater::updated_line(line, u) == assigns(
                    indent,
                    var,
                    op,
                    blanks,
                    new,
                ) && makefile_updater::written_var(line, u) == Some(var),
                None => makefile_updater::updated_line(line, u) == line
                    && makefile_updater::written_var(line, u) is None,
            }
        }),
{
    lemma_names_are_four();
    lemma_names_differ(var, op + blanks + value);
    lemma_assigns(indent, var, op, blanks, value);
    law_lines_take_new_values(indent, var, op, blanks, value, Seq::empty());
    if let Some(new) = value_in(u, var) {
        law_lines_take_new_values(indent, var, op, blanks, value, new);
    }
}

/// A makefile is updated line by line, and ends in a line feed if it did before.
pub proof fn law_makefiles_are_updated_by_lines(
    ls: Seq<Seq<char>>,
    one: Seq<char>,
    u: MakefileUpdate,
    content: Seq<char>,
)
    ensures
        makefile_updater::updated_lines(ls.push(one), u) == makefile_updater::updated_lines(ls, u)
            + makefile_updater::updated_line(one, u) + seq!['\n'],
        makefile_updater::updated_lines(Seq::empty(), u).len() == 0,
        content.len() > 0 && content.last() == '\n' ==> makefile_updater::updated_text(content, u)
            == makefile_updater::updated_lines(text::lines(content), u),
        content.len() > 0 && content.last() != '\n' && text::lines(content).len() > 0
            ==> makefile_updater::updated_text(content, u) + seq!['\n']
            == makefile_updater::updated_lines(text::lines(content), u),
{
    reveal_strlit("\n");
    assert("\n"@ =~= seq!['\n']);
    assert(ls.push(one).drop_last() =~= ls);
    if content.len() > 0 {
        if content.last() == '\n' {
            assert(content.subrange(content.len() - 1, content.len() as int) =~= "\n"@);
        }
        if "\n"@.is_suffix_of(content) {
            assert(content.subrange(content.len() - 1, content.len() as int)[0] == content.last());
        }
    }
    let l = text::lines(content);
    if l.len() > 0 {
        let t = makefile_updater::updated_lines(l, u);
        assert(t.last() == '\n');
        assert(t.drop_last() + seq!['\n'] =~= t);
    }
}

} // verus!

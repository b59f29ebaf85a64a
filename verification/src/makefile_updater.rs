//! New values for the variables of a makefile.

use crate::outside;
use crate::text;
use crate::text::Class;
use vstd::prelude::*;

verus! {

/// What is to be written to a makefile; a variable without a value stays.
#[derive(Debug, Clone)]
pub struct MakefileUpdate {
    /// the new PKG_VERSION
    pub pkg_version: Option<String>,
    /// the new PKG_SOURCE_VERSION
    pub pkg_source_version: Option<String>,
    /// the new PKG_SOURCE_DATE
    pub pkg_source_date: Option<String>,
    /// the new PKG_HASH
    pub pkg_hash: Option<String>,
}

impl Default for MakefileUpdate {
    /// An update that writes nothing.
    fn default() -> (r: Self)
        ensures
            r.pkg_version is None,
            r.pkg_source_version is None,
            r.pkg_source_date is None,
            r.pkg_hash is None,
    {
        MakefileUpdate {
            pkg_version: None,
            pkg_source_version: None,
            pkg_source_date: None,
            pkg_hash: None,
        }
    }
}

/// The length of the assignment operator that a text starts with, or zero.
pub open spec fn operator_length(s: Seq<char>) -> int {
    if ":="@.is_prefix_of(s) || "?="@.is_prefix_of(s) {
        2
    } else if "="@.is_prefix_of(s) {
        1
    } else {
        0
    }
}

/// What follows the operator where a line assigns a variable.
pub open spec fn after_name(line: Seq<char>, var: Seq<char>) -> Seq<char> {
    text::trim_start_of(
        text::trim_start_of(line, Class::Space).skip(var.len() as int),
        Class::Space,
    )
}

/// Whether a line assigns a variable a literal value, one without references.
pub open spec fn sets_literal(line: Seq<char>, var: Seq<char>) -> bool {
    let rest = after_name(line, var);
    let value = text::trim(rest.skip(operator_length(rest)));
    &&& var.is_prefix_of(text::trim_start_of(line, Class::Space))
    &&& operator_length(rest) > 0
    &&& !text::contains(value, "$("@)
    &&& !text::contains(value, "${"@)
}

/// A line that assigns a variable with a new value: its indentation, its
/// operator and the blanks behind the operator stay.
pub open spec fn with_value(line: Seq<char>, var: Seq<char>, new: Seq<char>) -> Seq<char> {
    let rest = after_name(line, var);
    let n = operator_length(rest);
    let blanks = text::span(rest.skip(n), Class::Space) as int;
    line.take(text::span(line, Class::Space) as int) + var + rest.take(n) + rest.skip(n).take(
        blanks,
    ) + new
}

/// A line with a new value for a variable; none where it has none to take.
pub open spec fn replaced_line(
    line: Seq<char>,
    var: Seq<char>,
    new: Option<Seq<char>>,
) -> Option<Seq<char>> {
    if new is Some && sets_literal(line, var) {
        Some(with_value(line, var, new->0))
    } else {
        None
    }
}

/// The variable that an update writes in a line, the first that the line sets.
pub open spec fn written_var(line: Seq<char>, u: MakefileUpdate) -> Option<Seq<char>> {
    if u.pkg_version is Some && sets_literal(line, "PKG_VERSION"@) {
        Some("PKG_VERSION"@)
    } else if u.pkg_source_version is Some && sets_literal(line, "PKG_SOURCE_VERSION"@) {
        Some("PKG_SOURCE_VERSION"@)
    } else if u.pkg_source_date is Some && sets_literal(line, "PKG_SOURCE_DATE"@) {
        Some("PKG_SOURCE_DATE"@)
    } else if u.pkg_hash is Some && sets_literal(line, "PKG_HASH"@) {
        Some("PKG_HASH"@)
    } else {
        None
    }
}

/// A line after an update.
pub open spec fn updated_line(line: Seq<char>, u: MakefileUpdate) -> Seq<char> {
    if u.pkg_version is Some && sets_literal(line, "PKG_VERSION"@) {
        with_value(line, "PKG_VERSION"@, u.pkg_version->0@)
    } else if u.pkg_source_version is Some && sets_literal(line, "PKG_SOURCE_VERSION"@) {
        with_value(line, "PKG_SOURCE_VERSION"@, u.pkg_source_version->0@)
    } else if u.pkg_source_date is Some && sets_literal(line, "PKG_SOURCE_DATE"@) {
        with_value(line, "PKG_SOURCE_DATE"@, u.pkg_source_date->0@)
    } else if u.pkg_hash is Some && sets_literal(line, "PKG_HASH"@) {
        with_value(line, "PKG_HASH"@, u.pkg_hash->0@)
    } else {
        line
    }
}

/// Lines after an update, each with a line feed behind it.
pub open spec fn updated_lines(ls: Seq<Seq<char>>, u: MakefileUpdate) -> Seq<char>
    decreases ls.len(),
{
    if ls.len() == 0 {
        Seq::empty()
    } else {
        updated_lines(ls.drop_last(), u) + updated_line(ls.last(), u) + "\n"@
    }
}

/// The variables that an update writes, line by line.
pub open spec fn written_vars(ls: Seq<Seq<char>>, u: MakefileUpdate) -> Seq<Seq<char>>
    decreases ls.len(),
{
    if ls.len() == 0 {
        Seq::empty()
    } else {
        match written_var(ls.last(), u) {
            Some(v) => written_vars(ls.drop_last(), u).push(v),
            None => written_vars(ls.drop_last(), u),
        }
    }
}

/// A makefile after an update.  It ends in a line feed if it did before.
pub open spec fn updated_text(content: Seq<char>, u: MakefileUpdate) -> Seq<char> {
    let t = updated_lines(text::lines(content), u);
    if t.len() > 0 && !"\n"@.is_suffix_of(content) {
        t.drop_last()
    } else {
        t
    }
}

/// A line with a new value for a variable; the variable is noted in `changed`.
fn try_replace_var(
    line: &str,
    var_name: &str,
    new_value: &Option<String>,
    changed: &mut Vec<String>,
) -> (r: Option<String>)
    ensures
        text::opt_text(r) == replaced_line(line@, var_name@, text::opt_text(*new_value)),
        text::texts(final(changed)@) == (if r is Some {
            text::texts(old(changed)@).push(var_name@)
        } else {
            text::texts(old(changed)@)
        }),
{
    broadcast use text::lemma_texts_push;

    let new = match new_value {
        Some(v) => v,
        None => {
            return None;
        },
    };
    proof {
        reveal_strlit(":=");
        reveal_strlit("?=");
        reveal_strlit("=");
    }
    let stripped = text::strip_start(line, Class::Space);
    let rest = match text::strip_prefix(&stripped, var_name) {
        Some(s) => text::strip_start(&s, Class::Space),
        None => {
            return None;
        },
    };
    let n: usize = if text::starts_with(&rest, ":=") || text::starts_with(&rest, "?=") {
        2
    } else if text::starts_with(&rest, "=") {
        1
    } else {
        return None;
    };
    let op = text::take(&rest, n);
    let after = text::skip(&rest, n);
    let value = text::trimmed(&after);
    if text::has(&value, "$(") || text::has(&value, "${") {
        return None;
    }
    changed.push(text::own(var_name));
    let mut out = text::prefix_in(line, Class::Space);
    out.append(var_name);
    out.append(op.as_str());
    out.append(text::prefix_in(&after, Class::Space).as_str());
    out.append(new.as_str());
    Some(out)
}

/// A line after an update.
fn update_line(line: &str, update: &MakefileUpdate, changed: &mut Vec<String>) -> (r: String)
    ensures
        r@ == updated_line(line@, *update),
        text::texts(final(changed)@) == (match written_var(line@, *update) {
            Some(v) => text::texts(old(changed)@).push(v),
            None => text::texts(old(changed)@),
        }),
{
    if let Some(l) = try_replace_var(line, "PKG_VERSION", &update.pkg_version, changed) {
        return l;
    }
    if let Some(l) = try_replace_var(
        line,
        "PKG_SOURCE_VERSION",
        &update.pkg_source_version,
        changed,
    ) {
        return l;
    }
    if let Some(l) = try_replace_var(line, "PKG_SOURCE_DATE", &update.pkg_source_date, changed) {
        return l;
    }
    if let Some(l) = try_replace_var(line, "PKG_HASH", &update.pkg_hash, changed) {
        return l;
    }
    text::own(line)
}

/// A makefile after an update.  The variables that it writes are noted in
/// `changed`.
pub fn apply_updates(content: &str, update: &MakefileUpdate, changed: &mut Vec<String>) -> (r:
    String)
    ensures
        r@ == updated_text(content@, *update),
        text::texts(final(changed)@) == text::texts(old(changed)@) + written_vars(
            text::lines(content@),
            *update,
        ),
{
    let ls = text::lines_of(content);
    let ghost all = text::lines(content@);
    let ghost before = text::texts(changed@);
    let mut out = text::empty();
    proof {
        assert(before + Seq::<Seq<char>>::empty() =~= before);
    }
    for i in 0..ls.len()
        invariant
            all == text::texts(ls@),
            out@ == updated_lines(all.take(i as int), *update),
            text::texts(changed@) == before + written_vars(all.take(i as int), *update),
    {
        proof {
            assert(all.take(i + 1).drop_last() =~= all.take(i as int));
        }
        let ghost was = text::texts(changed@);
        let line = update_line(ls[i].as_str(), update, changed);
        out.append(line.as_str());
        out.append("\n");
        proof {
            if let Some(v) = written_var(all[i as int], *update) {
                assert(was.push(v) =~= before + written_vars(all.take(i as int), *update).push(v));
            }
        }
    }
    proof {
        assert(all.take(ls@.len() as int) =~= all);
    }
    let n = text::length(&out);
    if n > 0 && !text::ends_with(content, "\n") {
        let r = text::take(&out, n - 1);
        assert(r@ =~= out@.drop_last());
        r
    } else {
        out
    }
}

/// The path to which a makefile is copied before it is changed.
pub fn backup_path(path: &str) -> (r: String)
    ensures
        r@ == path@ + ".bak"@,
{
    text::concat(path, ".bak")
}

// ──────────────────────────────────── laws ───────────────────────────────────

/// A variable that an update does not ask for stays: where a line sets none of
/// the variables that are asked for, it is unchanged.
pub proof fn law_other_lines_stay(line: Seq<char>, u: MakefileUpdate)
    requires
        u.pkg_version is Some ==> !sets_literal(line, "PKG_VERSION"@),
        u.pkg_source_version is Some ==> !sets_literal(line, "PKG_SOURCE_VERSION"@),
        u.pkg_source_date is Some ==> !sets_literal(line, "PKG_SOURCE_DATE"@),
        u.pkg_hash is Some ==> !sets_literal(line, "PKG_HASH"@),
    ensures
        updated_line(line, u) == line,
        written_var(line, u) is None,
{
}

/// A value that refers to other variables is not overwritten.
pub proof fn law_derived_values_stay(line: Seq<char>, var: Seq<char>, new: Option<Seq<char>>)
    requires
        ({
            let rest = after_name(line, var);
            let value = text::trim(rest.skip(operator_length(rest)));
            text::contains(value, "$("@) || text::contains(value, "${"@)
        }),
    ensures
        replaced_line(line, var, new) is None,
{
}

/// A name that a makefile can give a variable.
pub open spec fn is_variable_name(var: Seq<char>) -> bool {
    var.len() > 0 && text::all_in(var, Class::Ident) && !text::is_digit(var[0])
}

/// A text without white space at either end.
pub open spec fn is_trimmed(s: Seq<char>) -> bool {
    s.len() > 0 ==> !text::is_space(s[0]) && !text::is_space(s.last())
}

/// Trimming leaves a trimmed text as it is.
pub proof fn lemma_trimmed(s: Seq<char>)
    requires
        is_trimmed(s),
    ensures
        text::trim(s) == s,
{
    text::lemma_span_is(s, Class::Space, 0);
    assert(s.skip(0) =~= s);
    text::lemma_span_back_is(s, Class::Space, 0);
    assert(s.take(s.len() as int) =~= s);
}

/// The operator that an assignment starts with is `=`, `:=` or `?=`.
pub proof fn lemma_operator(rest: Seq<char>)
    ensures
        ({
            let n = operator_length(rest);
            &&& 0 <= n <= rest.len()
            &&& n == 1 ==> rest[0] == '='
            &&& n == 2 ==> (rest[0] == ':' || rest[0] == '?') && rest[1] == '='
        }),
{
    reveal_strlit(":=");
    reveal_strlit("?=");
    reveal_strlit("=");
    if ":="@.is_prefix_of(rest) {
        assert(rest[0] == rest.subrange(0, 2)[0]);
        assert(rest[1] == rest.subrange(0, 2)[1]);
    } else if "?="@.is_prefix_of(rest) {
        assert(rest[0] == rest.subrange(0, 2)[0]);
        assert(rest[1] == rest.subrange(0, 2)[1]);
    } else if "="@.is_prefix_of(rest) {
        assert(rest[0] == rest.subrange(0, 1)[0]);
    }
}

/// What an assignment of a trimmed value says, whatever blanks stand before the
/// value.
pub proof fn lemma_assignment(
    var: Seq<char>,
    op: Seq<char>,
    blanks: Seq<char>,
    new: Seq<char>,
    line: Seq<char>,
)
    requires
        is_variable_name(var),
        op == seq!['='] || op == seq![':', '='] || op == seq!['?', '='],
        text::all_in(blanks, Class::Space),
        is_trimmed(new),
        new.len() == 0 ==> blanks.len() == 0,
        line == var + op + blanks + new,
    ensures
        outside::assignment(line) == Some(seq![Some(line), Some(var), Some(op), Some(new)]),
{
    let n = var.len() as int;
    assert forall|j: int| 0 <= j < n implies Class::Ident.has(#[trigger] line[j]) by {
        assert(line[j] == var[j]);
    }
    assert(line[n] == op[0]);
    text::lemma_span_is(line, Class::Ident, n);
    let rest = line.skip(n);
    assert(rest =~= op + blanks + new);
    assert(rest[0] == op[0]);
    text::lemma_span_is(rest, Class::Space, 0);
    assert(rest.skip(0) =~= rest);
    let k = op.len() as int;
    assert(k == 2 ==> rest[1] == op[1]);
    assert(line.take(n) =~= var);
    assert(rest.take(k) =~= op);
    let tail = rest.skip(k);
    assert(tail =~= blanks + new);
    assert forall|j: int| 0 <= j < blanks.len() implies Class::Space.has(#[trigger] tail[j]) by {
        assert(tail[j] == blanks[j]);
    }
    assert(new.len() > 0 ==> tail[blanks.len() as int] == new[0]);
    text::lemma_span_is(tail, Class::Space, blanks.len() as int);
    assert(tail.skip(blanks.len() as int) =~= new);
    assert(line[0] == var[0]);
}

/// What a line with a new value assigns, and how.
pub proof fn lemma_written_assignment(line: Seq<char>, var: Seq<char>, new: Seq<char>)
    requires
        is_variable_name(var),
        sets_literal(line, var),
        is_trimmed(new),
    ensures
        ({
            let g = outside::assignment(text::trim(with_value(line, var, new)));
            let rest = after_name(line, var);
            &&& g is Some
            &&& outside::group(g->0, 1) == var
            &&& outside::group(g->0, 2) == rest.take(operator_length(rest))
            &&& outside::group(g->0, 3) == new
        }),
{
    let rest = after_name(line, var);
    let n = operator_length(rest);
    lemma_operator(rest);
    let op = rest.take(n);
    assert(n == 1 ==> op =~= seq!['=']);
    assert(n == 2 ==> op =~= seq![rest[0], '=']);
    let tail = rest.skip(n);
    text::lemma_span(tail, Class::Space);
    let b = text::span(tail, Class::Space) as int;
    let blanks = tail.take(b);
    assert forall|j: int| 0 <= j < blanks.len() implies Class::Space.has(#[trigger] blanks[j]) by {
        assert(blanks[j] == tail[j]);
    }
    text::lemma_span(line, Class::Space);
    let i = text::span(line, Class::Space) as int;
    let indent = line.take(i);
    let l = with_value(line, var, new);
    let m = var + op + blanks + new;
    assert(l =~= indent + m);
    assert forall|j: int| 0 <= j < i implies Class::Space.has(#[trigger] l[j]) by {
        assert(l[j] == line[j]);
    }
    assert(Class::Ident.has(var[0]));
    assert(l[i] == var[0]);
    text::lemma_span_is(l, Class::Space, i);
    assert(l.skip(i) =~= m);
    lemma_trimmed(new);
    if new.len() > 0 {
        assert(m.last() == new.last());
        text::lemma_span_back_is(m, Class::Space, 0);
        assert(m.take(m.len() as int) =~= m);
        lemma_assignment(var, op, blanks, new, m);
    } else {
        let t = var + op;
        assert forall|j: int| m.len() - b <= j < m.len() implies Class::Space.has(
            #[trigger] m[j],
        ) by {
            assert(m[j] == blanks[j - t.len()]);
        }
        assert(m[m.len() - b - 1] == op.last());
        text::lemma_span_back_is(m, Class::Space, b);
        assert(m.take(m.len() - b) =~= t);
        assert(t =~= var + op + Seq::<char>::empty() + new);
        lemma_assignment(var, op, Seq::empty(), new, t);
    }
}

/// A value that is written to a line is what is read back from it: the line
/// assigns the variable that value.
pub proof fn law_written_value_reads_back(line: Seq<char>, var: Seq<char>, new: Seq<char>)
    requires
        is_variable_name(var),
        sets_literal(line, var),
        is_trimmed(new),
    ensures
        ({
            let g = outside::assignment(text::trim(with_value(line, var, new)));
            &&& g is Some
            &&& outside::group(g->0, 1) == var
            &&& text::trim(outside::group(g->0, 3)) == new
        }),
{
    lemma_written_assignment(line, var, new);
    lemma_trimmed(new);
}

/// An update that asks for nothing writes nothing: the lines stay as they are.
pub proof fn law_update_without_values_keeps_lines(ls: Seq<Seq<char>>, u: MakefileUpdate)
    requires
        u.pkg_version is None,
        u.pkg_source_version is None,
        u.pkg_source_date is None,
        u.pkg_hash is None,
    ensures
        written_vars(ls, u).len() == 0,
        ls.len() > 0 ==> updated_lines(ls, u) == text::join(ls, "\n"@) + "\n"@,
    decreases ls.len(),
{
    if ls.len() > 0 {
        law_update_without_values_keeps_lines(ls.drop_last(), u);
        if ls.len() == 1 {
            assert(updated_lines(ls.drop_last(), u) + ls.last() + "\n"@ =~= ls[0] + "\n"@);
        }
    }
}

} // verus!

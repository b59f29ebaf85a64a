//! Expansion of make expressions: variable references and the built-in
//! functions of make.

use crate::text;
use crate::text::Class;
use crate::vars;
use crate::vars::VarMap;
use vstd::prelude::*;

verus! {

// ─────────────────────────────── word functions ──────────────────────────────

/// The directory part of a word, with its slash, or `./`.
pub open spec fn dir_part(w: Seq<char>) -> Seq<char> {
    match text::rfind(w, "/"@) {
        Some(p) => w.take(p + 1),
        None => "./"@,
    }
}

/// What follows the last slash of a word.
pub open spec fn file_part(w: Seq<char>) -> Seq<char> {
    match text::rfind(w, "/"@) {
        Some(p) => w.skip(p + 1),
        None => w,
    }
}

/// A word without its last dot and what follows it.
pub open spec fn stem_part(w: Seq<char>) -> Seq<char> {
    match text::rfind(w, "."@) {
        Some(p) => w.take(p),
        None => w,
    }
}

/// Whether a word matches a pattern, in which the first `%` stands for any text.
pub open spec fn matches_pattern(w: Seq<char>, pat: Seq<char>) -> bool {
    match text::find(pat, "%"@) {
        Some(p) => pat.take(p).is_prefix_of(w) && pat.skip(p + 1).is_suffix_of(w) && w.len()
            >= pat.len() - 1,
        None => w == pat,
    }
}

/// A word after `patsubst`: where it matches, the replacement with every `%`
/// turned into what the pattern's `%` stood for.
pub open spec fn patsubst(w: Seq<char>, pat: Seq<char>, rep: Seq<char>) -> Seq<char> {
    if !matches_pattern(w, pat) {
        w
    } else {
        match text::find(pat, "%"@) {
            Some(p) => text::replace(rep, "%"@, w.subrange(p, w.len() - (pat.len() - p - 1))),
            None => rep,
        }
    }
}

/// A word after a substitution reference: the suffix `pat` becomes `rep`.
pub open spec fn resuffix(w: Seq<char>, pat: Seq<char>, rep: Seq<char>) -> Seq<char> {
    if pat.is_suffix_of(w) {
        w.take(w.len() - pat.len()) + rep
    } else {
        w
    }
}

/// Every word turned into its directory part.
pub open spec fn dirs(ws: Seq<Seq<char>>) -> Seq<Seq<char>> {
    Seq::new(ws.len(), |i: int| dir_part(ws[i]))
}

/// Every word turned into its file part.
pub open spec fn files(ws: Seq<Seq<char>>) -> Seq<Seq<char>> {
    Seq::new(ws.len(), |i: int| file_part(ws[i]))
}

/// Every word turned into its stem.
pub open spec fn stems(ws: Seq<Seq<char>>) -> Seq<Seq<char>> {
    Seq::new(ws.len(), |i: int| stem_part(ws[i]))
}

/// Every word between a prefix and a suffix.
pub open spec fn affixed(ws: Seq<Seq<char>>, pre: Seq<char>, suf: Seq<char>) -> Seq<Seq<char>> {
    Seq::new(ws.len(), |i: int| pre + ws[i] + suf)
}

/// Every word after `patsubst`.
pub open spec fn patsubsts(ws: Seq<Seq<char>>, pat: Seq<char>, rep: Seq<char>) -> Seq<Seq<char>> {
    Seq::new(ws.len(), |i: int| patsubst(ws[i], pat, rep))
}

/// Every word after a substitution reference.
pub open spec fn resuffixes(ws: Seq<Seq<char>>, pat: Seq<char>, rep: Seq<char>) -> Seq<Seq<char>> {
    Seq::new(ws.len(), |i: int| resuffix(ws[i], pat, rep))
}

/// The words of two lists put together pairwise; a missing word is empty.
pub open spec fn paired(a: Seq<Seq<char>>, b: Seq<Seq<char>>) -> Seq<Seq<char>> {
    Seq::new(
        if a.len() > b.len() {
            a.len()
        } else {
            b.len()
        },
        |i: int| word_at(a, i) + word_at(b, i),
    )
}

/// The word at a position, or nothing where there is none.
pub open spec fn word_at(ws: Seq<Seq<char>>, i: int) -> Seq<char> {
    if 0 <= i < ws.len() {
        ws[i]
    } else {
        Seq::empty()
    }
}

/// The word at the position that a text writes, counted from one; the first one
/// where the text writes zero or no number.
pub open spec fn nth_word(at: Seq<char>, ws: Seq<Seq<char>>) -> Seq<char> {
    match text::parse_uint(text::trim(at), usize::MAX as nat) {
        Some(n) => word_at(
            ws,
            if n == 0 {
                0
            } else {
                n - 1
            },
        ),
        None => word_at(ws, 0),
    }
}

/// The words from one position to another that texts write, both counted from
/// one; from the first one where `from` writes no number, none where `to` writes
/// none.
pub open spec fn words_between(from: Seq<char>, to: Seq<char>, ws: Seq<Seq<char>>) -> Seq<
    Seq<char>,
> {
    let start = match text::parse_uint(text::trim(from), usize::MAX as nat) {
        Some(n) => n,
        None => 1,
    };
    let end = match text::parse_uint(text::trim(to), usize::MAX as nat) {
        Some(n) => n,
        None => 0,
    };
    let lo: int = if start == 0 {
        0
    } else {
        start - 1
    };
    let hi: int = if end <= ws.len() {
        end as int
    } else {
        ws.len() as int
    };
    if lo < hi {
        ws.subrange(lo, hi)
    } else {
        Seq::empty()
    }
}

/// The suffixes of the words that have one, with their dot.
pub open spec fn suffixes(ws: Seq<Seq<char>>) -> Seq<Seq<char>>
    decreases ws.len(),
{
    if ws.len() == 0 {
        Seq::empty()
    } else {
        match text::rfind(ws.last(), "."@) {
            Some(p) => suffixes(ws.drop_last()).push(ws.last().skip(p)),
            None => suffixes(ws.drop_last()),
        }
    }
}

/// Whether a word matches one of the patterns.
pub open spec fn matches_any(w: Seq<char>, pats: Seq<Seq<char>>) -> bool {
    exists|i: int| 0 <= i < pats.len() && matches_pattern(w, #[trigger] pats[i])
}

/// The words that match one of the patterns, or with `invert` those that match
/// none.
pub open spec fn filtered(ws: Seq<Seq<char>>, pats: Seq<Seq<char>>, invert: bool) -> Seq<Seq<char>>
    decreases ws.len(),
{
    if ws.len() == 0 {
        Seq::empty()
    } else if matches_any(ws.last(), pats) != invert {
        filtered(ws.drop_last(), pats, invert).push(ws.last())
    } else {
        filtered(ws.drop_last(), pats, invert)
    }
}

/// Whether a text comes before another: by their first differing character, or
/// as a proper prefix.
pub open spec fn precedes(a: Seq<char>, b: Seq<char>) -> bool
    decreases a.len(),
{
    if b.len() == 0 {
        false
    } else if a.len() == 0 {
        true
    } else if a[0] != b[0] {
        a[0] < b[0]
    } else {
        precedes(a.skip(1), b.skip(1))
    }
}

/// How many words of a list come before a word.
pub open spec fn rank(ws: Seq<Seq<char>>, w: Seq<char>) -> nat
    decreases ws.len(),
{
    if ws.len() > 0 && precedes(ws[0], w) {
        1 + rank(ws.skip(1), w)
    } else {
        0
    }
}

/// A list in order with a word put in its place, unless it is there already.
pub open spec fn put_in_order(ws: Seq<Seq<char>>, w: Seq<char>) -> Seq<Seq<char>> {
    let n = rank(ws, w) as int;
    if n < ws.len() && ws[n] == w {
        ws
    } else {
        ws.take(n) + seq![w] + ws.skip(n)
    }
}

/// The words in order, each once.
pub open spec fn in_order(ws: Seq<Seq<char>>) -> Seq<Seq<char>>
    decreases ws.len(),
{
    if ws.len() == 0 {
        Seq::empty()
    } else {
        put_in_order(in_order(ws.drop_last()), ws.last())
    }
}

// ────────────────────────────────── arguments ────────────────────────────────

/// The first comma from `i` on that stands outside brackets, where `level`
/// brackets are open at `i`.
pub open spec fn comma_from(s: Seq<char>, i: int, level: int) -> Option<int>
    decreases s.len() - i,
{
    if i >= s.len() {
        None
    } else if s[i] == '(' || s[i] == '{' {
        comma_from(s, i + 1, level + 1)
    } else if s[i] == ')' || s[i] == '}' {
        comma_from(s, i + 1, level - 1)
    } else if s[i] == ',' && level == 0 {
        Some(i)
    } else {
        comma_from(s, i + 1, level)
    }
}

/// The first argument: what stands before the first outer comma.
pub open spec fn first_arg(s: Seq<char>) -> Seq<char> {
    match comma_from(s, 0, 0) {
        Some(i) => s.take(i),
        None => s,
    }
}

/// The other arguments: what stands after the first outer comma.
pub open spec fn other_args(s: Seq<char>) -> Seq<char> {
    match comma_from(s, 0, 0) {
        Some(i) => s.skip(i + 1),
        None => Seq::empty(),
    }
}

/// The position of the bracket that closes, from `i` on, where `level` brackets
/// of the kind are open at `i`.
pub open spec fn closing(s: Seq<char>, i: int, open: char, close: char, level: int) -> Option<int>
    decreases s.len() - i,
{
    if i >= s.len() {
        None
    } else if s[i] == close {
        if level == 1 {
            Some(i)
        } else {
            closing(s, i + 1, open, close, level - 1)
        }
    } else if s[i] == open {
        closing(s, i + 1, open, close, level + 1)
    } else {
        closing(s, i + 1, open, close, level)
    }
}

/// The end of the reference `$(..)` or `${..}` that the text starts with.
pub open spec fn reference_end(s: Seq<char>) -> Option<int> {
    if s.len() < 2 || s[0] != '$' {
        None
    } else if s[1] == '(' {
        closing(s, 2, '(', ')', 1)
    } else if s[1] == '{' {
        closing(s, 2, '{', '}', 1)
    } else {
        None
    }
}

// ────────────────────────────────── expansion ────────────────────────────────

/// The most calls that an expansion nests.
pub const MAX_DEPTH: usize = 32;

/// The most times that an expression is passed over.
pub const MAX_PASSES: usize = 10;

/// A make expression with its references and function calls worked out.
pub open spec fn expand(s: Seq<char>, m: Map<Seq<char>, Seq<char>>) -> Seq<char> {
    expand_at(s, m, 0)
}

/// The expansion of an expression inside `depth` nested calls.  Beyond the
/// deepest nesting it is left as it is.  One `?` at the end is dropped.
pub open spec fn expand_at(s: Seq<char>, m: Map<Seq<char>, Seq<char>>, depth: nat) -> Seq<char>
    decreases 34 - depth, 3int, 0int,
{
    if depth > MAX_DEPTH {
        s
    } else {
        let t = passes(s, m, depth, MAX_PASSES as nat);
        if t.len() > 0 && t.last() == '?' {
            t.drop_last()
        } else {
            t
        }
    }
}

/// The text after at most `n` passes, which end when one changes nothing.
pub open spec fn passes(
    s: Seq<char>,
    m: Map<Seq<char>, Seq<char>>,
    depth: nat,
    n: nat,
) -> Seq<char>
    decreases 34 - depth, 2int, n,
{
    if n == 0 || depth > MAX_DEPTH {
        s
    } else {
        let t = pass(s, m, depth);
        if t == s {
            s
        } else {
            passes(t, m, depth, (n - 1) as nat)
        }
    }
}

/// The text after one pass from left to right: each closed reference gives way
/// to its value, `$$` to `$`; other characters stay.
pub open spec fn pass(s: Seq<char>, m: Map<Seq<char>, Seq<char>>, depth: nat) -> Seq<char>
    decreases 34 - depth, 1int, s.len(),
{
    if s.len() == 0 || depth > MAX_DEPTH {
        Seq::empty()
    } else {
        match reference_end(s) {
            Some(j) => if 2 <= j < s.len() {
                evaluate(s.subrange(2, j), m, depth + 1) + pass(s.skip(j + 1), m, depth)
            } else {
                Seq::empty()
            },
            None => if s.len() >= 2 && s[0] == '$' && s[1] == '$' {
                seq!['$'] + pass(s.skip(2), m, depth)
            } else {
                seq![s[0]] + pass(s.skip(1), m, depth)
            },
        }
    }
}

/// The value of what stands between the brackets of a reference: a function
/// call where there is a blank or a tab, else a variable.
pub open spec fn evaluate(
    inner: Seq<char>,
    m: Map<Seq<char>, Seq<char>>,
    depth: nat,
) -> Seq<char>
    decreases 34 - depth, 6int, 0int,
{
    let t = text::trim(inner);
    let n = text::span(t, Class::Neither(' ', '\t'));
    if n < t.len() {
        call(text::trim(t.take(n as int)), text::trim(t.skip(n as int)), m, depth)
    } else {
        variable(t, m, depth)
    }
}

/// The value of a variable reference, which may end in `:suffix=replacement`.
/// A reference to a variable that is not there stays as it is.
pub open spec fn variable(name: Seq<char>, m: Map<Seq<char>, Seq<char>>, depth: nat) -> Seq<char>
    decreases 34 - depth, 5int, 0int,
{
    let plain = match vars::lookup(m, name) {
        Some(v) => expand_at(v, m, depth),
        None => "$("@ + name + ")"@,
    };
    match text::find(name, ":"@) {
        Some(c) => {
            let change = name.skip(c + 1);
            match (text::find(change, "="@), vars::lookup(m, text::trim(name.take(c)))) {
                (Some(e), Some(v)) => text::join(
                    resuffixes(
                        text::words(expand_at(v, m, depth)),
                        change.take(e),
                        change.skip(e + 1),
                    ),
                    " "@,
                ),
                _ => plain,
            }
        },
        None => plain,
    }
}

/// The value of a function call.  The functions that tell something to the user
/// or of a variable give nothing.  A call of a function that is not known, of
/// `shell` among them, stays as it is.
pub open spec fn call(
    func: Seq<char>,
    rest: Seq<char>,
    m: Map<Seq<char>, Seq<char>>,
    depth: nat,
) -> Seq<char>
    decreases 34 - depth, 5int, 0int,
{
    let a = first_arg(rest);
    let b = other_args(rest);
    let all = text::words(expand_at(rest, m, depth));
    let head = expand_at(text::trim(a), m, depth);
    let list = text::words(expand_at(text::trim(b), m, depth));
    if func == "subst"@ {
        text::replace(
            expand_at(text::trim(other_args(b)), m, depth),
            head,
            expand_at(first_arg(b), m, depth),
        )
    } else if func == "patsubst"@ {
        text::join(
            patsubsts(
                text::words(expand_at(text::trim(other_args(b)), m, depth)),
                head,
                expand_at(text::trim(first_arg(b)), m, depth),
            ),
            " "@,
        )
    } else if func == "strip"@ {
        text::join(all, " "@)
    } else if func == "findstring"@ {
        if text::contains(expand_at(text::trim(b), m, depth), head) {
            head
        } else {
            Seq::empty()
        }
    } else if func == "filter"@ {
        text::join(filtered(list, text::words(head), false), " "@)
    } else if func == "filter-out"@ {
        text::join(filtered(list, text::words(head), true), " "@)
    } else if func == "sort"@ {
        text::join(in_order(all), " "@)
    } else if func == "word"@ {
        nth_word(head, list)
    } else if func == "words"@ {
        text::decimal(all.len())
    } else if func == "wordlist"@ {
        text::join(
            words_between(
                head,
                expand_at(text::trim(first_arg(b)), m, depth),
                text::words(expand_at(text::trim(other_args(b)), m, depth)),
            ),
            " "@,
        )
    } else if func == "firstword"@ {
        word_at(all, 0)
    } else if func == "lastword"@ {
        word_at(all, all.len() - 1)
    } else if func == "dir"@ {
        text::join(dirs(all), " "@)
    } else if func == "notdir"@ {
        text::join(files(all), " "@)
    } else if func == "suffix"@ {
        text::join(suffixes(all), " "@)
    } else if func == "basename"@ {
        text::join(stems(all), " "@)
    } else if func == "addsuffix"@ {
        text::join(affixed(list, Seq::empty(), head), " "@)
    } else if func == "addprefix"@ {
        text::join(affixed(list, head, Seq::empty()), " "@)
    } else if func == "join"@ {
        text::join(paired(text::words(head), list), " "@)
    } else if func == "if"@ {
        if text::trim(expand_at(a, m, depth)).len() > 0 {
            expand_at(first_arg(b), m, depth)
        } else {
            expand_at(other_args(b), m, depth)
        }
    } else if func == "or"@ {
        any_of(rest, m, depth)
    } else if func == "and"@ {
        all_of(rest, m, depth)
    } else if func == "call"@ {
        let name = text::trim(expand_at(text::trim(text::before(rest, ","@)), m, depth));
        match vars::lookup(m, name) {
            Some(v) => expand_at(v, m, depth),
            None => Seq::empty(),
        }
    } else if func == "value"@ {
        vars::value_of(m, text::trim(expand_at(rest, m, depth)))
    } else if func == "origin"@ || func == "flavor"@ || func == "info"@ || func == "warning"@
        || func == "error"@ {
        Seq::empty()
    } else {
        "$("@ + func + " "@ + rest + ")"@
    }
}

/// The first argument that is not blank when expanded, or nothing.
pub open spec fn any_of(args: Seq<char>, m: Map<Seq<char>, Seq<char>>, depth: nat) -> Seq<char>
    decreases 34 - depth, 4int, args.len(),
{
    let v = expand_at(first_arg(args), m, depth);
    let rest = other_args(args);
    if text::trim(v).len() > 0 {
        v
    } else if rest.len() == 0 || rest.len() >= args.len() {
        Seq::empty()
    } else {
        any_of(rest, m, depth)
    }
}

/// The last argument if none is blank when expanded, else nothing.
pub open spec fn all_of(args: Seq<char>, m: Map<Seq<char>, Seq<char>>, depth: nat) -> Seq<char>
    decreases 34 - depth, 4int, args.len(),
{
    let v = expand_at(first_arg(args), m, depth);
    let rest = other_args(args);
    if text::trim(v).len() == 0 {
        Seq::empty()
    } else if rest.len() == 0 || rest.len() >= args.len() {
        v
    } else {
        all_of(rest, m, depth)
    }
}

// ───────────────────────── word functions, executable ────────────────────────

/// The directory part of a word.
fn dir_of(w: &str) -> (r: String)
    ensures
        r@ == dir_part(w@),
{
    proof {
        reveal_strlit("/");
    }
    match text::rfind_str(w, "/") {
        Some(p) => text::take(w, p + 1),
        None => text::own("./"),
    }
}

/// The file part of a word.
fn file_of(w: &str) -> (r: String)
    ensures
        r@ == file_part(w@),
{
    proof {
        reveal_strlit("/");
    }
    match text::rfind_str(w, "/") {
        Some(p) => text::skip(w, p + 1),
        None => text::own(w),
    }
}

/// The stem of a word.
fn stem_of(w: &str) -> (r: String)
    ensures
        r@ == stem_part(w@),
{
    match text::rfind_str(w, ".") {
        Some(p) => text::take(w, p),
        None => text::own(w),
    }
}

/// Whether a word matches a pattern.
fn word_matches_pattern(word: &str, pat: &str) -> (r: bool)
    ensures
        r == matches_pattern(word@, pat@),
{
    proof {
        reveal_strlit("%");
    }
    match text::find_str(pat, "%") {
        Some(p) => {
            let prefix = text::take(pat, p);
            let suffix = text::skip(pat, p + 1);
            text::starts_with(word, &prefix) && text::ends_with(word, &suffix) && text::length(word)
                >= text::length(pat) - 1
        },
        None => text::same(word, pat),
    }
}

/// A word after `patsubst`.
fn patsubst_word(word: &str, pat: &str, rep: &str) -> (r: String)
    ensures
        r@ == patsubst(word@, pat@, rep@),
{
    proof {
        reveal_strlit("%");
    }
    if !word_matches_pattern(word, pat) {
        return text::own(word);
    }
    match text::find_str(pat, "%") {
        Some(p) => {
            let after = text::length(pat) - p - 1;
            let stem = text::slice(word, p, text::length(word) - after);
            text::replaced(rep, "%", &stem)
        },
        None => text::own(rep),
    }
}

/// A word after a substitution reference.
fn resuffix_word(w: &str, pat: &str, rep: &str) -> (r: String)
    ensures
        r@ == resuffix(w@, pat@, rep@),
{
    if text::ends_with(w, pat) {
        let stem = text::take(w, text::length(w) - text::length(pat));
        text::concat(&stem, rep)
    } else {
        text::own(w)
    }
}

/// Every word turned into its directory part.
fn dirs_of(ws: &Vec<String>) -> (r: Vec<String>)
    ensures
        text::texts(r@) == dirs(text::texts(ws@)),
{
    let mut out: Vec<String> = Vec::new();
    for i in 0..ws.len()
        invariant
            out@.len() == i,
            forall|j: int| 0 <= j < i ==> (#[trigger] out@[j])@ == dir_part(ws@[j]@),
    {
        out.push(dir_of(ws[i].as_str()));
    }
    assert(text::texts(out@) =~= dirs(text::texts(ws@)));
    out
}

/// Every word turned into its file part.
fn files_of(ws: &Vec<String>) -> (r: Vec<String>)
    ensures
        text::texts(r@) == files(text::texts(ws@)),
{
    let mut out: Vec<String> = Vec::new();
    for i in 0..ws.len()
        invariant
            out@.len() == i,
            forall|j: int| 0 <= j < i ==> (#[trigger] out@[j])@ == file_part(ws@[j]@),
    {
        out.push(file_of(ws[i].as_str()));
    }
    assert(text::texts(out@) =~= files(text::texts(ws@)));
    out
}

/// Every word turned into its stem.
fn stems_of(ws: &Vec<String>) -> (r: Vec<String>)
    ensures
        text::texts(r@) == stems(text::texts(ws@)),
{
    let mut out: Vec<String> = Vec::new();
    for i in 0..ws.len()
        invariant
            out@.len() == i,
            forall|j: int| 0 <= j < i ==> (#[trigger] out@[j])@ == stem_part(ws@[j]@),
    {
        out.push(stem_of(ws[i].as_str()));
    }
    assert(text::texts(out@) =~= stems(text::texts(ws@)));
    out
}

/// Every word between a prefix and a suffix.
fn affix_all(ws: &Vec<String>, pre: &str, suf: &str) -> (r: Vec<String>)
    ensures
        text::texts(r@) == affixed(text::texts(ws@), pre@, suf@),
{
    let mut out: Vec<String> = Vec::new();
    for i in 0..ws.len()
        invariant
            out@.len() == i,
            forall|j: int| 0 <= j < i ==> (#[trigger] out@[j])@ == pre@ + ws@[j]@ + suf@,
    {
        out.push(text::concat3(pre, ws[i].as_str(), suf));
    }
    assert(text::texts(out@) =~= affixed(text::texts(ws@), pre@, suf@));
    out
}

/// Every word after `patsubst`.
fn patsubst_all(ws: &Vec<String>, pat: &str, rep: &str) -> (r: Vec<String>)
    ensures
        text::texts(r@) == patsubsts(text::texts(ws@), pat@, rep@),
{
    let mut out: Vec<String> = Vec::new();
    for i in 0..ws.len()
        invariant
            out@.len() == i,
            forall|j: int| 0 <= j < i ==> (#[trigger] out@[j])@ == patsubst(ws@[j]@, pat@, rep@),
    {
        out.push(patsubst_word(ws[i].as_str(), pat, rep));
    }
    assert(text::texts(out@) =~= patsubsts(text::texts(ws@), pat@, rep@));
    out
}

/// Every word after a substitution reference.
fn resuffix_all(ws: &Vec<String>, pat: &str, rep: &str) -> (r: Vec<String>)
    ensures
        text::texts(r@) == resuffixes(text::texts(ws@), pat@, rep@),
{
    let mut out: Vec<String> = Vec::new();
    for i in 0..ws.len()
        invariant
            out@.len() == i,
            forall|j: int| 0 <= j < i ==> (#[trigger] out@[j])@ == resuffix(ws@[j]@, pat@, rep@),
    {
        out.push(resuffix_word(ws[i].as_str(), pat, rep));
    }
    assert(text::texts(out@) =~= resuffixes(text::texts(ws@), pat@, rep@));
    out
}

/// The word at a position, or nothing where there is none.
fn word_or_empty(ws: &Vec<String>, i: usize) -> (r: String)
    ensures
        r@ == word_at(text::texts(ws@), i as int),
{
    if i < ws.len() {
        ws[i].clone()
    } else {
        let r = String::new();
        assert(r@ =~= Seq::<char>::empty());
        r
    }
}

/// The words of two lists put together pairwise.
fn pair_up(a: &Vec<String>, b: &Vec<String>) -> (r: Vec<String>)
    ensures
        text::texts(r@) == paired(text::texts(a@), text::texts(b@)),
{
    let len = if a.len() > b.len() {
        a.len()
    } else {
        b.len()
    };
    let mut out: Vec<String> = Vec::new();
    for i in 0..len
        invariant
            out@.len() == i,
            forall|j: int|
                0 <= j < i ==> (#[trigger] out@[j])@ == word_at(text::texts(a@), j) + word_at(
                    text::texts(b@),
                    j,
                ),
    {
        let x = word_or_empty(a, i);
        let y = word_or_empty(b, i);
        out.push(text::concat(&x, &y));
    }
    assert(text::texts(out@) =~= paired(text::texts(a@), text::texts(b@)));
    out
}

/// The suffixes of the words that have one.
fn suffixes_of(ws: &Vec<String>) -> (r: Vec<String>)
    ensures
        text::texts(r@) == suffixes(text::texts(ws@)),
{
    broadcast use text::lemma_texts_push;

    let ghost all = text::texts(ws@);
    let mut out: Vec<String> = Vec::new();
    proof {
        assert(text::texts(out@) =~= Seq::<Seq<char>>::empty());
    }
    for i in 0..ws.len()
        invariant
            all == text::texts(ws@),
            text::texts(out@) == suffixes(all.take(i as int)),
    {
        proof {
            assert(all.take(i + 1).drop_last() =~= all.take(i as int));
        }
        let w = ws[i].as_str();
        if let Some(p) = text::rfind_str(w, ".") {
            out.push(text::skip(w, p));
        }
    }
    proof {
        assert(all.take(ws@.len() as int) =~= all);
    }
    out
}

/// The words that match one of the patterns, or with `invert` those that match
/// none.
fn filter_words(ws: &Vec<String>, pats: &Vec<String>, invert: bool) -> (r: Vec<String>)
    ensures
        text::texts(r@) == filtered(text::texts(ws@), text::texts(pats@), invert),
{
    broadcast use text::lemma_texts_push;

    let ghost all = text::texts(ws@);
    let ghost ps = text::texts(pats@);
    let mut out: Vec<String> = Vec::new();
    proof {
        assert(text::texts(out@) =~= Seq::<Seq<char>>::empty());
    }
    for i in 0..ws.len()
        invariant
            all == text::texts(ws@),
            ps == text::texts(pats@),
            text::texts(out@) == filtered(all.take(i as int), ps, invert),
    {
        proof {
            assert(all.take(i + 1).drop_last() =~= all.take(i as int));
        }
        let mut matched = false;
        for j in 0..pats.len()
            invariant
                i < ws@.len(),
                ps == text::texts(pats@),
                matched == exists|q: int|
                    0 <= q < j && matches_pattern(ws@[i as int]@, #[trigger] ps[q]),
        {
            if word_matches_pattern(ws[i].as_str(), pats[j].as_str()) {
                assert(matches_pattern(ws@[i as int]@, ps[j as int]));
                matched = true;
            }
        }
        if matched != invert {
            out.push(ws[i].clone());
        }
    }
    proof {
        assert(all.take(ws@.len() as int) =~= all);
    }
    out
}

/// Whether a text comes before another.
fn comes_before(a: &str, b: &str) -> (r: bool)
    ensures
        r == precedes(a@, b@),
{
    let x = text::to_chars(a);
    let y = text::to_chars(b);
    let mut i: usize = 0;
    proof {
        assert(x@.skip(0) =~= x@);
        assert(y@.skip(0) =~= y@);
    }
    loop
        invariant
            i <= x@.len(),
            i <= y@.len(),
            precedes(x@.skip(i as int), y@.skip(i as int)) == precedes(a@, b@),
        decreases x@.len() - i,
    {
        if i == y.len() {
            return false;
        }
        if i == x.len() {
            return true;
        }
        if x[i] != y[i] {
            return x[i] < y[i];
        }
        proof {
            assert(x@.skip(i as int).skip(1) =~= x@.skip(i + 1));
            assert(y@.skip(i as int).skip(1) =~= y@.skip(i + 1));
        }
        i = i + 1;
    }
}

/// How many words of a list come before a word.
fn rank_of(ws: &Vec<String>, w: &str) -> (r: usize)
    ensures
        r == rank(text::texts(ws@), w@),
        r <= ws@.len(),
{
    let ghost all = text::texts(ws@);
    let mut i: usize = 0;
    proof {
        assert(all.skip(0) =~= all);
    }
    while i < ws.len()
        invariant
            all == text::texts(ws@),
            i <= ws@.len(),
            i + rank(all.skip(i as int), w@) == rank(all, w@),
        decreases ws@.len() - i,
    {
        proof {
            assert(all.skip(i as int).skip(1) =~= all.skip(i + 1));
        }
        if !comes_before(ws[i].as_str(), w) {
            return i;
        }
        i = i + 1;
    }
    i
}

/// The words in order, each once.
fn sort_words(ws: &Vec<String>) -> (r: Vec<String>)
    ensures
        text::texts(r@) == in_order(text::texts(ws@)),
{
    let ghost all = text::texts(ws@);
    let mut out: Vec<String> = Vec::new();
    proof {
        assert(text::texts(out@) =~= Seq::<Seq<char>>::empty());
    }
    for i in 0..ws.len()
        invariant
            all == text::texts(ws@),
            text::texts(out@) == in_order(all.take(i as int)),
    {
        proof {
            assert(all.take(i + 1).drop_last() =~= all.take(i as int));
        }
        let n = rank_of(&out, ws[i].as_str());
        if n < out.len() && text::same(out[n].as_str(), ws[i].as_str()) {
            assert(text::texts(out@)[n as int] == all[i as int]);
        } else {
            let ghost was = text::texts(out@);
            out.insert(n, ws[i].clone());
            assert(text::texts(out@) =~= was.take(n as int) + seq![all[i as int]] + was.skip(
                n as int,
            ));
        }
    }
    proof {
        assert(all.take(ws@.len() as int) =~= all);
    }
    out
}

// ─────────────────────────── expansion, executable ───────────────────────────

/// The first comma that stands outside brackets.
fn outer_comma(s: &str) -> (r: Option<usize>)
    ensures
        match r {
            Some(i) => comma_from(s@, 0, 0) == Some(i as int) && i < s@.len() <= usize::MAX,
            None => comma_from(s@, 0, 0) is None,
        },
{
    let x = text::to_chars(s);
    let len = x.len();
    let mut level: i128 = 0;
    for i in 0..len
        invariant
            x@ == s@,
            len == x@.len(),
            -i <= level <= i,
            comma_from(s@, i as int, level as int) == comma_from(s@, 0, 0),
    {
        let c = x[i];
        if c == '(' || c == '{' {
            level = level + 1;
        } else if c == ')' || c == '}' {
            level = level - 1;
        } else if c == ',' && level == 0 {
            return Some(i);
        }
    }
    None
}

/// The first argument and the others.
fn split2(s: &str) -> (r: (String, String))
    ensures
        r.0@ == first_arg(s@),
        r.1@ == other_args(s@),
        r.1@.len() > 0 ==> r.1@.len() < s@.len(),
{
    match outer_comma(s) {
        Some(i) => (text::take(s, i), text::skip(s, i + 1)),
        None => {
            let rest = String::new();
            assert(rest@ =~= Seq::<char>::empty());
            (text::own(s), rest)
        },
    }
}

/// The first two arguments and the others.
fn split3(s: &str) -> (r: (String, String, String))
    ensures
        r.0@ == first_arg(s@),
        r.1@ == first_arg(other_args(s@)),
        r.2@ == other_args(other_args(s@)),
{
    let (a, rest) = split2(s);
    let (b, c) = split2(&rest);
    (a, b, c)
}

/// The end of the reference that starts at `i`.
fn reference_close(x: &Vec<char>, i: usize) -> (r: Option<usize>)
    requires
        i < x@.len(),
    ensures
        match r {
            Some(j) => reference_end(x@.skip(i as int)) == Some(j - i) && i + 2 <= j < x@.len(),
            None => reference_end(x@.skip(i as int)) is None,
        },
{
    let len = x.len();
    let ghost s = x@.skip(i as int);
    if len - i < 2 || x[i] != '$' {
        return None;
    }
    let open = x[i + 1];
    let close = if open == '(' {
        ')'
    } else if open == '{' {
        '}'
    } else {
        return None;
    };
    let mut level: u128 = 1;
    let mut j = i + 2;
    while j < len
        invariant
            len == x@.len(),
            s == x@.skip(i as int),
            i + 2 <= j <= len,
            1 <= level <= j,
            closing(s, j - i, open, close, level as int) == closing(s, 2, open, close, 1),
            reference_end(s) == closing(s, 2, open, close, 1),
        decreases len - j,
    {
        if x[j] == close {
            if level == 1 {
                return Some(j);
            }
            level = level - 1;
        } else if x[j] == open {
            level = level + 1;
        }
        j = j + 1;
    }
    None
}

/// A make expression with its references and function calls worked out.
pub fn expand_vars(input: &str, vars: &VarMap) -> (r: String)
    ensures
        r@ == expand(input@, vars@),
{
    expand_vars_depth(input, vars, 0)
}

/// The expansion of an expression inside `depth` nested calls.
fn expand_vars_depth(input: &str, vars: &VarMap, depth: usize) -> (r: String)
    requires
        depth <= 33,
    ensures
        r@ == expand_at(input@, vars@, depth as nat),
    decreases 34 - depth, 3int,
{
    if depth > MAX_DEPTH {
        return text::own(input);
    }
    let mut result = text::own(input);
    let mut left: usize = MAX_PASSES;
    let mut done = false;
    while left > 0 && !done
        invariant
            depth <= MAX_DEPTH,
            left <= MAX_PASSES,
            passes(input@, vars@, depth as nat, MAX_PASSES as nat) == (if done {
                result@
            } else {
                passes(result@, vars@, depth as nat, left as nat)
            }),
        decreases left,
    {
        let expanded = expand_once_depth(&result, vars, depth);
        if text::same(&expanded, &result) {
            done = true;
        } else {
            result = expanded;
        }
        left = left - 1;
    }
    proof {
        reveal_strlit("?");
    }
    if text::ends_with(&result, "?") {
        let n = text::length(&result);
        let r = text::take(&result, n - 1);
        proof {
            assert("?"@ == seq!['?']);
            assert(result@.last() == result@.subrange(n - 1, n as int)[0]);
            assert(r@ =~= result@.drop_last());
        }
        r
    } else {
        proof {
            assert("?"@ =~= seq!['?']);
            if result@.len() > 0 && result@.last() == '?' {
                assert(result@.subrange(result@.len() - 1, result@.len() as int) =~= "?"@);
            }
        }
        result
    }
}

/// One pass from left to right.
fn expand_once_depth(input: &str, vars: &VarMap, depth: usize) -> (r: String)
    requires
        depth <= MAX_DEPTH,
    ensures
        r@ == pass(input@, vars@, depth as nat),
    decreases 34 - depth, 1int,
{
    let x = text::to_chars(input);
    let len = x.len();
    let mut out = String::new();
    let mut i: usize = 0;
    proof {
        assert(x@.skip(0) =~= x@);
    }
    while i < len
        invariant
            depth <= MAX_DEPTH,
            x@ == input@,
            len == x@.len(),
            i <= len,
            out@ + pass(x@.skip(i as int), vars@, depth as nat) == pass(
                input@,
                vars@,
                depth as nat,
            ),
        decreases len - i,
    {
        let ghost rest = x@.skip(i as int);
        let ghost was = out@;
        match reference_close(&x, i) {
            Some(j) => {
                let inner = text::from_chars(&x, i + 2, j);
                let value = eval_make_expr_depth(&inner, vars, depth + 1);
                proof {
                    assert(rest.subrange(2, j - i) =~= inner@);
                    assert(rest.skip(j - i + 1) =~= x@.skip(j + 1));
                }
                out.append(value.as_str());
                i = j + 1;
                assert(was + (value@ + pass(x@.skip(i as int), vars@, depth as nat)) =~= out@
                    + pass(x@.skip(i as int), vars@, depth as nat));
            },
            None => {
                if x[i] == '$' && len - i >= 2 && x[i + 1] == '$' {
                    out.push('$');
                    i = i + 2;
                    proof {
                        assert(rest.skip(2) =~= x@.skip(i as int));
                        assert(was + (seq!['$'] + pass(x@.skip(i as int), vars@, depth as nat))
                            =~= out@ + pass(x@.skip(i as int), vars@, depth as nat));
                    }
                } else {
                    let c = x[i];
                    out.push(c);
                    i = i + 1;
                    proof {
                        assert(rest.skip(1) =~= x@.skip(i as int));
                        assert(was + (seq![c] + pass(x@.skip(i as int), vars@, depth as nat))
                            =~= out@ + pass(x@.skip(i as int), vars@, depth as nat));
                    }
                }
            },
        }
    }
    assert(out@ + Seq::<char>::empty() =~= out@);
    out
}

/// The words of an expansion.
fn expand_words(input: &str, vars: &VarMap, depth: usize) -> (r: Vec<String>)
    requires
        depth <= 33,
    ensures
        text::texts(r@) == text::words(expand_at(input@, vars@, depth as nat)),
    decreases 34 - depth, 4int,
{
    let t = expand_vars_depth(input, vars, depth);
    text::words_of(&t)
}

/// The expansion of a text without the white space round it.
fn expand_trimmed(input: &str, vars: &VarMap, depth: usize) -> (r: String)
    requires
        depth <= 33,
    ensures
        r@ == expand_at(text::trim(input@), vars@, depth as nat),
    decreases 34 - depth, 4int,
{
    let t = text::trimmed(input);
    expand_vars_depth(&t, vars, depth)
}

/// The words of the expansion of a text.
fn expand_list(input: &str, vars: &VarMap, depth: usize) -> (r: Vec<String>)
    requires
        depth <= 33,
    ensures
        text::texts(r@) == text::words(expand_at(text::trim(input@), vars@, depth as nat)),
    decreases 34 - depth, 5int,
{
    let t = expand_trimmed(input, vars, depth);
    text::words_of(&t)
}

/// `subst`: a text with every occurrence of another replaced.
fn make_subst(args: &str, vars: &VarMap, depth: usize) -> (r: String)
    requires
        depth <= 33,
    ensures
        r@ == text::replace(
            expand_at(text::trim(other_args(other_args(args@))), vars@, depth as nat),
            expand_at(text::trim(first_arg(args@)), vars@, depth as nat),
            expand_at(first_arg(other_args(args@)), vars@, depth as nat),
        ),
    decreases 34 - depth, 6int,
{
    let (a, b, c) = split3(args);
    let from = expand_trimmed(&a, vars, depth);
    let to = expand_vars_depth(&b, vars, depth);
    let of = expand_trimmed(&c, vars, depth);
    text::replaced(&of, &from, &to)
}

/// `patsubst`: the words that match a pattern replaced.
fn make_patsubst(args: &str, vars: &VarMap, depth: usize) -> (r: String)
    requires
        depth <= 33,
    ensures
        r@ == text::join(
            patsubsts(
                text::words(
                    expand_at(text::trim(other_args(other_args(args@))), vars@, depth as nat),
                ),
                expand_at(text::trim(first_arg(args@)), vars@, depth as nat),
                expand_at(text::trim(first_arg(other_args(args@))), vars@, depth as nat),
            ),
            " "@,
        ),
    decreases 34 - depth, 6int,
{
    let (a, b, c) = split3(args);
    let pat = expand_trimmed(&a, vars, depth);
    let rep = expand_trimmed(&b, vars, depth);
    let ws = expand_list(&c, vars, depth);
    text::joined(&patsubst_all(&ws, &pat, &rep), " ")
}

/// `findstring`: a text if another holds it.
fn make_findstring(args: &str, vars: &VarMap, depth: usize) -> (r: String)
    requires
        depth <= 33,
    ensures
        r@ == (if text::contains(
            expand_at(text::trim(other_args(args@)), vars@, depth as nat),
            expand_at(text::trim(first_arg(args@)), vars@, depth as nat),
        ) {
            expand_at(text::trim(first_arg(args@)), vars@, depth as nat)
        } else {
            Seq::empty()
        }),
    decreases 34 - depth, 6int,
{
    let (a, b) = split2(args);
    let pat = expand_trimmed(&a, vars, depth);
    let of = expand_trimmed(&b, vars, depth);
    if text::has(&of, &pat) {
        pat
    } else {
        text::empty()
    }
}

/// `filter` and `filter-out`: the words that match, or that do not.
fn make_filter(args: &str, invert: bool, vars: &VarMap, depth: usize) -> (r: String)
    requires
        depth <= 33,
    ensures
        r@ == text::join(
            filtered(
                text::words(expand_at(text::trim(other_args(args@)), vars@, depth as nat)),
                text::words(expand_at(text::trim(first_arg(args@)), vars@, depth as nat)),
                invert,
            ),
            " "@,
        ),
    decreases 34 - depth, 6int,
{
    let (a, b) = split2(args);
    let pats = expand_list(&a, vars, depth);
    let ws = expand_list(&b, vars, depth);
    text::joined(&filter_words(&ws, &pats, invert), " ")
}

/// `word`: the word at a position that counts from one.
fn make_word(args: &str, vars: &VarMap, depth: usize) -> (r: String)
    requires
        depth <= 33,
    ensures
        r@ == nth_word(
            expand_at(text::trim(first_arg(args@)), vars@, depth as nat),
            text::words(expand_at(text::trim(other_args(args@)), vars@, depth as nat)),
        ),
    decreases 34 - depth, 6int,
{
    let (a, b) = split2(args);
    let at = expand_trimmed(&a, vars, depth);
    let ws = expand_list(&b, vars, depth);
    let n: u64 = match text::parse_number(&text::trimmed(&at), usize::MAX as u64) {
        Some(n) => n,
        None => 0,
    };
    if n == 0 {
        word_or_empty(&ws, 0)
    } else {
        word_or_empty(&ws, (n - 1) as usize)
    }
}

/// The words from one position to another, both counted from one.
fn list_between(from: &str, to: &str, ws: &Vec<String>) -> (r: Vec<String>)
    ensures
        text::texts(r@) == words_between(from@, to@, text::texts(ws@)),
{
    let start: u64 = match text::parse_number(&text::trimmed(from), usize::MAX as u64) {
        Some(n) => n,
        None => 1,
    };
    let end: u64 = match text::parse_number(&text::trimmed(to), usize::MAX as u64) {
        Some(n) => n,
        None => 0,
    };
    let lo: usize = if start == 0 {
        0
    } else {
        (start - 1) as usize
    };
    let hi: usize = if end as usize <= ws.len() {
        end as usize
    } else {
        ws.len()
    };
    let mut out: Vec<String> = Vec::new();
    let mut i: usize = lo;
    while i < hi
        invariant
            lo <= i,
            lo < hi ==> i <= hi,
            lo >= hi ==> i == lo,
            hi <= ws@.len(),
            out@.len() == i - lo,
            forall|j: int| 0 <= j < out@.len() ==> (#[trigger] out@[j])@ == ws@[lo + j]@,
        decreases hi - i,
    {
        out.push(ws[i].clone());
        i += 1;
    }
    assert(text::texts(out@) =~= words_between(from@, to@, text::texts(ws@)));
    out
}

/// `wordlist`: the words from one position to another.
fn make_wordlist(args: &str, vars: &VarMap, depth: usize) -> (r: String)
    requires
        depth <= 33,
    ensures
        r@ == text::join(
            words_between(
                expand_at(text::trim(first_arg(args@)), vars@, depth as nat),
                expand_at(text::trim(first_arg(other_args(args@))), vars@, depth as nat),
                text::words(
                    expand_at(text::trim(other_args(other_args(args@))), vars@, depth as nat),
                ),
            ),
            " "@,
        ),
    decreases 34 - depth, 6int,
{
    let (a, b, c) = split3(args);
    let from = expand_trimmed(&a, vars, depth);
    let to = expand_trimmed(&b, vars, depth);
    let ws = expand_list(&c, vars, depth);
    text::joined(&list_between(&from, &to, &ws), " ")
}

/// `addsuffix`: a suffix put behind every word.
fn make_addsuffix(args: &str, vars: &VarMap, depth: usize) -> (r: String)
    requires
        depth <= 33,
    ensures
        r@ == text::join(
            affixed(
                text::words(expand_at(text::trim(other_args(args@)), vars@, depth as nat)),
                Seq::empty(),
                expand_at(text::trim(first_arg(args@)), vars@, depth as nat),
            ),
            " "@,
        ),
    decreases 34 - depth, 6int,
{
    let (a, b) = split2(args);
    let suf = expand_trimmed(&a, vars, depth);
    let ws = expand_list(&b, vars, depth);
    let none = text::empty();
    text::joined(&affix_all(&ws, &none, &suf), " ")
}

/// `addprefix`: a prefix put before every word.
fn make_addprefix(args: &str, vars: &VarMap, depth: usize) -> (r: String)
    requires
        depth <= 33,
    ensures
        r@ == text::join(
            affixed(
                text::words(expand_at(text::trim(other_args(args@)), vars@, depth as nat)),
                expand_at(text::trim(first_arg(args@)), vars@, depth as nat),
                Seq::empty(),
            ),
            " "@,
        ),
    decreases 34 - depth, 6int,
{
    let (a, b) = split2(args);
    let pre = expand_trimmed(&a, vars, depth);
    let ws = expand_list(&b, vars, depth);
    let none = text::empty();
    text::joined(&affix_all(&ws, &pre, &none), " ")
}

/// `join`: the words of two lists put together pairwise.
fn make_join(args: &str, vars: &VarMap, depth: usize) -> (r: String)
    requires
        depth <= 33,
    ensures
        r@ == text::join(
            paired(
                text::words(expand_at(text::trim(first_arg(args@)), vars@, depth as nat)),
                text::words(expand_at(text::trim(other_args(args@)), vars@, depth as nat)),
            ),
            " "@,
        ),
    decreases 34 - depth, 6int,
{
    let (a, b) = split2(args);
    let x = expand_list(&a, vars, depth);
    let y = expand_list(&b, vars, depth);
    text::joined(&pair_up(&x, &y), " ")
}

/// `if`: one argument or another, after whether the first is blank.
fn make_if(args: &str, vars: &VarMap, depth: usize) -> (r: String)
    requires
        depth <= 33,
    ensures
        r@ == (if text::trim(expand_at(first_arg(args@), vars@, depth as nat)).len() > 0 {
            expand_at(first_arg(other_args(args@)), vars@, depth as nat)
        } else {
            expand_at(other_args(other_args(args@)), vars@, depth as nat)
        }),
    decreases 34 - depth, 6int,
{
    let (a, b, c) = split3(args);
    let cond = expand_vars_depth(&a, vars, depth);
    if text::length(&text::trimmed(&cond)) > 0 {
        expand_vars_depth(&b, vars, depth)
    } else {
        expand_vars_depth(&c, vars, depth)
    }
}

/// `or`: the first argument that is not blank.
fn make_or(args: &str, vars: &VarMap, depth: usize) -> (r: String)
    requires
        depth <= 33,
    ensures
        r@ == any_of(args@, vars@, depth as nat),
    decreases 34 - depth, 6int,
{
    let mut rest = text::own(args);
    loop
        invariant
            depth <= 33,
            any_of(rest@, vars@, depth as nat) == any_of(args@, vars@, depth as nat),
        decreases rest@.len(),
    {
        let (a, b) = split2(&rest);
        let v = expand_vars_depth(&a, vars, depth);
        let blank = text::length(&text::trimmed(&v)) == 0;
        let last = text::length(&b) == 0;
        if !blank {
            return v;
        }
        if last {
            return text::empty();
        }
        rest = b;
    }
}

/// `and`: the last argument if none is blank.
fn make_and(args: &str, vars: &VarMap, depth: usize) -> (r: String)
    requires
        depth <= 33,
    ensures
        r@ == all_of(args@, vars@, depth as nat),
    decreases 34 - depth, 6int,
{
    let mut rest = text::own(args);
    loop
        invariant
            depth <= 33,
            all_of(rest@, vars@, depth as nat) == all_of(args@, vars@, depth as nat),
        decreases rest@.len(),
    {
        let (a, b) = split2(&rest);
        let v = expand_vars_depth(&a, vars, depth);
        let blank = text::length(&text::trimmed(&v)) == 0;
        let last = text::length(&b) == 0;
        if blank {
            return text::empty();
        }
        if last {
            return v;
        }
        rest = b;
    }
}

/// `call`: the expansion of a variable whose name is worked out first.
fn make_call(args: &str, vars: &VarMap, depth: usize) -> (r: String)
    requires
        depth <= 33,
    ensures
        r@ == (match vars::lookup(
            vars@,
            text::trim(expand_at(text::trim(text::before(args@, ","@)), vars@, depth as nat)),
        ) {
            Some(v) => expand_at(v, vars@, depth as nat),
            None => Seq::empty(),
        }),
    decreases 34 - depth, 6int,
{
    let a = text::text_before(args, ",");
    let name = expand_trimmed(&a, vars, depth);
    match vars.get(&text::trimmed(&name)) {
        Some(v) => expand_vars_depth(&v, vars, depth),
        None => text::empty(),
    }
}

/// The value of a function call.
fn call_function(func: &str, rest: &str, vars: &VarMap, depth: usize) -> (r: String)
    requires
        depth <= 33,
    ensures
        r@ == call(func@, rest@, vars@, depth as nat),
    decreases 34 - depth, 7int,
{
    if text::same(func, "subst") {
        make_subst(rest, vars, depth)
    } else if text::same(func, "patsubst") {
        make_patsubst(rest, vars, depth)
    } else if text::same(func, "strip") {
        text::joined(&expand_words(rest, vars, depth), " ")
    } else if text::same(func, "findstring") {
        make_findstring(rest, vars, depth)
    } else if text::same(func, "filter") {
        make_filter(rest, false, vars, depth)
    } else if text::same(func, "filter-out") {
        make_filter(rest, true, vars, depth)
    } else if text::same(func, "sort") {
        text::joined(&sort_words(&expand_words(rest, vars, depth)), " ")
    } else if text::same(func, "word") {
        make_word(rest, vars, depth)
    } else if text::same(func, "words") {
        text::decimal_of(expand_words(rest, vars, depth).len() as u64)
    } else if text::same(func, "wordlist") {
        make_wordlist(rest, vars, depth)
    } else if text::same(func, "firstword") {
        word_or_empty(&expand_words(rest, vars, depth), 0)
    } else if text::same(func, "lastword") {
        let ws = expand_words(rest, vars, depth);
        if ws.len() == 0 {
            text::empty()
        } else {
            word_or_empty(&ws, ws.len() - 1)
        }
    } else if text::same(func, "dir") {
        text::joined(&dirs_of(&expand_words(rest, vars, depth)), " ")
    } else if text::same(func, "notdir") {
        text::joined(&files_of(&expand_words(rest, vars, depth)), " ")
    } else if text::same(func, "suffix") {
        text::joined(&suffixes_of(&expand_words(rest, vars, depth)), " ")
    } else if text::same(func, "basename") {
        text::joined(&stems_of(&expand_words(rest, vars, depth)), " ")
    } else if text::same(func, "addsuffix") {
        make_addsuffix(rest, vars, depth)
    } else if text::same(func, "addprefix") {
        make_addprefix(rest, vars, depth)
    } else if text::same(func, "join") {
        make_join(rest, vars, depth)
    } else if text::same(func, "if") {
        make_if(rest, vars, depth)
    } else if text::same(func, "or") {
        make_or(rest, vars, depth)
    } else if text::same(func, "and") {
        make_and(rest, vars, depth)
    } else if text::same(func, "call") {
        make_call(rest, vars, depth)
    } else if text::same(func, "value") {
        let name = expand_vars_depth(rest, vars, depth);
        vars.get_or_empty(&text::trimmed(&name))
    } else if text::same(func, "origin") || text::same(func, "flavor") || text::same(func, "info")
        || text::same(func, "warning") || text::same(func, "error") {
        text::empty()
    } else {
        let mut out = text::concat3("$(", func, " ");
        out.append(rest);
        out.append(")");
        out
    }
}

/// The value of a variable reference.
fn variable_value(name: &str, vars: &VarMap, depth: usize) -> (r: String)
    requires
        depth <= 33,
    ensures
        r@ == variable(name@, vars@, depth as nat),
    decreases 34 - depth, 7int,
{
    proof {
        reveal_strlit(":");
        reveal_strlit("=");
    }
    if let Some(c) = text::find_str(name, ":") {
        let change = text::skip(name, c + 1);
        if let Some(e) = text::find_str(&change, "=") {
            let pat = text::take(&change, e);
            let rep = text::skip(&change, e + 1);
            let of = text::take(name, c);
            if let Some(v) = vars.get(&text::trimmed(&of)) {
                let ws = expand_words(&v, vars, depth);
                return text::joined(&resuffix_all(&ws, &pat, &rep), " ");
            }
        }
    }
    match vars.get(name) {
        Some(v) => expand_vars_depth(&v, vars, depth),
        None => text::concat3("$(", name, ")"),
    }
}

/// The value of what stands between the brackets of a reference.
fn eval_make_expr_depth(inner: &str, vars: &VarMap, depth: usize) -> (r: String)
    requires
        depth <= 33,
    ensures
        r@ == evaluate(inner@, vars@, depth as nat),
    decreases 34 - depth, 8int,
{
    let t = text::trimmed(inner);
    match text::find_class(&t, Class::Either(' ', '\t'), Class::Neither(' ', '\t')) {
        Some(n) => {
            let func = text::take(&t, n);
            let rest = text::skip(&t, n);
            call_function(&text::trimmed(&func), &text::trimmed(&rest), vars, depth)
        },
        None => variable_value(&t, vars, depth),
    }
}

// ──────────────────────────────────── laws ───────────────────────────────────

/// A text without `$` that does not end in `?`.
pub open spec fn is_plain(s: Seq<char>) -> bool {
    &&& forall|i: int| 0 <= i < s.len() ==> #[trigger] s[i] != '$'
    &&& s.len() > 0 ==> s.last() != '?'
}

/// A name without white space, colons and round brackets.
pub open spec fn is_plain_name(s: Seq<char>) -> bool {
    &&& s.len() > 0
    &&& forall|i: int|
        0 <= i < s.len() ==> !text::is_space(#[trigger] s[i]) && s[i] != ':' && s[i] != '('
            && s[i] != ')'
}

/// The reference to a variable.
pub open spec fn reference(name: Seq<char>) -> Seq<char> {
    seq!['$', '('] + name + seq![')']
}

pub proof fn lemma_pass_plain(s: Seq<char>, m: Map<Seq<char>, Seq<char>>, depth: nat)
    requires
        depth <= MAX_DEPTH,
        forall|i: int| 0 <= i < s.len() ==> #[trigger] s[i] != '$',
    ensures
        pass(s, m, depth) == s,
    decreases s.len(),
{
    if s.len() > 0 {
        let t = s.skip(1);
        assert forall|i: int| 0 <= i < t.len() implies #[trigger] t[i] != '$' by {
            assert(t[i] == s[i + 1]);
        }
        lemma_pass_plain(t, m, depth);
        assert(seq![s[0]] + t =~= s);
    } else {
        assert(s =~= Seq::<char>::empty());
    }
}

pub proof fn lemma_expand_plain(s: Seq<char>, m: Map<Seq<char>, Seq<char>>, depth: nat)
    requires
        is_plain(s),
    ensures
        expand_at(s, m, depth) == s,
{
    if depth <= MAX_DEPTH {
        lemma_pass_plain(s, m, depth);
    }
}

/// A plain text expands to itself.
pub proof fn law_plain_text_kept(s: Seq<char>, m: Map<Seq<char>, Seq<char>>)
    requires
        is_plain(s),
    ensures
        expand(s, m) == s,
{
    lemma_expand_plain(s, m, 0);
}

proof fn lemma_closing_plain(name: Seq<char>, i: int)
    requires
        is_plain_name(name),
        2 <= i <= name.len() + 2,
    ensures
        closing(reference(name), i, '(', ')', 1) == Some(name.len() as int + 2),
    decreases name.len() + 2 - i,
{
    let s = reference(name);
    if i < name.len() + 2 {
        assert(s[i] == name[i - 2]);
        lemma_closing_plain(name, i + 1);
    }
}

/// A text without white space at either end is what trimming leaves of it.
pub proof fn lemma_trim_name(name: Seq<char>)
    requires
        is_plain_name(name),
    ensures
        text::trim(name) == name,
{
    assert(!text::is_space(name[0]));
    assert(!text::is_space(name.last()));
    text::lemma_span_is(name, Class::Space, 0);
    assert(name.skip(0) =~= name);
    text::lemma_span_back_is(name, Class::Space, 0);
    assert(name.take(name.len() as int) =~= name);
}

/// One pass over the reference to a variable gives the variable's value.
proof fn lemma_pass_reference(name: Seq<char>, m: Map<Seq<char>, Seq<char>>)
    requires
        is_plain_name(name),
    ensures
        pass(reference(name), m, 0) == (match vars::lookup(m, name) {
            Some(v) => expand_at(v, m, 1),
            None => reference(name),
        }),
{
    let s = reference(name);
    lemma_closing_plain(name, 2);
    let j = name.len() as int + 2;
    assert(s.subrange(2, j) =~= name);
    assert(s.skip(j + 1) =~= Seq::<char>::empty());
    lemma_trim_name(name);
    let k = Class::Neither(' ', '\t');
    assert forall|i: int| 0 <= i < name.len() implies k.has(#[trigger] name[i]) by {
        assert(!text::is_space(name[i]));
    }
    text::lemma_span_is(name, k, name.len() as int);
    text::lemma_find(name, ":"@);
    reveal_strlit(":");
    reveal_strlit("$(");
    reveal_strlit(")");
    if text::find(name, ":"@) is Some {
        let i = text::find(name, ":"@)->0;
        assert(text::occurs_at(name, ":"@, i));
        assert(name[i] == name.subrange(i, i + 1)[0]);
        assert(name[i] == ":"@[0]);
    }
    assert("$("@ + name + ")"@ =~= s);
    assert(evaluate(name, m, 1) == variable(name, m, 1));
    assert(reference_end(s) == Some(j));
    assert(pass(s, m, 0) == evaluate(s.subrange(2, j), m, 1) + pass(s.skip(j + 1), m, 0));
    assert(variable(name, m, 1) + Seq::<char>::empty() =~= variable(name, m, 1));
    assert(pass(s.skip(j + 1), m, 0) =~= Seq::<char>::empty());
}

/// The reference to a variable with a plain value expands to that value.
pub proof fn law_variable_expands_to_its_value(name: Seq<char>, m: Map<Seq<char>, Seq<char>>)
    requires
        is_plain_name(name),
        m.dom().contains(name),
        is_plain(m[name]),
    ensures
        expand(reference(name), m) == m[name],
{
    let s = reference(name);
    let v = m[name];
    lemma_pass_reference(name, m);
    lemma_expand_plain(v, m, 1);
    lemma_pass_plain(v, m, 0);
    assert(s[0] == '$');
    assert(v != s);
    assert(passes(v, m, 0, 9) == v);
}

/// The reference to a variable that is not there stays as it is.
pub proof fn law_missing_variable_kept(name: Seq<char>, m: Map<Seq<char>, Seq<char>>)
    requires
        is_plain_name(name),
        !m.dom().contains(name),
    ensures
        expand(reference(name), m) == reference(name),
{
    lemma_pass_reference(name, m);
    assert(reference(name).last() == ')');
}

/// Of two different texts one comes before the other, and not both; none comes
/// before itself.
pub proof fn lemma_precedes_total(a: Seq<char>, b: Seq<char>)
    ensures
        a != b ==> precedes(a, b) || precedes(b, a),
        !(precedes(a, b) && precedes(b, a)),
        !precedes(a, a),
    decreases a.len(),
{
    if a.len() > 0 {
        lemma_precedes_total(a.skip(1), a.skip(1));
    }
    if a.len() > 0 && b.len() > 0 && a[0] == b[0] {
        lemma_precedes_total(a.skip(1), b.skip(1));
        if a != b {
            if a.skip(1) == b.skip(1) {
                assert(a =~= seq![a[0]] + a.skip(1));
                assert(b =~= seq![b[0]] + b.skip(1));
            }
        }
    } else if a.len() == 0 && b.len() == 0 {
        assert(a =~= b);
    }
}

/// The order of texts is transitive.
pub proof fn lemma_precedes_transitive(a: Seq<char>, b: Seq<char>, c: Seq<char>)
    requires
        precedes(a, b),
        precedes(b, c),
    ensures
        precedes(a, c),
    decreases a.len(),
{
    if a.len() > 0 && b.len() > 0 && c.len() > 0 && a[0] == b[0] && b[0] == c[0] {
        lemma_precedes_transitive(a.skip(1), b.skip(1), c.skip(1));
    }
}

/// Whether the words of a list come one before the other.
pub open spec fn ascending(ws: Seq<Seq<char>>) -> bool {
    forall|i: int, j: int| 0 <= i < j < ws.len() ==> precedes(#[trigger] ws[i], #[trigger] ws[j])
}

proof fn lemma_rank(ws: Seq<Seq<char>>, w: Seq<char>)
    ensures
        0 <= rank(ws, w) <= ws.len(),
        forall|i: int| 0 <= i < rank(ws, w) ==> precedes(#[trigger] ws[i], w),
        rank(ws, w) < ws.len() ==> !precedes(ws[rank(ws, w) as int], w),
    decreases ws.len(),
{
    if ws.len() > 0 && precedes(ws[0], w) {
        lemma_rank(ws.skip(1), w);
        assert forall|i: int| 0 <= i < rank(ws, w) implies precedes(#[trigger] ws[i], w) by {
            if i > 0 {
                assert(ws[i] == ws.skip(1)[i - 1]);
            }
        }
    }
}

proof fn lemma_put_in_order(ws: Seq<Seq<char>>, w: Seq<char>)
    requires
        ascending(ws),
    ensures
        ascending(put_in_order(ws, w)),
        forall|x: Seq<char>| #[trigger]
            put_in_order(ws, w).contains(x) <==> ws.contains(x) || x == w,
{
    lemma_rank(ws, w);
    let n = rank(ws, w) as int;
    let out = put_in_order(ws, w);
    if n < ws.len() && ws[n] == w {
        assert(ws.contains(w));
    } else {
        assert forall|i: int, j: int| 0 <= i < j < out.len() implies precedes(
            #[trigger] out[i],
            #[trigger] out[j],
        ) by {
            if j > n {
                assert(out[j] == ws[j - 1]);
                if i < n {
                    assert(out[i] == ws[i]);
                } else if i > n {
                    assert(out[i] == ws[i - 1]);
                } else {
                    lemma_precedes_total(ws[n], w);
                    if j - 1 > n {
                        lemma_precedes_transitive(w, ws[n], ws[j - 1]);
                    }
                }
            } else {
                assert(out[i] == ws[i]);
            }
        }
        assert forall|x: Seq<char>| #[trigger]
            out.contains(x) <==> ws.contains(x) || x == w by {
            if ws.contains(x) {
                let i = choose|i: int| 0 <= i < ws.len() && ws[i] == x;
                if i < n {
                    assert(out[i] == x);
                } else {
                    assert(out[i + 1] == x);
                }
            }
            assert(out[n] == w);
            if out.contains(x) {
                let i = choose|i: int| 0 <= i < out.len() && out[i] == x;
                if i < n {
                    assert(ws[i] == x);
                } else if i > n {
                    assert(ws[i - 1] == x);
                }
            }
        }
    }
}

/// `sort` gives the words of a list, each once, one before the other.
pub proof fn law_sorted_words(ws: Seq<Seq<char>>)
    ensures
        ascending(in_order(ws)),
        forall|x: Seq<char>| #[trigger] in_order(ws).contains(x) <==> ws.contains(x),
    decreases ws.len(),
{
    if ws.len() > 0 {
        let front = ws.drop_last();
        law_sorted_words(front);
        lemma_put_in_order(in_order(front), ws.last());
        assert forall|x: Seq<char>| #[trigger] in_order(ws).contains(x) <==> ws.contains(x) by {
            assert(in_order(ws).contains(x) <==> in_order(front).contains(x) || x == ws.last());
            if ws.contains(x) {
                let i = choose|i: int| 0 <= i < ws.len() && ws[i] == x;
                if i < ws.len() - 1 {
                    assert(front[i] == x);
                }
            }
            if front.contains(x) {
                let i = choose|i: int| 0 <= i < front.len() && front[i] == x;
                assert(ws[i] == x);
            }
            assert(ws[ws.len() - 1] == ws.last());
        }
    }
}

/// The words that match and those that do not are the words for which that holds,
/// in their order.
proof fn lemma_filtered(ws: Seq<Seq<char>>, pats: Seq<Seq<char>>, invert: bool)
    ensures
        filtered(ws, pats, invert) == ws.filter(|w: Seq<char>| matches_any(w, pats) != invert),
        forall|i: int|
            0 <= i < filtered(ws, pats, invert).len() ==> ws.contains(
                #[trigger] filtered(ws, pats, invert)[i],
            ),
        filtered(ws, pats, false).len() + filtered(ws, pats, true).len() == ws.len(),
    decreases ws.len(),
{
    reveal(Seq::filter);
    if ws.len() > 0 {
        let front = ws.drop_last();
        lemma_filtered(front, pats, invert);
        let f = filtered(ws, pats, invert);
        assert forall|i: int| 0 <= i < f.len() implies ws.contains(#[trigger] f[i]) by {
            if i < filtered(front, pats, invert).len() {
                let w = filtered(front, pats, invert)[i];
                assert(front.contains(w));
                let j = choose|j: int| 0 <= j < front.len() && front[j] == w;
                assert(ws[j] == w);
            } else {
                assert(ws[ws.len() - 1] == f[i]);
            }
        }
    }
}

/// A text without `$`, `?` and brackets.
pub open spec fn is_simple(s: Seq<char>) -> bool {
    forall|i: int|
        0 <= i < s.len() ==> #[trigger] s[i] != '$' && s[i] != '?' && s[i] != '(' && s[i] != ')'
            && s[i] != '{' && s[i] != '}'
}

pub proof fn lemma_comma_from(pats: Seq<char>, rest: Seq<char>, i: int)
    requires
        is_simple(pats),
        !pats.contains(','),
        0 <= i <= pats.len(),
    ensures
        comma_from(pats + seq![','] + rest, i, 0) == Some(pats.len() as int),
    decreases pats.len() - i,
{
    let s = pats + seq![','] + rest;
    if i < pats.len() {
        assert(s[i] == pats[i]);
        assert(pats.contains(pats[i]));
        lemma_comma_from(pats, rest, i + 1);
    } else {
        assert(s[i] == ',');
    }
}

pub proof fn lemma_expand_simple(s: Seq<char>, m: Map<Seq<char>, Seq<char>>, depth: nat)
    requires
        is_simple(s),
    ensures
        text::words(expand_at(text::trim(s), m, depth)) == text::words(s),
{
    let t = text::trim_start_of(s, text::Class::Space);
    text::lemma_span(s, text::Class::Space);
    text::lemma_span_back(t, text::Class::Space);
    assert forall|i: int| 0 <= i < text::trim(s).len() implies #[trigger] text::trim(s)[i]
        != '$' && text::trim(s)[i] != '?' by {
        assert(text::trim(s)[i] == s[i + text::span(s, text::Class::Space)]);
    }
    lemma_expand_plain(text::trim(s), m, depth);
    text::lemma_words_trim(s);
}

/// `filter` and `filter-out` part the words of a text: each word comes out of
/// exactly one of them, in its order, of `filter` if one of the patterns matches
/// it and of `filter-out` if none does.
pub proof fn law_filters_part_the_words(
    pats: Seq<char>,
    list: Seq<char>,
    m: Map<Seq<char>, Seq<char>>,
    depth: nat,
)
    requires
        is_simple(pats),
        is_simple(list),
        !pats.contains(','),
    ensures
        ({
            let args = pats + seq![','] + list;
            let ws = text::words(list);
            let ps = text::words(pats);
            let matching = text::words(call("filter"@, args, m, depth));
            let others = text::words(call("filter-out"@, args, m, depth));
            &&& matching == ws.filter(|w: Seq<char>| matches_any(w, ps))
            &&& others == ws.filter(|w: Seq<char>| !matches_any(w, ps))
            &&& matching.len() + others.len() == ws.len()
        }),
{
    let args = pats + seq![','] + list;
    let ws = text::words(list);
    let ps = text::words(pats);
    lemma_comma_from(pats, list, 0);
    assert(args.take(pats.len() as int) =~= pats);
    assert(args.skip(pats.len() as int + 1) =~= list);
    lemma_expand_simple(pats, m, depth);
    lemma_expand_simple(list, m, depth);
    lemma_filtered(ws, ps, false);
    lemma_filtered(ws, ps, true);
    text::lemma_words_are_words(list);
    lemma_filter_names();
    text::lemma_words_join(filtered(ws, ps, false));
    text::lemma_words_join(filtered(ws, ps, true));
    let p = |w: Seq<char>| matches_any(w, ps) != false;
    let q = |w: Seq<char>| matches_any(w, ps);
    assert(p =~= q);
    let r = |w: Seq<char>| matches_any(w, ps) != true;
    let t = |w: Seq<char>| !matches_any(w, ps);
    assert(r =~= t);
}

proof fn lemma_filter_names()
    ensures
        "filter"@ != "subst"@,
        "filter"@ != "patsubst"@,
        "filter"@ != "strip"@,
        "filter"@ != "findstring"@,
        "filter-out"@ != "subst"@,
        "filter-out"@ != "patsubst"@,
        "filter-out"@ != "strip"@,
        "filter-out"@ != "findstring"@,
        "filter-out"@ != "filter"@,
{
    reveal_strlit("filter");
    reveal_strlit("filter-out");
    reveal_strlit("subst");
    reveal_strlit("patsubst");
    reveal_strlit("strip");
    reveal_strlit("findstring");
    assert("filter"@.len() == 6);
    assert("filter-out"@.len() == 10);
    assert("filter"@[0] == 'f');
    assert("filter-out"@[0] == 'f');
    assert("filter-out"@[2] == 'l');
    assert("findstring"@[2] == 'n');
    assert("strip"@[0] == 's');
    assert("subst"@[0] == 's');
    assert("patsubst"@[0] == 'p');
}

} // verus!

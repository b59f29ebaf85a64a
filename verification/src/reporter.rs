//! Reports: the status of each package, the columns of tables and files, and
//! what is counted.

use crate::config::OutputFormat;
use crate::i18n;
use crate::i18n::{say, Lang};
use crate::makefile_parser::ParsedMakefile;
use crate::text;
use crate::upstream::{Info, UpstreamInfo};
use vstd::prelude::*;

verus! {

/// A package and the result of its check.
#[derive(Debug, Clone)]
pub struct CheckResult {
    pub parsed: ParsedMakefile,
    pub upstream: UpstreamInfo,
}

// ─────────────────────────────────── status ──────────────────────────────────

/// How a package stands.
#[derive(Debug, Clone, Copy, PartialEq, Eq, Structural)]
pub enum Status {
    /// its versions are of different formats
    FormatMismatch,
    /// it is newer than what was found upstream
    Newer,
    Outdated,
    UpToDate,
    Unknown,
}

/// How a package stands.
pub open spec fn status_of(info: Info) -> Status {
    if info.format_mismatch {
        Status::FormatMismatch
    } else if info.is_newer {
        Status::Newer
    } else {
        match info.is_outdated {
            Some(true) => Status::Outdated,
            Some(false) => Status::UpToDate,
            None => Status::Unknown,
        }
    }
}

/// How a package stands.
pub fn status(info: &UpstreamInfo) -> (r: Status)
    ensures
        r == status_of(info@),
{
    if info.format_mismatch {
        Status::FormatMismatch
    } else if info.is_newer {
        Status::Newer
    } else {
        match info.is_outdated {
            Some(b) => if b {
                Status::Outdated
            } else {
                Status::UpToDate
            },
            None => Status::Unknown,
        }
    }
}

/// The word for a status.
pub open spec fn status_word(s: Status, lang: Lang) -> Seq<char> {
    match s {
        Status::FormatMismatch => i18n::said(i18n::STATUS_FORMAT_MISMATCH, lang),
        Status::Newer => i18n::said(i18n::STATUS_NEWER, lang),
        Status::Outdated => i18n::said(i18n::STATUS_OUTDATED, lang),
        Status::UpToDate => i18n::said(i18n::STATUS_OK, lang),
        Status::Unknown => i18n::said(i18n::STATUS_UNKNOWN, lang),
    }
}

/// The word for a status.
pub fn status_text(s: Status, lang: Lang) -> (r: &'static str)
    ensures
        r@ == status_word(s, lang),
{
    match s {
        Status::FormatMismatch => say(i18n::STATUS_FORMAT_MISMATCH, lang),
        Status::Newer => say(i18n::STATUS_NEWER, lang),
        Status::Outdated => say(i18n::STATUS_OUTDATED, lang),
        Status::UpToDate => say(i18n::STATUS_OK, lang),
        Status::Unknown => say(i18n::STATUS_UNKNOWN, lang),
    }
}

/// The word for what came of the hash check.
pub open spec fn hash_word(mismatch: Option<bool>, lang: Lang) -> Seq<char> {
    match mismatch {
        Some(true) => i18n::said(i18n::HASH_MISMATCH, lang),
        Some(false) => i18n::said(i18n::HASH_OK, lang),
        None => i18n::said(i18n::HASH_UNCHECKED, lang),
    }
}

/// The word for what came of the hash check.
pub fn hash_text(mismatch: Option<bool>, lang: Lang) -> (r: &'static str)
    ensures
        r@ == hash_word(mismatch, lang),
{
    match mismatch {
        Some(b) => if b {
            say(i18n::HASH_MISMATCH, lang)
        } else {
            say(i18n::HASH_OK, lang)
        },
        None => say(i18n::HASH_UNCHECKED, lang),
    }
}

/// The tag and the commit of the latest version, short; `none` where there is
/// neither.
pub open spec fn tag_and_commit(info: Info, none: Seq<char>) -> Seq<char> {
    match (info.latest_tag, info.latest_commit) {
        (Some(t), Some(c)) => t + " ("@ + text::byte_prefix(c, 8) + ")"@,
        (Some(t), None) => t,
        (None, Some(c)) => text::byte_prefix(c, 12),
        (None, None) => none,
    }
}

/// The tag and the commit of the latest version, short.
fn tag_commit_text(info: &UpstreamInfo, none: &str) -> (r: String)
    ensures
        r@ == tag_and_commit(info@, none@),
{
    match (&info.latest_tag, &info.latest_commit) {
        (Some(t), Some(c)) => {
            let mut out = text::concat3(t, " (", &text::byte_prefix_of(c, 8));
            out.append(")");
            out
        },
        (Some(t), None) => t.clone(),
        (None, Some(c)) => text::byte_prefix_of(c, 12),
        (None, None) => text::own(none),
    }
}

// ────────────────────────────────── directories ──────────────────────────────

/// The names in a path, without empty ones and single dots.
pub open spec fn path_names(parts: Seq<Seq<char>>) -> Seq<Seq<char>>
    decreases parts.len(),
{
    if parts.len() == 0 {
        Seq::empty()
    } else if parts.last().len() == 0 || parts.last() == "."@ {
        path_names(parts.drop_last())
    } else {
        path_names(parts.drop_last()).push(parts.last())
    }
}

/// The name of the directory that a file stands in, or nothing where the path
/// does not tell.
pub open spec fn directory_of(path: Seq<char>) -> Seq<char> {
    let names = path_names(text::split_on(path, '/'));
    if names.len() >= 2 && names[names.len() - 2] != ".."@ {
        names[names.len() - 2]
    } else {
        Seq::empty()
    }
}

/// The name of the directory that a file stands in.
pub fn dir_name(path: &str) -> (r: String)
    ensures
        r@ == directory_of(path@),
{
    broadcast use text::lemma_texts_push;

    let parts = text::parts_of(path, '/');
    let ghost all = text::texts(parts@);
    let mut names: Vec<String> = Vec::new();
    proof {
        assert(text::texts(names@) =~= Seq::<Seq<char>>::empty());
    }
    for i in 0..parts.len()
        invariant
            all == text::texts(parts@),
            text::texts(names@) == path_names(all.take(i as int)),
    {
        proof {
            assert(all.take(i + 1).drop_last() =~= all.take(i as int));
        }
        let part = parts[i].as_str();
        if text::length(part) > 0 && !text::same(part, ".") {
            names.push(text::own(part));
        }
    }
    proof {
        assert(all.take(parts@.len() as int) =~= all);
    }
    let n = names.len();
    if n >= 2 && !text::same(names[n - 2].as_str(), "..") {
        assert(text::texts(names@)[n - 2] == names@[n - 2]@);
        names[n - 2].clone()
    } else {
        text::empty()
    }
}

// ─────────────────────────────────── columns ─────────────────────────────────

/// The text of an optional string, or another text.
pub open spec fn text_or(o: Option<Seq<char>>, other: Seq<char>) -> Seq<char> {
    match o {
        Some(s) => s,
        None => other,
    }
}

/// The text of an optional string, or another text.
pub fn or_text(o: &Option<String>, other: &str) -> (r: String)
    ensures
        r@ == text_or(text::opt_text(*o), other@),
{
    match o {
        Some(s) => s.clone(),
        None => text::own(other),
    }
}

/// The columns of a package in a report file.
pub open spec fn row_of(r: CheckResult, lang: Lang) -> Seq<Seq<char>> {
    let info = r.upstream@;
    seq![
        info.pkg_name,
        directory_of(r.parsed.path@),
        info.current_version,
        text_or(info.latest_version, Seq::empty()),
        status_word(status_of(info), lang),
        tag_and_commit(info, Seq::empty()),
        info.source_backend,
        hash_word(info.hash_mismatch, lang),
        text_or(info.latest_commit, Seq::empty()),
        text_or(info.upstream_url, Seq::empty()),
        text_or(info.check_error, Seq::empty()),
        r.parsed.path@,
    ]
}

/// The columns of a package in a report file.
pub fn row_data(r: &CheckResult, lang: Lang) -> (row: Vec<String>)
    ensures
        text::texts(row@) == row_of(*r, lang),
{
    let info = &r.upstream;
    let none = text::empty();
    let mut row: Vec<String> = Vec::new();
    row.push(info.pkg_name.clone());
    row.push(dir_name(&r.parsed.path));
    row.push(info.current_version.clone());
    row.push(or_text(&info.latest_version, &none));
    row.push(text::own(status_text(status(info), lang)));
    row.push(tag_commit_text(info, &none));
    row.push(info.source_backend.clone());
    row.push(text::own(hash_text(info.hash_mismatch, lang)));
    row.push(or_text(&info.latest_commit, &none));
    row.push(or_text(&info.upstream_url, &none));
    row.push(or_text(&info.check_error, &none));
    row.push(r.parsed.path.clone());
    assert(text::texts(row@) =~= row_of(*r, lang));
    row
}

/// The headers of the columns in a report file.
pub open spec fn headers_of(lang: Lang) -> Seq<Seq<char>> {
    seq![
        i18n::said(i18n::HDR_PKG_NAME, lang),
        i18n::said(i18n::HDR_DIRECTORY, lang),
        i18n::said(i18n::HDR_CURRENT, lang),
        i18n::said(i18n::HDR_LATEST, lang),
        i18n::said(i18n::HDR_STATUS, lang),
        i18n::said(i18n::HDR_TAG_COMMIT, lang),
        i18n::said(i18n::HDR_BACKEND, lang),
        i18n::said(i18n::HDR_HASH_STATUS, lang),
        i18n::said(i18n::HDR_COMMIT_SHA, lang),
        i18n::said(i18n::HDR_UPSTREAM_URL, lang),
        i18n::said(i18n::HDR_NOTE, lang),
        i18n::said(i18n::HDR_PATH, lang),
    ]
}

/// The headers of the columns in a report file.
pub fn headers(lang: Lang) -> (r: Vec<String>)
    ensures
        text::texts(r@) == headers_of(lang),
{
    let mut out: Vec<String> = Vec::new();
    out.push(text::own(say(i18n::HDR_PKG_NAME, lang)));
    out.push(text::own(say(i18n::HDR_DIRECTORY, lang)));
    out.push(text::own(say(i18n::HDR_CURRENT, lang)));
    out.push(text::own(say(i18n::HDR_LATEST, lang)));
    out.push(text::own(say(i18n::HDR_STATUS, lang)));
    out.push(text::own(say(i18n::HDR_TAG_COMMIT, lang)));
    out.push(text::own(say(i18n::HDR_BACKEND, lang)));
    out.push(text::own(say(i18n::HDR_HASH_STATUS, lang)));
    out.push(text::own(say(i18n::HDR_COMMIT_SHA, lang)));
    out.push(text::own(say(i18n::HDR_UPSTREAM_URL, lang)));
    out.push(text::own(say(i18n::HDR_NOTE, lang)));
    out.push(text::own(say(i18n::HDR_PATH, lang)));
    assert(text::texts(out@) =~= headers_of(lang));
    out
}

/// The columns of a package in the table on the terminal.
pub open spec fn table_row_of(info: Info, lang: Lang) -> Seq<Seq<char>> {
    seq![
        info.pkg_name,
        info.current_version,
        text_or(info.latest_version, "-"@),
        status_word(status_of(info), lang),
        tag_and_commit(info, "-"@),
        info.source_backend,
        hash_word(info.hash_mismatch, lang),
        text_or(info.check_error, Seq::empty()),
    ]
}

/// The columns of a package in the table on the terminal.
pub fn table_row(info: &UpstreamInfo, lang: Lang) -> (row: Vec<String>)
    ensures
        text::texts(row@) == table_row_of(info@, lang),
{
    let mut row: Vec<String> = Vec::new();
    row.push(info.pkg_name.clone());
    row.push(info.current_version.clone());
    row.push(or_text(&info.latest_version, "-"));
    row.push(text::own(status_text(status(info), lang)));
    row.push(tag_commit_text(info, "-"));
    row.push(info.source_backend.clone());
    row.push(text::own(hash_text(info.hash_mismatch, lang)));
    row.push(or_text(&info.check_error, &text::empty()));
    assert(text::texts(row@) =~= table_row_of(info@, lang));
    row
}

/// The headers of the table on the terminal.
pub fn table_headers(lang: Lang) -> (r: Vec<String>)
    ensures
        text::texts(r@) == seq![
            i18n::said(i18n::TBL_PACKAGE, lang),
            i18n::said(i18n::TBL_CURRENT, lang),
            i18n::said(i18n::TBL_LATEST, lang),
            i18n::said(i18n::TBL_STATUS, lang),
            i18n::said(i18n::TBL_TAG_COMMIT, lang),
            i18n::said(i18n::TBL_BACKEND, lang),
            i18n::said(i18n::TBL_HASH, lang),
            i18n::said(i18n::TBL_NOTE, lang),
        ],
{
    let mut out: Vec<String> = Vec::new();
    out.push(text::own(say(i18n::TBL_PACKAGE, lang)));
    out.push(text::own(say(i18n::TBL_CURRENT, lang)));
    out.push(text::own(say(i18n::TBL_LATEST, lang)));
    out.push(text::own(say(i18n::TBL_STATUS, lang)));
    out.push(text::own(say(i18n::TBL_TAG_COMMIT, lang)));
    out.push(text::own(say(i18n::TBL_BACKEND, lang)));
    out.push(text::own(say(i18n::TBL_HASH, lang)));
    out.push(text::own(say(i18n::TBL_NOTE, lang)));
    assert(text::texts(out@) =~= seq![
        i18n::said(i18n::TBL_PACKAGE, lang),
        i18n::said(i18n::TBL_CURRENT, lang),
        i18n::said(i18n::TBL_LATEST, lang),
        i18n::said(i18n::TBL_STATUS, lang),
        i18n::said(i18n::TBL_TAG_COMMIT, lang),
        i18n::said(i18n::TBL_BACKEND, lang),
        i18n::said(i18n::TBL_HASH, lang),
        i18n::said(i18n::TBL_NOTE, lang),
    ]);
    out
}

// ──────────────────────────────────── styles ─────────────────────────────────

/// How a cell of a report sheet is coloured.
#[derive(Debug, Clone, Copy, PartialEq, Eq, Structural)]
pub enum CellStyle {
    /// after the status of the package
    Of(Status),
    HashMismatch,
}

/// The column of the hash status in a report file.
pub const HASH_COLUMN: usize = 7;

/// How the cell of a package in a column is coloured: the row after the status of
/// the package, the hash column apart where the hash differs.
pub fn cell_style(info: &UpstreamInfo, column: usize) -> (r: CellStyle)
    ensures
        r == (if column == HASH_COLUMN && info@.hash_mismatch == Some(true) {
            CellStyle::HashMismatch
        } else {
            CellStyle::Of(status_of(info@))
        }),
{
    let mismatch = match info.hash_mismatch {
        Some(b) => b,
        None => false,
    };
    if column == HASH_COLUMN && mismatch {
        CellStyle::HashMismatch
    } else {
        CellStyle::Of(status(info))
    }
}

// ──────────────────────────────────── counts ─────────────────────────────────

/// How many packages stand how.
#[derive(Debug, Clone, Copy, PartialEq, Eq, Structural)]
pub struct Counts {
    pub outdated: usize,
    pub up_to_date: usize,
    pub unknown: usize,
    pub format_mismatches: usize,
    pub newer: usize,
    pub hash_mismatches: usize,
}

/// How many results have a status.
pub open spec fn count_status(results: Seq<CheckResult>, s: Status) -> nat
    decreases results.len(),
{
    if results.len() == 0 {
        0
    } else {
        count_status(results.drop_last(), s) + if status_of(results.last().upstream@) == s {
            1nat
        } else {
            0nat
        }
    }
}

/// How many results have a hash that differs.
pub open spec fn count_mismatches(results: Seq<CheckResult>) -> nat
    decreases results.len(),
{
    if results.len() == 0 {
        0
    } else {
        count_mismatches(results.drop_last()) + if results.last().upstream@.hash_mismatch == Some(
            true,
        ) {
            1nat
        } else {
            0nat
        }
    }
}

/// Counts how many packages stand how.
pub fn count(results: &Vec<CheckResult>) -> (r: Counts)
    ensures
        r.outdated == count_status(results@, Status::Outdated),
        r.up_to_date == count_status(results@, Status::UpToDate),
        r.unknown == count_status(results@, Status::Unknown),
        r.format_mismatches == count_status(results@, Status::FormatMismatch),
        r.newer == count_status(results@, Status::Newer),
        r.hash_mismatches == count_mismatches(results@),
{
    let mut c = Counts {
        outdated: 0,
        up_to_date: 0,
        unknown: 0,
        format_mismatches: 0,
        newer: 0,
        hash_mismatches: 0,
    };
    for i in 0..results.len()
        invariant
            c.outdated == count_status(results@.take(i as int), Status::Outdated),
            c.up_to_date == count_status(results@.take(i as int), Status::UpToDate),
            c.unknown == count_status(results@.take(i as int), Status::Unknown),
            c.format_mismatches == count_status(results@.take(i as int), Status::FormatMismatch),
            c.newer == count_status(results@.take(i as int), Status::Newer),
            c.hash_mismatches == count_mismatches(results@.take(i as int)),
            c.outdated <= i,
            c.up_to_date <= i,
            c.unknown <= i,
            c.format_mismatches <= i,
            c.newer <= i,
            c.hash_mismatches <= i,
    {
        proof {
            assert(results@.take(i + 1).drop_last() =~= results@.take(i as int));
        }
        let info = &results[i].upstream;
        match status(info) {
            Status::FormatMismatch => {
                c.format_mismatches = c.format_mismatches + 1;
            },
            Status::Newer => {
                c.newer = c.newer + 1;
            },
            Status::Outdated => {
                c.outdated = c.outdated + 1;
            },
            Status::UpToDate => {
                c.up_to_date = c.up_to_date + 1;
            },
            Status::Unknown => {
                c.unknown = c.unknown + 1;
            },
        }
        if let Some(b) = info.hash_mismatch {
            if b {
                c.hash_mismatches = c.hash_mismatches + 1;
            }
        }
    }
    assert(results@.take(results@.len() as int) =~= results@);
    c
}

/// Every package stands in one way: the counts by status add up to all.
pub proof fn law_counts_add_up(results: Seq<CheckResult>)
    ensures
        count_status(results, Status::Outdated) + count_status(results, Status::UpToDate)
            + count_status(results, Status::Unknown) + count_status(
            results,
            Status::FormatMismatch,
        ) + count_status(results, Status::Newer) == results.len(),
    decreases results.len(),
{
    if results.len() > 0 {
        law_counts_add_up(results.drop_last());
    }
}

// ─────────────────────────────────── summary ─────────────────────────────────

/// Whether a result says that the package is outdated.
pub open spec fn says_outdated(r: CheckResult) -> bool {
    r.upstream@.is_outdated == Some(true)
}

/// Whether a result says that the hash differs.
pub open spec fn says_mismatch(r: CheckResult) -> bool {
    r.upstream@.hash_mismatch == Some(true)
}

/// The positions of the results that meet a test, in order.
pub open spec fn positions(
    results: Seq<CheckResult>,
    test: spec_fn(CheckResult) -> bool,
) -> Seq<int>
    decreases results.len(),
{
    if results.len() == 0 {
        Seq::empty()
    } else if test(results.last()) {
        positions(results.drop_last(), test).push(results.len() - 1)
    } else {
        positions(results.drop_last(), test)
    }
}

/// The positions that a vector holds.
pub open spec fn as_positions(v: Seq<usize>) -> Seq<int> {
    Seq::new(v.len(), |i: int| v[i] as int)
}

/// The positions of the packages that are outdated.
pub fn outdated(results: &Vec<CheckResult>) -> (r: Vec<usize>)
    ensures
        as_positions(r@) == positions(results@, |c: CheckResult| says_outdated(c)),
        forall|k: int|
            0 <= k < r@.len() ==> (#[trigger] r@[k]) < results@.len() && says_outdated(
                results@[r@[k] as int],
            ),
{
    let ghost test = |c: CheckResult| says_outdated(c);
    let mut out: Vec<usize> = Vec::new();
    proof {
        assert(as_positions(out@) =~= Seq::<int>::empty());
    }
    for i in 0..results.len()
        invariant
            test == (|c: CheckResult| says_outdated(c)),
            as_positions(out@) == positions(results@.take(i as int), test),
            forall|k: int|
                0 <= k < out@.len() ==> (#[trigger] out@[k]) < i && says_outdated(
                    results@[out@[k] as int],
                ),
    {
        proof {
            assert(results@.take(i + 1).drop_last() =~= results@.take(i as int));
            assert(as_positions(out@.push(i)) =~= as_positions(out@).push(i as int));
        }
        if let Some(b) = results[i].upstream.is_outdated {
            if b {
                out.push(i);
            }
        }
    }
    assert(results@.take(results@.len() as int) =~= results@);
    out
}

/// The positions of the packages whose hash differs.
pub fn mismatched(results: &Vec<CheckResult>) -> (r: Vec<usize>)
    ensures
        as_positions(r@) == positions(results@, |c: CheckResult| says_mismatch(c)),
        forall|k: int|
            0 <= k < r@.len() ==> (#[trigger] r@[k]) < results@.len() && says_mismatch(
                results@[r@[k] as int],
            ),
{
    let ghost test = |c: CheckResult| says_mismatch(c);
    let mut out: Vec<usize> = Vec::new();
    proof {
        assert(as_positions(out@) =~= Seq::<int>::empty());
    }
    for i in 0..results.len()
        invariant
            test == (|c: CheckResult| says_mismatch(c)),
            as_positions(out@) == positions(results@.take(i as int), test),
            forall|k: int|
                0 <= k < out@.len() ==> (#[trigger] out@[k]) < i && says_mismatch(
                    results@[out@[k] as int],
                ),
    {
        proof {
            assert(results@.take(i + 1).drop_last() =~= results@.take(i as int));
            assert(as_positions(out@.push(i)) =~= as_positions(out@).push(i as int));
        }
        if let Some(b) = results[i].upstream.hash_mismatch {
            if b {
                out.push(i);
            }
        }
    }
    assert(results@.take(results@.len() as int) =~= results@);
    out
}

/// What the summary says of the tag and the commit of an outdated package.
pub open spec fn summary_detail(info: Info) -> Seq<char> {
    (match info.latest_tag {
        Some(t) => " [tag: "@ + t + "]"@,
        None => Seq::empty(),
    }) + (match info.latest_commit {
        Some(c) => " [commit: "@ + text::byte_prefix(c, 12) + "]"@,
        None => Seq::empty(),
    })
}

/// What the summary says of the tag and the commit of an outdated package.
pub fn detail_text(info: &UpstreamInfo) -> (r: String)
    ensures
        r@ == summary_detail(info@),
{
    let tag = match &info.latest_tag {
        Some(t) => text::concat3(" [tag: ", t, "]"),
        None => text::empty(),
    };
    let commit = match &info.latest_commit {
        Some(c) => text::concat3(" [commit: ", &text::byte_prefix_of(c, 12), "]"),
        None => text::empty(),
    };
    text::concat(&tag, &commit)
}

// ──────────────────────────────────── files ──────────────────────────────────

/// Whether a sheet is saved in a format.
pub fn saves_xlsx(format: OutputFormat) -> (r: bool)
    ensures
        r == (format == OutputFormat::Xlsx || format == OutputFormat::Both),
{
    format == OutputFormat::Xlsx || format == OutputFormat::Both
}

/// Whether a table of comma-separated values is saved in a format.
pub fn saves_csv(format: OutputFormat) -> (r: bool)
    ensures
        r == (format == OutputFormat::Csv || format == OutputFormat::Both),
{
    format == OutputFormat::Csv || format == OutputFormat::Both
}

/// The name of a report file of a time.
pub fn report_name(timestamp: &str, extension: &str) -> (r: String)
    ensures
        r@ == "makefile_checker_"@ + timestamp@ + "."@ + extension@,
{
    let mut out = text::concat3("makefile_checker_", timestamp, ".");
    out.append(extension);
    out
}

} // verus!

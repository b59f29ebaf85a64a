//! Versions read off pages: directory listings, feeds, and pages that a pattern
//! is held to.

use crate::makefile_parser::group_text;
use crate::makefile_parser::ParsedMakefile;
use crate::outside;
use crate::patterns;
use crate::tags;
use crate::text;
use crate::upstream;
use crate::upstream::{Info, UpstreamInfo};
use crate::version;
use vstd::prelude::*;

verus! {

/// A version, if it comes into question.
pub open spec fn if_considered(v: Seq<char>, prereleases: bool) -> Option<Seq<char>> {
    if version::is_left_out(v, prereleases) {
        None
    } else {
        Some(v)
    }
}

/// The stable versions in the first groups of some matches.
pub open spec fn listed_versions(ms: Seq<Seq<Option<Seq<char>>>>) -> Seq<Option<Seq<char>>> {
    Seq::new(ms.len(), |i: int| if_considered(outside::group(ms[i], 1), false))
}

/// The newest version in the first groups of some matches, if it is not the
/// current one.
pub open spec fn newest_listed(
    ms: Seq<Seq<Option<Seq<char>>>>,
    current: Seq<char>,
) -> Option<Seq<char>> {
    match tags::newest(listed_versions(ms)) {
        Some(i) => if outside::group(ms[i], 1) == current {
            None
        } else {
            Some(outside::group(ms[i], 1))
        },
        None => None,
    }
}

/// The groups of the matches of a pattern; none where the pattern is not valid.
pub open spec fn matches_in(pattern: Seq<char>, body: Seq<char>) -> Seq<
    Seq<Option<Seq<char>>>,
> {
    match outside::regex_captures_iter(pattern, body) {
        Some(ms) => ms,
        None => Seq::empty(),
    }
}

/// The newest version of the tarballs that a directory page links to, if it is
/// not the current one.
pub open spec fn index_version(body: Seq<char>, current: Seq<char>) -> Option<Seq<char>> {
    newest_listed(matches_in(patterns::HTML_INDEX@, body), current)
}

/// The newest version of the directories in a SourceForge feed, if it is not the
/// current one.
pub open spec fn feed_version(body: Seq<char>, current: Seq<char>) -> Option<Seq<char>> {
    newest_listed(matches_in(patterns::SF_RSS@, body), current)
}

/// A version, if it comes into question.
fn keep_considered(v: String, prereleases: bool) -> (r: Option<String>)
    ensures
        text::opt_text(r) == if_considered(v@, prereleases),
{
    if version::left_out(&v, prereleases) {
        None
    } else {
        Some(v)
    }
}

/// The newest version in the first groups of some matches, if it is not the
/// current one.
pub fn pick_listed(ms: &Vec<Vec<Option<String>>>, current: &str) -> (r: Option<String>)
    ensures
        text::opt_text(r) == newest_listed(outside::all_groups(ms@), current@),
{
    let mut c: Vec<Option<String>> = Vec::new();
    for i in 0..ms.len()
        invariant
            c@.len() == i,
            forall|j: int|
                0 <= j < i ==> text::opt_text(#[trigger] c@[j]) == listed_versions(
                    outside::all_groups(ms@),
                )[j],
    {
        c.push(keep_considered(group_text(&ms[i], 1), false));
    }
    assert(tags::opt_texts(c@) =~= listed_versions(outside::all_groups(ms@)));
    match tags::newest_of(&c) {
        Some(i) => {
            let v = group_text(&ms[i], 1);
            if text::same(&v, current) {
                None
            } else {
                Some(v)
            }
        },
        None => None,
    }
}

/// The matches of a pattern; none where the pattern is not valid.
fn list_matches(pattern: &str, body: &str) -> (r: Vec<Vec<Option<String>>>)
    ensures
        outside::all_groups(r@) == matches_in(pattern@, body@),
{
    match outside::captures_iter(pattern, body) {
        Some(ms) => ms,
        None => {
            let none: Vec<Vec<Option<String>>> = Vec::new();
            assert(outside::all_groups(none@) =~= Seq::<Seq<Option<Seq<char>>>>::empty());
            none
        },
    }
}

/// The newest version of the tarballs that a directory page links to, if it is
/// not the current one.
pub fn extract_version_from_html_index(html: &str, current: &str) -> (r: Option<String>)
    ensures
        text::opt_text(r) == index_version(html@, current@),
{
    let ms = list_matches(patterns::HTML_INDEX, html);
    pick_listed(&ms, current)
}

/// The newest version of the directories in a SourceForge feed, if it is not the
/// current one.
pub fn extract_version_from_sf_rss(body: &str, current: &str) -> (r: Option<String>)
    ensures
        text::opt_text(r) == feed_version(body@, current@),
{
    let ms = list_matches(patterns::SF_RSS, body);
    pick_listed(&ms, current)
}

// ────────────────────────────── pages with a pattern ─────────────────────────

/// What a match takes for a version: its first group, or the whole match where
/// that took no part.
pub open spec fn taken_version(g: Seq<Option<Seq<char>>>, prereleases: bool) -> Option<Seq<char>> {
    if g.len() > 1 && g[1] is Some {
        if_considered(g[1]->0, prereleases)
    } else if g.len() > 0 && g[0] is Some {
        if_considered(g[0]->0, prereleases)
    } else {
        None
    }
}

/// The versions that some matches take.
pub open spec fn taken_versions(ms: Seq<Seq<Option<Seq<char>>>>, prereleases: bool) -> Seq<
    Option<Seq<char>>,
> {
    Seq::new(ms.len(), |i: int| taken_version(ms[i], prereleases))
}

/// The result that the matches of a pattern in a page give.
pub open spec fn pattern_result(
    p: ParsedMakefile,
    ms: Seq<Seq<Option<Seq<char>>>>,
    url: Seq<char>,
    prereleases: bool,
) -> Info {
    match tags::newest(taken_versions(ms, prereleases)) {
        Some(i) => upstream::found_of(
            p,
            taken_version(ms[i], prereleases)->0,
            url,
            "url-regex"@,
            true,
        ),
        None => upstream::unknown_of(p, "no version matched url-regex pattern"@, Some(url)),
    }
}

/// What a match takes for a version.
fn take_version(g: &Vec<Option<String>>, prereleases: bool) -> (r: Option<String>)
    ensures
        text::opt_text(r) == taken_version(outside::groups(g@), prereleases),
{
    if g.len() > 1 && g[1].is_some() {
        keep_considered(group_text(g, 1), prereleases)
    } else if g.len() > 0 && g[0].is_some() {
        keep_considered(group_text(g, 0), prereleases)
    } else {
        None
    }
}

/// The result that the matches of a pattern in a page give.
pub fn from_matches(
    parsed: &ParsedMakefile,
    ms: &Vec<Vec<Option<String>>>,
    url: &str,
    prereleases: bool,
) -> (r: UpstreamInfo)
    ensures
        r@ == pattern_result(*parsed, outside::all_groups(ms@), url@, prereleases),
{
    let mut c: Vec<Option<String>> = Vec::new();
    for i in 0..ms.len()
        invariant
            c@.len() == i,
            forall|j: int|
                0 <= j < i ==> text::opt_text(#[trigger] c@[j]) == taken_versions(
                    outside::all_groups(ms@),
                    prereleases,
                )[j],
    {
        c.push(take_version(&ms[i], prereleases));
    }
    assert(tags::opt_texts(c@) =~= taken_versions(outside::all_groups(ms@), prereleases));
    match tags::newest_of(&c) {
        Some(i) => match &c[i] {
            Some(v) => {
                assert(taken_versions(outside::all_groups(ms@), prereleases)[i as int] == Some(
                    v@,
                ));
                upstream::found_info(parsed, v, url, "url-regex", true)
            },
            None => upstream::unknown_info_with_url(
                parsed,
                "no version matched url-regex pattern",
                url,
            ),
        },
        None => upstream::unknown_info_with_url(
            parsed,
            "no version matched url-regex pattern",
            url,
        ),
    }
}

/// The result that a page gives when a pattern is held to it; an error where the
/// pattern is not valid.
pub fn from_page(
    parsed: &ParsedMakefile,
    body: &str,
    url: &str,
    regex: &str,
    prereleases: bool,
) -> (r: Result<UpstreamInfo, String>)
    ensures
        match (r, outside::regex_captures_iter(regex@, body@)) {
            (Ok(info), Some(ms)) => info@ == pattern_result(*parsed, ms, url@, prereleases),
            (Err(e), None) => e@ == "compile url-regex pattern"@,
            _ => false,
        },
{
    match outside::captures_iter(regex, body) {
        Some(ms) => Ok(from_matches(parsed, &ms, url, prereleases)),
        None => Err(text::own("compile url-regex pattern")),
    }
}

} // verus!

//! What a session makes of answers, rules and results, and what is reported.

use crate::config;
use crate::config::{Config, OutputFormat, PkgRule};
use crate::i18n;
use crate::i18n::Lang;
use crate::laws_of_make;
use crate::laws_of_texts;
use crate::makefile_parser::ParsedMakefile;
use crate::makefile_updater::MakefileUpdate;
use crate::outside;
use crate::patterns;
use crate::reporter;
use crate::reporter::{CellStyle, CheckResult, Counts, Status};
use crate::session;
use crate::session::{CommitPlace, CommitSource, MainAction, Tarball, TarballPlace};
use crate::text;
use crate::text::Class;
use crate::upstream::{Info, UpstreamInfo};
use vstd::prelude::*;

verus! {

// ─────────────────────────────────── answers ─────────────────────────────────

/// A list with a comma has the items of what stands before it, then those behind
/// it.  A text without commas is one item, without the white space round it, or none
/// where it is blank.
pub proof fn law_lists_of_items(x: Seq<char>, y: Seq<char>)
    requires
        !x.contains(','),
    ensures
        ({
            let one = session::items_of(text::split_on(x, ','));
            &&& session::items_of(text::split_on(x + seq![','] + y, ',')) == one
                + session::items_of(text::split_on(y, ','))
            &&& text::trim(x).len() > 0 ==> one == seq![text::trim(x)]
            &&& text::trim(x).len() == 0 ==> one.len() == 0
        }),
{
    assert forall|i: int| 0 <= i < x.len() implies Class::Not(',').has(#[trigger] x[i]) by {
        assert(x.contains(x[i]));
    }
    text::lemma_split_front(x, y, ',');
    let none = Seq::<Seq<char>>::empty();
    assert(seq![x].drop_last() =~= none);
    assert(session::items_of(none) =~= none);
    assert(none.push(text::trim(x)) =~= seq![text::trim(x)]);
    lemma_items_of_both(seq![x], text::split_on(y, ','));
}

proof fn lemma_items_of_both(a: Seq<Seq<char>>, b: Seq<Seq<char>>)
    ensures
        session::items_of(a + b) == session::items_of(a) + session::items_of(b),
    decreases b.len(),
{
    let s = a + b;
    if b.len() == 0 {
        assert(s =~= a);
        assert(session::items_of(a) + session::items_of(b) =~= session::items_of(a));
    } else {
        assert(s.drop_last() =~= a + b.drop_last());
        assert(s.last() == b.last());
        lemma_items_of_both(a, b.drop_last());
        assert(session::items_of(s) =~= session::items_of(a) + session::items_of(b));
    }
}

/// A number in an answer is taken, zero only for retries; anything else leaves what
/// was set.
pub proof fn law_numbers_in_answers(
    answer: &str,
    n: nat,
    i: int,
    old_jobs: usize,
    old_timeout: u64,
    old_retries: u32,
    jobs: usize,
    timeout: u64,
    retries: u32,
)
    requires
        call_ensures(session::jobs_answer, (answer, old_jobs), jobs),
        call_ensures(session::timeout_answer, (answer, old_timeout), timeout),
        call_ensures(session::retry_answer, (answer, old_retries), retries),
        n <= u32::MAX,
    ensures
        answer@ == text::decimal(n) && n > 0 ==> jobs == n && timeout == n,
        answer@ == text::decimal(n) ==> retries == n,
        answer@ == text::decimal(0) ==> jobs == old_jobs && timeout == old_timeout && retries == 0,
        answer@.len() == 0 ==> jobs == old_jobs && timeout == old_timeout && retries == old_retries,
{
    laws_of_make::lemma_number_read(n, usize::MAX as nat);
    laws_of_make::lemma_number_read(n, u64::MAX as nat);
    laws_of_make::lemma_number_read(n, u32::MAX as nat);
    laws_of_make::lemma_number_read(0, usize::MAX as nat);
    laws_of_make::lemma_number_read(0, u64::MAX as nat);
    laws_of_make::lemma_number_read(0, u32::MAX as nat);
    if answer@.len() == 0 {
        text::lemma_span(answer@, Class::Space);
        let t = text::trim_start_of(answer@, Class::Space);
        text::lemma_span_back(t, Class::Space);
        assert(text::trim(answer@).len() == 0);
    }
}

/// An empty token is none, and so is a blank path.
pub proof fn law_tokens_and_paths(
    answer: &str,
    token: Option<String>,
    path: Option<String>,
)
    requires
        call_ensures(session::token_answer, (answer,), token),
        call_ensures(session::path_answer, (answer,), path),
    ensures
        token is None <==> answer@.len() == 0,
        token matches Some(t) ==> t@ == answer@,
        path is None <==> text::trim(answer@).len() == 0,
        path matches Some(t) ==> t@ == text::trim(answer@),
{
}

/// The places of the menus: the first runs, the second configures, any other ends.
/// Of outdated packages the first place fetches hashes, the second updates, the third
/// does both.
pub proof fn law_places_of_menus(
    place: usize,
    action: MainAction,
    what: (bool, bool),
    lang: Lang,
)
    requires
        call_ensures(session::main_action, (place,), action),
        call_ensures(session::outdated_action, (place,), what),
        call_ensures(session::lang_at, (place,), lang),
    ensures
        place == 0 ==> action is Run && what == (true, false) && lang is En,
        place == 1 ==> action is Configure && what == (false, true) && lang is Zh,
        place == 2 ==> action is Quit && what == (true, true),
        place >= 3 ==> action is Quit && what == (false, false),
{
}

/// A format stands in the menu at the place that leads to it.
pub proof fn law_formats_have_places(f: OutputFormat, place: usize, g: OutputFormat)
    requires
        call_ensures(OutputFormat::place, (&f,), place),
        call_ensures(OutputFormat::at, (place,), g),
    ensures
        f == g,
        place < 4,
{
}

/// What is saved in a format: a sheet, a list, both or neither.
pub proof fn law_formats_are_saved(f: OutputFormat, sheet: bool, list: bool)
    requires
        call_ensures(reporter::saves_xlsx, (f,), sheet),
        call_ensures(reporter::saves_csv, (f,), list),
    ensures
        f is Xlsx ==> sheet && !list,
        f is Csv ==> !sheet && list,
        f is Both ==> sheet && list,
        f is NoReport ==> !sheet && !list,
{
}

/// As many jobs run as there are processors, sixteen at most; four where the number
/// is not known.
pub proof fn law_default_jobs(n: usize, a: usize, b: usize)
    requires
        call_ensures(config::default_jobs, (Some(n),), a),
        call_ensures(config::default_jobs, (None::<usize>,), b),
    ensures
        a <= n,
        a <= 16,
        a == n || a == 16,
        b == 4,
{
}

/// A first run searches the current directory, skips host and toolchain directories,
/// waits half a minute, tries three times more, and saves a sheet.
pub proof fn law_first_configuration(processors: Option<usize>, token: Option<String>, c: Config)
    requires
        call_ensures(Config::initial, (processors, token), c),
    ensures
        c.search_paths@.len() == 1 && c.search_paths@[0]@ == "."@,
        c.skip_patterns@.len() == 2 && c.skip_patterns@[0]@ == "host/"@ && c.skip_patterns@[1]@
            == "toolchain/"@,
        c.timeout_secs == 30,
        c.retry_times == 3,
        c.output_format is Xlsx,
        c.output_path is None,
        text::opt_text(c.github_token) == text::opt_text(token),
        c.skip_packages@.len() == 0,
        c.pkg_rules@.len() == 0,
        !c.include_prerelease,
        c.lang is En,
        c.dl_path is None,
        !c.fetch_upstream_hash,
{
    assert(text::texts(c.search_paths@).len() == 1);
    assert(text::texts(c.skip_patterns@).len() == 2);
    assert(text::texts(c.search_paths@)[0] == c.search_paths@[0]@);
    assert(text::texts(c.skip_patterns@)[0] == c.skip_patterns@[0]@);
    assert(text::texts(c.skip_patterns@)[1] == c.skip_patterns@[1]@);
}

// ───────────────────────────── packages and rules ────────────────────────────

/// A package is skipped where its name is on the list.
pub proof fn law_listed_packages_are_skipped(names: &Vec<String>, name: &str, k: int, r: bool)
    requires
        call_ensures(session::is_skipped, (names, name), r),
    ensures
        0 <= k < names@.len() && names@[k]@ == name@ ==> r,
        (forall|i: int| 0 <= i < names@.len() ==> (#[trigger] names@[i])@ != name@) ==> !r,
{
    let all = text::texts(names@);
    if 0 <= k < names@.len() {
        assert(all[k] == names@[k]@);
    }
    if r {
        let i = choose|i: int| 0 <= i < all.len() && #[trigger] all[i] == name@;
        assert(names@[i]@ == name@);
    }
}

/// A directory is not searched where its name starts with a dot, unless the search
/// starts there, nor where its path holds a pattern that is skipped; files are
/// looked at whatever their path.
pub proof fn law_directories_are_searched(
    name: &str,
    is_root: bool,
    is_dir: bool,
    path: &str,
    patterns: &Vec<String>,
    k: int,
    a: Seq<char>,
    b: Seq<char>,
    r: bool,
)
    requires
        call_ensures(session::enters, (name, is_root, is_dir, path, patterns), r),
    ensures
        !is_root && name@.len() > 0 && name@[0] == '.' ==> !r,
        is_dir && 0 <= k < patterns@.len() && path@ + seq!['/'] == a + patterns@[k]@ + b ==> !r,
        (is_root || name@.len() == 0 || name@[0] != '.') && (!is_dir || forall|i: int|
            0 <= i < patterns@.len() ==> !text::contains(
                path@ + seq!['/'],
                (#[trigger] patterns@[i])@,
            )) ==> r,
{
    reveal_strlit("/");
    assert("/"@ =~= seq!['/']);
    let all = text::texts(patterns@);
    if 0 <= k < patterns@.len() {
        let x = patterns@[k]@;
        let s = a + x + b;
        assert(s.subrange(a.len() as int, a.len() + x.len() as int) =~= x);
        assert(text::occurs_at(s, x, a.len() as int));
        assert(all[k] == x);
    }
    if !(!is_dir || exists|i: int|
        0 <= i < patterns@.len() && text::contains(
            path@ + seq!['/'],
            (#[trigger] patterns@[i])@,
        )) {
        assert forall|i: int| 0 <= i < all.len() implies !text::contains(
            path@ + "/"@,
            #[trigger] all[i],
        ) by {
            assert(all[i] == patterns@[i]@);
        }
    }
}

/// Only files called `Makefile` are makefiles.
pub proof fn law_makefiles_by_name(name: &str, is_file: bool, r: bool)
    requires
        call_ensures(session::is_makefile, (name, is_file), r),
    ensures
        r <==> is_file && name@ == "Makefile"@,
{
}

proof fn lemma_rule_at(rules: Seq<(String, PkgRule)>, name: Seq<char>, k: int)
    requires
        0 <= k < rules.len(),
        rules[k].0@ == name,
        forall|i: int| k < i < rules.len() ==> (#[trigger] rules[i]).0@ != name,
    ensures
        session::rule_at(rules, name) == Some(k),
    decreases rules.len(),
{
    if k < rules.len() - 1 {
        assert(rules.last() == rules[rules.len() - 1]);
        let front = rules.drop_last();
        assert forall|i: int| k < i < front.len() implies (#[trigger] front[i]).0@ != name by {
            assert(front[i] == rules[i]);
        }
        assert(front[k] == rules[k]);
        lemma_rule_at(front, name, k);
    }
}

proof fn lemma_no_rule(rules: Seq<(String, PkgRule)>, name: Seq<char>)
    requires
        forall|i: int| 0 <= i < rules.len() ==> (#[trigger] rules[i]).0@ != name,
    ensures
        session::rule_at(rules, name) is None,
    decreases rules.len(),
{
    if rules.len() > 0 {
        assert(rules.last() == rules[rules.len() - 1]);
        let front = rules.drop_last();
        assert forall|i: int| 0 <= i < front.len() implies (#[trigger] front[i]).0@ != name by {
            assert(front[i] == rules[i]);
        }
        lemma_no_rule(front, name);
    }
}

/// A package is checked by the last rule of its name, field by field; one without a
/// rule by one that sets nothing.  Pre-releases count where the rule or the
/// configuration says so.
pub proof fn law_packages_have_rules(
    rules: &Vec<(String, PkgRule)>,
    name: &str,
    prereleases: bool,
    k: int,
    r: PkgRule,
)
    requires
        call_ensures(session::rule_for, (rules, name, prereleases), r),
        0 <= k < rules@.len() ==> rules@[k].0@ == name@,
        -1 <= k < rules@.len(),
        forall|i: int| k < i < rules@.len() ==> (#[trigger] rules@[i]).0@ != name@,
    ensures
        k >= 0 ==> {
            let own = rules@[k].1;
            &&& r.include_prerelease == (own.include_prerelease || prereleases)
            &&& text::texts(r.ignore_regex@) == text::texts(own.ignore_regex@)
            &&& r.min_version == own.min_version
            &&& r.max_version == own.max_version
            &&& r.strip_prefix == own.strip_prefix
            &&& r.strip_suffix == own.strip_suffix
            &&& r.url_regex_url == own.url_regex_url
            &&& r.url_regex_pattern == own.url_regex_pattern
            &&& r.skip == own.skip
            &&& r.github == own.github
            &&& r.gitlab == own.gitlab
            &&& r.gitea == own.gitea
        },
        k == -1 ==> {
            &&& r.include_prerelease == prereleases
            &&& r.ignore_regex@.len() == 0
            &&& r.min_version is None
            &&& r.max_version is None
            &&& r.strip_prefix is None
            &&& r.strip_suffix is None
            &&& r.url_regex_url is None
            &&& r.url_regex_pattern is None
            &&& !r.skip
            &&& r.github is None
            &&& r.gitlab is None
            &&& r.gitea is None
        },
{
    if k >= 0 {
        lemma_rule_at(rules@, name@, k);
    } else {
        lemma_no_rule(rules@, name@);
    }
}

/// What a rule sets is said in words, two blanks between them; a rule that sets
/// nothing of it says nothing.
pub proof fn law_rules_in_words(rule: &PkgRule, r: String)
    requires
        call_ensures(session::rule_summary, (rule,), r),
        rule.ignore_regex@.len() == 0,
        rule.strip_prefix is None,
        rule.strip_suffix is None,
        rule.url_regex_url is None,
    ensures
        ({
            let low = text::opt_text(rule.min_version);
            let high = text::opt_text(rule.max_version);
            let all = rule.include_prerelease;
            &&& low is None && high is None && !all ==> r@.len() == 0
            &&& low is Some && high is None && !all ==> r@ == "min="@ + low->0
            &&& low is None && high is Some && !all ==> r@ == "max="@ + high->0
            &&& low is None && high is None && all ==> r@ == "include_prerelease"@
            &&& low is Some && high is Some && !all ==> r@ == "min="@ + low->0 + "  "@ + "max="@
                + high->0
        }),
{
    let none = Seq::<Seq<char>>::empty();
    let words = session::rule_words(*rule);
    if rule.min_version is Some {
        let a = "min="@ + rule.min_version->0@;
        if rule.max_version is Some {
            let b = "max="@ + rule.max_version->0@;
            if !rule.include_prerelease {
                assert(words =~= seq![a, b]);
                assert(seq![a, b].drop_last() =~= seq![a]);
                assert(text::join(seq![a], "  "@) == a);
                assert(a + "  "@ + b =~= "min="@ + rule.min_version->0@ + "  "@ + "max="@
                    + rule.max_version->0@);
            }
        } else if !rule.include_prerelease {
            assert(words =~= seq![a]);
        }
    } else if rule.max_version is Some {
        if !rule.include_prerelease {
            assert(words =~= seq!["max="@ + rule.max_version->0@]);
        }
    } else if rule.include_prerelease {
        assert(words =~= seq!["include_prerelease"@]);
    } else {
        assert(words =~= none);
    }
}

/// The words for what else a rule sets.
pub proof fn law_other_rules_in_words(rule: &PkgRule, r: String)
    requires
        call_ensures(session::rule_summary, (rule,), r),
        rule.min_version is None,
        rule.max_version is None,
        !rule.include_prerelease,
    ensures
        ({
            let front = text::opt_text(rule.strip_prefix);
            let back = text::opt_text(rule.strip_suffix);
            let page = text::opt_text(rule.url_regex_url);
            let n = rule.ignore_regex@.len();
            &&& n == 0 && front is Some && back is None && page is None ==> r@ == "strip_prefix="@
                + front->0
            &&& n == 0 && front is None && back is Some && page is None ==> r@ == "strip_suffix="@
                + back->0
            &&& n == 0 && front is None && back is None && page is Some ==> r@ == "url_regex_url="@
                + page->0
            &&& n == 1 && front is None && back is None && page is None ==> r@ == "ignore_regex=["@
                + rule.ignore_regex@[0]@ + "]"@
            &&& n == 2 && front is None && back is None && page is None ==> r@ == "ignore_regex=["@
                + rule.ignore_regex@[0]@ + ","@ + rule.ignore_regex@[1]@ + "]"@
        }),
{
    let words = session::rule_words(*rule);
    let front = text::opt_text(rule.strip_prefix);
    let back = text::opt_text(rule.strip_suffix);
    let page = text::opt_text(rule.url_regex_url);
    let n = rule.ignore_regex@.len();
    let list = text::texts(rule.ignore_regex@);
    if n == 0 && front is Some && back is None && page is None {
        assert(words =~= seq!["strip_prefix="@ + front->0]);
    }
    if n == 0 && front is None && back is Some && page is None {
        assert(words =~= seq!["strip_suffix="@ + back->0]);
    }
    if n == 0 && front is None && back is None && page is Some {
        assert(words =~= seq!["url_regex_url="@ + page->0]);
    }
    if n == 1 && front is None && back is None && page is None {
        assert(list =~= seq![rule.ignore_regex@[0]@]);
        assert(words =~= seq!["ignore_regex=["@ + rule.ignore_regex@[0]@ + "]"@]);
    }
    if n == 2 && front is None && back is None && page is None {
        let a = rule.ignore_regex@[0]@;
        let b = rule.ignore_regex@[1]@;
        assert(list =~= seq![a, b]);
        assert(seq![a, b].drop_last() =~= seq![a]);
        assert(text::join(seq![a], ","@) == a);
        assert(text::join(list, ","@) == a + ","@ + b);
        assert(words =~= seq!["ignore_regex=["@ + (a + ","@ + b) + "]"@]);
        assert("ignore_regex=["@ + (a + ","@ + b) + "]"@ =~= "ignore_regex=["@ + a + ","@ + b
            + "]"@);
    }
}

// ──────────────────────────── fetched and written ────────────────────────────

/// The latest commit is asked for on GitHub, else on the GitLab host that the URL
/// names.
pub proof fn law_hosts_of_commits(
    w: Option<Seq<char>>,
    host: Seq<char>,
    owner: Seq<char>,
    repo: Seq<char>,
    other: Option<Seq<Option<Seq<char>>>>,
)
    ensures
        session::place_by(Some(seq![w, Some(owner), Some(repo)]), other) == (CommitPlace::GitHub {
            owner,
            repo,
        }),
        session::place_by(None, Some(seq![w, Some(host), Some(owner), Some(repo)])) == (
        CommitPlace::GitLab { host, owner, repo }),
        session::place_by(None, None) is NoHost,
{
}

/// A package whose PKG_SOURCE_VERSION is a hash of twelve digits or more follows
/// commits; one without it does not.
pub proof fn law_packages_that_follow_commits(parsed: &ParsedMakefile, r: CommitSource)
    requires
        call_ensures(session::commit_source, (parsed,), r),
    ensures
        parsed.pkg_source_version is None ==> r@ is Untracked,
        parsed.pkg_source_version is Some && vstd::utf8::encode_utf8(
            parsed.pkg_source_version->0@,
        ).len() < 12 ==> r@ is Untracked,
        parsed.pkg_source_version is Some && vstd::utf8::encode_utf8(
            parsed.pkg_source_version->0@,
        ).len() >= 12 ==> !(r@ is Untracked),
        parsed.pkg_source_version is Some && vstd::utf8::encode_utf8(
            parsed.pkg_source_version->0@,
        ).len() >= 12 && parsed.source_url is Some ==> r@ == session::place_by(
            outside::regex_captures(patterns::GITHUB_REPO@, parsed.source_url->0@),
            outside::regex_captures(patterns::GITLAB_REPO@, parsed.source_url->0@),
        ),
        r@ is GitHub || r@ is GitLab ==> parsed.source_url is Some,
{
}

proof fn lemma_replaced_once(a: Seq<char>, x: Seq<char>, b: Seq<char>, y: Seq<char>)
    requires
        x.len() > 0,
        text::find(a + x + b, x) == Some(a.len() as int),
        !text::contains(b, x),
    ensures
        text::replace(a + x + b, x, y) == a + y + b,
    decreases a.len(),
{
    let s = a + x + b;
    text::lemma_find(s, x);
    if a.len() == 0 {
        assert(s =~= x + b);
        laws_of_texts::law_replace_goes_on(s, x, y);
        assert(s.skip(x.len() as int) =~= b);
        laws_of_texts::law_replace_goes_on(b, x, y);
        text::lemma_contains(b, x);
        assert(a + y + b =~= y + b);
    } else {
        laws_of_texts::law_replace_goes_on(s, x, y);
        text::lemma_contains(b, x);
        laws_of_texts::law_replace_goes_on(b, x, y);
        assert(s.take(a.len() as int) =~= a);
        assert(s.skip(a.len() + x.len() as int) =~= b);
    }
}

/// The tarball of the latest version stands where the current one does, the new
/// version in place of the old.
pub proof fn law_new_tarballs(
    parsed: &ParsedMakefile,
    info: &UpstreamInfo,
    a: Seq<char>,
    b: Seq<char>,
    c: Seq<char>,
    d: Seq<char>,
    r: Tarball,
)
    requires
        call_ensures(session::new_tarball, (parsed, info), r),
        parsed.pkg_version@.len() > 0,
        text::find(a + parsed.pkg_version@ + b, parsed.pkg_version@) == Some(a.len() as int),
        text::find(c + parsed.pkg_version@ + d, parsed.pkg_version@) == Some(c.len() as int),
        !text::contains(b, parsed.pkg_version@),
        !text::contains(d, parsed.pkg_version@),
    ensures
        parsed.source_url is None ==> r@ is NoUrl,
        parsed.source_url is Some && parsed.source_file is None ==> r@ is NoFile,
        parsed.source_url is Some && parsed.source_file is Some && info@.latest_version is None
            ==> r@ is NoVersion,
        text::opt_text(parsed.source_url) == Some(a + parsed.pkg_version@ + b) && text::opt_text(
            parsed.source_file,
        ) == Some(c + parsed.pkg_version@ + d) && info@.latest_version is Some ==> r@ == (
        TarballPlace::At {
            url: a + info@.latest_version->0 + b,
            fname: c + info@.latest_version->0 + d,
        }),
{
    if info@.latest_version is Some {
        let v = info@.latest_version->0;
        lemma_replaced_once(a, parsed.pkg_version@, b, v);
        lemma_replaced_once(c, parsed.pkg_version@, d, v);
    }
}

/// A makefile is updated where a version of the same format was found and one of
/// its variables is to be set; it is then given just that, and the hash.
pub proof fn law_results_are_written(
    info: &UpstreamInfo,
    hash: &Option<String>,
    r: Option<MakefileUpdate>,
)
    requires
        call_ensures(session::update_for, (info, hash), r),
    ensures
        info@.latest_version is None ==> r is None,
        info@.format_mismatch ==> r is None,
        info@.write_pkg_version is None && info@.write_pkg_source_version is None
            && info@.write_pkg_source_date is None ==> r is None,
        info@.latest_version is Some && !info@.format_mismatch && (info@.write_pkg_version is Some
            || info@.write_pkg_source_version is Some || info@.write_pkg_source_date is Some)
            ==> r is Some,
        r matches Some(u) ==> {
            &&& text::opt_text(u.pkg_version) == info@.write_pkg_version
            &&& text::opt_text(u.pkg_source_version) == info@.write_pkg_source_version
            &&& text::opt_text(u.pkg_source_date) == info@.write_pkg_source_date
            &&& text::opt_text(u.pkg_hash) == text::opt_text(*hash)
        },
{
}

/// What was fetched is added to a result; what was not leaves it as it was.
pub proof fn law_fetched_is_added(
    info: Info,
    hash: Option<Seq<char>>,
    commit: Option<Seq<char>>,
    error: Option<Seq<char>>,
)
    ensures
        ({
            let r = session::with_fetched(info, hash, commit, error);
            &&& hash is Some ==> r.latest_hash_sha256 == hash
            &&& hash is None ==> r.latest_hash_sha256 == info.latest_hash_sha256
            &&& commit is Some ==> r.upstream_commit == commit
            &&& commit is None ==> r.upstream_commit == info.upstream_commit
            &&& error is Some ==> r.check_error == error
            &&& error is None ==> r.check_error == info.check_error
            &&& r.latest_version == info.latest_version
            &&& r.is_outdated == info.is_outdated
            &&& r.write_pkg_version == info.write_pkg_version
            &&& hash is None && commit is None && error is None ==> r == info
        }),
{
}

// ─────────────────────────────────── reports ─────────────────────────────────

/// What a result says of its package: whether the formats differ comes first, then
/// whether it is newer, then whether it is outdated.
pub proof fn law_status_of_results(info: &UpstreamInfo, r: Status)
    requires
        call_ensures(reporter::status, (info,), r),
    ensures
        info@.format_mismatch <==> r is FormatMismatch,
        !info@.format_mismatch && info@.is_newer <==> r is Newer,
        !info@.format_mismatch && !info@.is_newer ==> {
            &&& info@.is_outdated == Some(true) <==> r is Outdated
            &&& info@.is_outdated == Some(false) <==> r is UpToDate
            &&& info@.is_outdated is None <==> r is Unknown
        },
{
}

/// The words for a status and for a hash.
pub proof fn law_words_of_reports(s: Status, m: Option<bool>, lang: Lang, a: &str, b: &str)
    requires
        call_ensures(reporter::status_text, (s, lang), a),
        call_ensures(reporter::hash_text, (m, lang), b),
    ensures
        lang is En ==> {
            &&& s is Outdated ==> a@ == "OUTDATED"@
            &&& s is UpToDate ==> a@ == "OK"@
            &&& s is Unknown ==> a@ == "?"@
            &&& s is FormatMismatch ==> a@ == "FORMAT?"@
            &&& s is Newer ==> a@ == "NEWER"@
            &&& m == Some(true) ==> b@ == "⚠ MISMATCH"@
            &&& m == Some(false) ==> b@ == "✓"@
            &&& m is None ==> b@ == "-"@
        },
        lang is Zh ==> {
            &&& s is Outdated ==> a@ == "有更新"@
            &&& s is UpToDate ==> a@ == "最新"@
            &&& s is FormatMismatch ==> a@ == "格式不一致"@
            &&& s is Newer ==> a@ == "高于上游"@
            &&& m == Some(true) ==> b@ == "⚠ 哈希不符"@
        },
{
}

/// One more result counts for its status and for no other.
pub proof fn law_results_are_counted(results: Seq<CheckResult>, one: CheckResult, s: Status)
    ensures
        reporter::count_status(results.push(one), s) == reporter::count_status(results, s) + (
        if reporter::status_of(one.upstream@) == s {
            1nat
        } else {
            0nat
        }),
        reporter::count_mismatches(results.push(one)) == reporter::count_mismatches(results) + (
        if one.upstream@.hash_mismatch == Some(true) {
            1nat
        } else {
            0nat
        }),
        reporter::count_status(Seq::empty(), s) == 0,
        reporter::count_mismatches(Seq::empty()) == 0,
{
    assert(results.push(one).drop_last() =~= results);
}

/// The numbers of a report are those of its results.
pub proof fn law_counts_of_reports(results: &Vec<CheckResult>, c: Counts)
    requires
        call_ensures(reporter::count, (results,), c),
    ensures
        c.outdated + c.up_to_date + c.unknown + c.format_mismatches + c.newer == results@.len(),
        c.outdated == reporter::count_status(results@, Status::Outdated),
        c.up_to_date == reporter::count_status(results@, Status::UpToDate),
        c.newer == reporter::count_status(results@, Status::Newer),
        c.format_mismatches == reporter::count_status(results@, Status::FormatMismatch),
        c.unknown == reporter::count_status(results@, Status::Unknown),
        c.hash_mismatches == reporter::count_mismatches(results@),
{
    reporter::law_counts_add_up(results@);
}

proof fn lemma_positions(
    results: Seq<CheckResult>,
    test: spec_fn(CheckResult) -> bool,
)
    ensures
        ({
            let p = reporter::positions(results, test);
            &&& forall|i: int| 0 <= i < results.len() && test(results[i]) ==> p.contains(i)
            &&& forall|k: int|
                0 <= k < p.len() ==> 0 <= #[trigger] p[k] < results.len() && test(results[p[k]])
            &&& forall|k: int, l: int| 0 <= k < l < p.len() ==> p[k] < p[l]
        }),
    decreases results.len(),
{
    if results.len() > 0 {
        let front = results.drop_last();
        lemma_positions(front, test);
        let q = reporter::positions(front, test);
        let p = reporter::positions(results, test);
        assert forall|i: int| 0 <= i < results.len() && test(results[i]) implies p.contains(i) by {
            if i < front.len() {
                assert(front[i] == results[i]);
                assert(q.contains(i));
                let k = choose|k: int| 0 <= k < q.len() && q[k] == i;
                assert(p[k] == i);
            } else {
                assert(p[p.len() - 1] == i);
            }
        }
        assert forall|k: int| 0 <= k < p.len() implies 0 <= #[trigger] p[k] < results.len() && test(
            results[p[k]],
        ) by {
            if k < q.len() {
                assert(p[k] == q[k]);
                assert(front[q[k]] == results[q[k]]);
            }
        }
        assert forall|k: int, l: int| 0 <= k < l < p.len() implies p[k] < p[l] by {
            assert(p[k] == q[k]);
            if l < q.len() {
                assert(p[l] == q[l]);
            }
        }
    }
}

/// The outdated packages and those with another hash are told by their positions,
/// each once, in order.
pub proof fn law_positions_of_results(
    results: &Vec<CheckResult>,
    i: int,
    a: Vec<usize>,
    b: Vec<usize>,
)
    requires
        call_ensures(reporter::outdated, (results,), a),
        call_ensures(reporter::mismatched, (results,), b),
        0 <= i < results@.len(),
        results@.len() <= usize::MAX,
    ensures
        a@.contains(i as usize) <==> results@[i].upstream@.is_outdated == Some(true),
        b@.contains(i as usize) <==> results@[i].upstream@.hash_mismatch == Some(true),
        forall|k: int, l: int| 0 <= k < l < a@.len() ==> a@[k] < a@[l],
        forall|k: int, l: int| 0 <= k < l < b@.len() ==> b@[k] < b@[l],
{
    let f = |c: CheckResult| reporter::says_outdated(c);
    let g = |c: CheckResult| reporter::says_mismatch(c);
    lemma_positions(results@, f);
    lemma_positions(results@, g);
    let p = reporter::as_positions(a@);
    let q = reporter::as_positions(b@);
    assert(p == reporter::positions(results@, f));
    assert(q == reporter::positions(results@, g));
    assert forall|k: int, l: int| 0 <= k < l < a@.len() implies a@[k] < a@[l] by {
        assert(p[k] == a@[k] && p[l] == a@[l]);
    }
    assert forall|k: int, l: int| 0 <= k < l < b@.len() implies b@[k] < b@[l] by {
        assert(q[k] == b@[k] && q[l] == b@[l]);
    }
    if f(results@[i]) {
        assert(reporter::positions(results@, f).contains(i));
        let k = choose|k: int| 0 <= k < p.len() && p[k] == i;
        assert(p[k] == a@[k] as int);
        assert(a@[k] == i as usize);
    }
    if g(results@[i]) {
        assert(reporter::positions(results@, g).contains(i));
        let k = choose|k: int| 0 <= k < q.len() && q[k] == i;
        assert(q[k] == b@[k] as int);
        assert(b@[k] == i as usize);
    }
    if a@.contains(i as usize) {
        let k = choose|k: int| 0 <= k < a@.len() && a@[k] == i as usize;
        assert(reporter::says_outdated(results@[a@[k] as int]));
    }
    if b@.contains(i as usize) {
        let k = choose|k: int| 0 <= k < b@.len() && b@[k] == i as usize;
        assert(reporter::says_mismatch(results@[b@[k] as int]));
    }
}

/// A package stands in the directory that holds its makefile.
pub proof fn law_directories_of_packages(path: &str, front: Seq<char>, d: Seq<char>, r: String)
    requires
        call_ensures(reporter::dir_name, (path,), r),
        d.len() > 0,
        !d.contains('/'),
        d != "."@,
        d != ".."@,
        path@ == d + "/Makefile"@ || path@ == front + seq!['/'] + d + "/Makefile"@,
        !front.contains('/'),
    ensures
        r@ == d,
{
    reveal_strlit("/Makefile");
    reveal_strlit("Makefile");
    reveal_strlit(".");
    let m = "Makefile"@;
    assert("/Makefile"@ =~= seq!['/'] + m);
    assert(m.len() == 8 && "."@.len() == 1);
    lemma_no_slash(d);
    lemma_no_slash(front);
    assert(!m.contains('/'));
    lemma_no_slash(m);
    text::lemma_split_front(m, m, '/');
    text::lemma_split_front(d, m, '/');
    let tail = d + seq!['/'] + m;
    text::lemma_split_front(front, tail, '/');
    assert(d + "/Makefile"@ =~= tail);
    assert(front + seq!['/'] + d + "/Makefile"@ =~= front + seq!['/'] + tail);
    let x = seq![d, m];
    assert(text::split_on(tail, '/') =~= x);
    let y = seq![front, d, m];
    assert(text::split_on(front + seq!['/'] + tail, '/') =~= y);
    let none = Seq::<Seq<char>>::empty();
    assert(x.drop_last() =~= seq![d]);
    assert(seq![d].drop_last() =~= none);
    assert(reporter::path_names(none) =~= none);
    assert(reporter::path_names(seq![d]) =~= seq![d]);
    assert(reporter::path_names(x) =~= seq![d, m]);
    assert(y.drop_last() =~= seq![front, d]);
    assert(seq![front, d].drop_last() =~= seq![front]);
    assert(seq![front].drop_last() =~= none);
    let f = reporter::path_names(seq![front]);
    assert(reporter::path_names(seq![front, d]) =~= f.push(d));
    assert(reporter::path_names(y) =~= f.push(d).push(m));
}

/// A makefile that stands in no directory, or in the one above, has no directory's
/// name.
pub proof fn law_makefiles_without_directory(path: &str, r: String)
    requires
        call_ensures(reporter::dir_name, (path,), r),
        path@ == "Makefile"@ || path@ == "./Makefile"@ || path@ == "../Makefile"@,
    ensures
        r@.len() == 0,
{
    reveal_strlit("Makefile");
    reveal_strlit("./Makefile");
    reveal_strlit("../Makefile");
    reveal_strlit(".");
    reveal_strlit("..");
    let m = "Makefile"@;
    let here = "."@;
    let up = ".."@;
    assert(!m.contains('/'));
    assert(!here.contains('/'));
    assert(!up.contains('/'));
    lemma_no_slash(m);
    lemma_no_slash(here);
    lemma_no_slash(up);
    assert("./Makefile"@ =~= here + seq!['/'] + m);
    assert("../Makefile"@ =~= up + seq!['/'] + m);
    text::lemma_split_front(m, m, '/');
    text::lemma_split_front(here, m, '/');
    text::lemma_split_front(up, m, '/');
    let none = Seq::<Seq<char>>::empty();
    assert(m.len() == 8 && here.len() == 1 && up.len() == 2);
    assert(seq![m].drop_last() =~= none);
    assert(reporter::path_names(none) =~= none);
    assert(reporter::path_names(seq![m]) =~= seq![m]);
    assert(text::split_on(here + seq!['/'] + m, '/') =~= seq![here, m]);
    assert(seq![here, m].drop_last() =~= seq![here]);
    assert(seq![here].drop_last() =~= none);
    assert(reporter::path_names(seq![here]) =~= none);
    assert(reporter::path_names(seq![here, m]) =~= seq![m]);
    assert(text::split_on(up + seq!['/'] + m, '/') =~= seq![up, m]);
    assert(seq![up, m].drop_last() =~= seq![up]);
    assert(seq![up].drop_last() =~= none);
    assert(reporter::path_names(seq![up]) =~= seq![up]);
    assert(reporter::path_names(seq![up, m]) =~= seq![up, m]);
}

proof fn lemma_no_slash(s: Seq<char>)
    requires
        !s.contains('/'),
    ensures
        text::all_in(s, Class::Not('/')),
{
    assert forall|i: int| 0 <= i < s.len() implies Class::Not('/').has(#[trigger] s[i]) by {
        assert(s.contains(s[i]));
    }
}

/// The columns of a report, one for each header.
pub proof fn law_columns_of_reports(
    result: &CheckResult,
    lang: Lang,
    row: Vec<String>,
    head: Vec<String>,
)
    requires
        call_ensures(reporter::row_data, (result, lang), row),
        call_ensures(reporter::headers, (lang,), head),
    ensures
        row@.len() == 12,
        head@.len() == row@.len(),
        ({
            let i = result.upstream@;
            &&& row@[0]@ == i.pkg_name
            &&& row@[2]@ == i.current_version
            &&& i.latest_version is Some ==> row@[3]@ == i.latest_version->0
            &&& i.latest_version is None ==> row@[3]@.len() == 0
            &&& row@[6]@ == i.source_backend
            &&& i.upstream_url is Some ==> row@[9]@ == i.upstream_url->0
            &&& i.check_error is Some ==> row@[10]@ == i.check_error->0
            &&& i.check_error is None ==> row@[10]@.len() == 0
            &&& row@[11]@ == result.parsed.path@
            &&& row@[4]@ == reporter::status_word(reporter::status_of(i), lang)
            &&& row@[7]@ == reporter::hash_word(i.hash_mismatch, lang)
            &&& i.latest_commit is Some ==> row@[8]@ == i.latest_commit->0
            &&& i.latest_tag is Some && i.latest_commit is None ==> row@[5]@ == i.latest_tag->0
            &&& i.latest_tag is Some && i.latest_commit is Some ==> row@[5]@ == i.latest_tag->0
                + seq![' ', '('] + text::byte_prefix(i.latest_commit->0, 8) + seq![')']
            &&& i.latest_tag is None && i.latest_commit is Some ==> row@[5]@ == text::byte_prefix(
                i.latest_commit->0,
                12,
            )
        }),
        ({
            let en = lang is En;
            &&& en ==> head@[0]@ == i18n::HDR_PKG_NAME.0@
            &&& en ==> head@[3]@ == i18n::HDR_LATEST.0@
            &&& en ==> head@[4]@ == i18n::HDR_STATUS.0@
            &&& en ==> head@[7]@ == i18n::HDR_HASH_STATUS.0@
            &&& en ==> head@[11]@ == i18n::HDR_PATH.0@
        }),
{
    reveal_strlit(" (");
    reveal_strlit(")");
    assert(" ("@ =~= seq![' ', '(']);
    assert(")"@ =~= seq![')']);
    let t = text::texts(row@);
    let h = text::texts(head@);
    assert(t.len() == 12 && h.len() == 12);
    assert forall|k: int| 0 <= k < 12 implies #[trigger] row@[k]@ == t[k] && #[trigger] head@[k]@
        == h[k] by {}
}

/// A row of the table has a dash where there is no version and no tag or commit.
pub proof fn law_rows_of_the_table(info: &UpstreamInfo, lang: Lang, row: Vec<String>)
    requires
        call_ensures(reporter::table_row, (info, lang), row),
    ensures
        row@.len() == 8,
        row@[0]@ == info@.pkg_name,
        row@[1]@ == info@.current_version,
        info@.latest_version is Some ==> row@[2]@ == info@.latest_version->0,
        info@.latest_version is None ==> row@[2]@ == "-"@,
        row@[3]@ == reporter::status_word(reporter::status_of(info@), lang),
        info@.latest_tag is None && info@.latest_commit is None ==> row@[4]@ == "-"@,
        info@.latest_tag is Some && info@.latest_commit is None ==> row@[4]@
            == info@.latest_tag->0,
        row@[5]@ == info@.source_backend,
        row@[6]@ == reporter::hash_word(info@.hash_mismatch, lang),
        info@.check_error is Some ==> row@[7]@ == info@.check_error->0,
        info@.check_error is None ==> row@[7]@.len() == 0,
{
    let t = text::texts(row@);
    assert(t.len() == 8);
    assert forall|k: int| 0 <= k < 8 implies #[trigger] row@[k]@ == t[k] by {}
}

/// A cell is marked by the status of its package; that of the hash by a mismatch.
pub proof fn law_marks_of_cells(info: &UpstreamInfo, column: usize, r: CellStyle)
    requires
        call_ensures(reporter::cell_style, (info, column), r),
    ensures
        column == 7 && info@.hash_mismatch == Some(true) <==> r is HashMismatch,
        column != 7 ==> r == CellStyle::Of(reporter::status_of(info@)),
{
}

/// The tag and the commit of a result behind its version, where it has them.
pub proof fn law_details_of_results(info: &UpstreamInfo, r: String)
    requires
        call_ensures(reporter::detail_text, (info,), r),
    ensures
        info@.latest_tag is None && info@.latest_commit is None ==> r@.len() == 0,
        info@.latest_tag is Some && info@.latest_commit is None ==> r@ == " [tag: "@
            + info@.latest_tag->0 + "]"@,
        info@.latest_tag is None && info@.latest_commit is Some ==> r@ == " [commit: "@
            + text::byte_prefix(info@.latest_commit->0, 12) + "]"@,
        info@.latest_tag is Some && info@.latest_commit is Some ==> r@ == " [tag: "@
            + info@.latest_tag->0 + "]"@ + " [commit: "@ + text::byte_prefix(
            info@.latest_commit->0,
            12,
        ) + "]"@,
{
    let none = Seq::<char>::empty();
    if info@.latest_tag is Some {
        let a = " [tag: "@ + info@.latest_tag->0 + "]"@;
        assert(a + none =~= a);
        if info@.latest_commit is Some {
            let c = text::byte_prefix(info@.latest_commit->0, 12);
            assert(a + (" [commit: "@ + c + "]"@) =~= a + " [commit: "@ + c + "]"@);
        }
    } else if info@.latest_commit is Some {
        let b = " [commit: "@ + text::byte_prefix(info@.latest_commit->0, 12) + "]"@;
        assert(none + b =~= b);
    }
}

} // verus!

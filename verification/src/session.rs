//! The decisions of a session: what the answers to its questions mean, which
//! packages are checked by which rule, and what is fetched and written.

use crate::config::PkgRule;
use crate::i18n::Lang;
use crate::makefile_parser::{group_text, match_of, ParsedMakefile};
use crate::makefile_updater::MakefileUpdate;
use crate::outside;
use crate::patterns;
use crate::text;
use crate::upstream::{Info, UpstreamInfo};
use vstd::prelude::*;

verus! {

// ─────────────────────────────────── answers ─────────────────────────────────

/// The items of a list with commas, without white space round them and without
/// empty ones.
pub open spec fn items_of(parts: Seq<Seq<char>>) -> Seq<Seq<char>>
    decreases parts.len(),
{
    if parts.len() == 0 {
        Seq::empty()
    } else if text::trim(parts.last()).len() == 0 {
        items_of(parts.drop_last())
    } else {
        items_of(parts.drop_last()).push(text::trim(parts.last()))
    }
}

/// The items of a list with commas.
pub fn list_items(answer: &str) -> (r: Vec<String>)
    ensures
        text::texts(r@) == items_of(text::split_on(answer@, ',')),
{
    broadcast use text::lemma_texts_push;

    let parts = text::parts_of(answer, ',');
    let ghost all = text::texts(parts@);
    let mut out: Vec<String> = Vec::new();
    proof {
        assert(text::texts(out@) =~= Seq::<Seq<char>>::empty());
    }
    for i in 0..parts.len()
        invariant
            all == text::texts(parts@),
            text::texts(out@) == items_of(all.take(i as int)),
    {
        proof {
            assert(all.take(i + 1).drop_last() =~= all.take(i as int));
        }
        let item = text::trimmed(parts[i].as_str());
        if text::length(&item) > 0 {
            out.push(item);
        }
    }
    assert(all.take(parts@.len() as int) =~= all);
    out
}

/// The positive number that an answer writes, up to `max`; else the old one.
pub open spec fn positive_or(answer: Seq<char>, max: nat, old_value: nat) -> nat {
    match text::parse_uint(text::trim(answer), max) {
        Some(n) => if n > 0 {
            n
        } else {
            old_value
        },
        None => old_value,
    }
}

/// The number of jobs that an answer sets.
pub fn jobs_answer(answer: &str, old_value: usize) -> (r: usize)
    ensures
        r == positive_or(answer@, usize::MAX as nat, old_value as nat),
{
    match text::parse_number(&text::trimmed(answer), usize::MAX as u64) {
        Some(n) => if n > 0 {
            n as usize
        } else {
            old_value
        },
        None => old_value,
    }
}

/// The timeout that an answer sets.
pub fn timeout_answer(answer: &str, old_value: u64) -> (r: u64)
    ensures
        r == positive_or(answer@, u64::MAX as nat, old_value as nat),
{
    match text::parse_number(&text::trimmed(answer), u64::MAX) {
        Some(n) => if n > 0 {
            n
        } else {
            old_value
        },
        None => old_value,
    }
}

/// The number of retries that an answer sets.
pub fn retry_answer(answer: &str, old_value: u32) -> (r: u32)
    ensures
        r == (match text::parse_uint(text::trim(answer@), u32::MAX as nat) {
            Some(n) => n as int,
            None => old_value as int,
        }),
{
    match text::parse_number(&text::trimmed(answer), u32::MAX as u64) {
        Some(n) => n as u32,
        None => old_value,
    }
}

/// The token that an answer sets, none if it is empty.
pub fn token_answer(answer: &str) -> (r: Option<String>)
    ensures
        text::opt_text(r) == (if answer@.len() == 0 {
            None
        } else {
            Some(answer@)
        }),
{
    if text::length(answer) == 0 {
        None
    } else {
        Some(text::own(answer))
    }
}

/// The path that an answer sets, none if it is blank.
pub fn path_answer(answer: &str) -> (r: Option<String>)
    ensures
        text::opt_text(r) == (if text::trim(answer@).len() == 0 {
            None
        } else {
            Some(text::trim(answer@))
        }),
{
    let path = text::trimmed(answer);
    if text::length(&path) == 0 {
        None
    } else {
        Some(path)
    }
}

/// The language at a place of the menu.
pub fn lang_at(place: usize) -> (r: Lang)
    ensures
        r == (if place == 1 {
            Lang::Zh
        } else {
            Lang::En
        }),
{
    if place == 1 {
        Lang::Zh
    } else {
        Lang::En
    }
}

/// What is done next in the main menu.
#[derive(Debug, Clone, Copy, PartialEq, Eq, Structural)]
pub enum MainAction {
    Run,
    Configure,
    Quit,
}

/// What is done at a place of the main menu.
pub fn main_action(place: usize) -> (r: MainAction)
    ensures
        r == (if place == 0 {
            MainAction::Run
        } else if place == 1 {
            MainAction::Configure
        } else {
            MainAction::Quit
        }),
{
    match place {
        0 => MainAction::Run,
        1 => MainAction::Configure,
        _ => MainAction::Quit,
    }
}

/// What is done with outdated packages: whether hashes are fetched, and whether
/// makefiles are updated.
pub fn outdated_action(place: usize) -> (r: (bool, bool))
    ensures
        r.0 == (place == 0 || place == 2),
        r.1 == (place == 1 || place == 2),
{
    (place == 0 || place == 2, place == 1 || place == 2)
}

// ───────────────────────────── packages and rules ────────────────────────────

/// Whether a list holds a name.
pub open spec fn lists(names: Seq<Seq<char>>, name: Seq<char>) -> bool {
    exists|i: int| 0 <= i < names.len() && #[trigger] names[i] == name
}

/// Whether a package is skipped.
pub fn is_skipped(skip_packages: &Vec<String>, name: &str) -> (r: bool)
    ensures
        r == lists(text::texts(skip_packages@), name@),
{
    for i in 0..skip_packages.len()
        invariant
            forall|j: int| 0 <= j < i ==> (#[trigger] skip_packages@[j])@ != name@,
    {
        if text::same(skip_packages[i].as_str(), name) {
            assert(text::texts(skip_packages@)[i as int] == name@);
            return true;
        }
    }
    assert forall|i: int| 0 <= i < text::texts(skip_packages@).len() implies #[trigger] text::texts(
        skip_packages@,
    )[i] != name@ by {
        assert(skip_packages@[i]@ != name@);
    }
    false
}

/// Whether a directory entry is looked into: not where its name starts with a
/// dot, unless the search starts there, nor where it is a directory whose path,
/// with a slash behind it, holds a pattern that is skipped.
pub open spec fn is_searched(
    name: Seq<char>,
    is_root: bool,
    is_dir: bool,
    path: Seq<char>,
    skip_patterns: Seq<Seq<char>>,
) -> bool {
    &&& is_root || !text::starts_in(name, crate::text::Class::Is('.'))
    &&& is_dir ==> forall|i: int|
        0 <= i < skip_patterns.len() ==> !text::contains(
            path + "/"@,
            #[trigger] skip_patterns[i],
        )
}

/// Whether a directory entry is looked into.
pub fn enters(
    name: &str,
    is_root: bool,
    is_dir: bool,
    path: &str,
    skip_patterns: &Vec<String>,
) -> (r: bool)
    ensures
        r == is_searched(name@, is_root, is_dir, path@, text::texts(skip_patterns@)),
{
    if !is_root && text::first_in(name, crate::text::Class::Is('.')) {
        return false;
    }
    if is_dir {
        let dir = text::concat(path, "/");
        for i in 0..skip_patterns.len()
            invariant
                is_dir,
                dir@ == path@ + "/"@,
                forall|j: int|
                    0 <= j < i ==> !text::contains(
                        dir@,
                        #[trigger] text::texts(skip_patterns@)[j],
                    ),
        {
            if text::has(&dir, skip_patterns[i].as_str()) {
                assert(text::contains(dir@, text::texts(skip_patterns@)[i as int]));
                return false;
            }
        }
    }
    true
}

/// Whether a file is a package makefile by its name.
pub fn is_makefile(name: &str, is_file: bool) -> (r: bool)
    ensures
        r == (is_file && name@ == "Makefile"@),
{
    is_file && text::same(name, "Makefile")
}

/// The position of the rule of a package, the last one of its name.
pub open spec fn rule_at(rules: Seq<(String, PkgRule)>, name: Seq<char>) -> Option<int>
    decreases rules.len(),
{
    if rules.len() == 0 {
        None
    } else if rules.last().0@ == name {
        Some(rules.len() - 1)
    } else {
        rule_at(rules.drop_last(), name)
    }
}

/// A copy of a rule.
pub fn copy_rule(rule: &PkgRule) -> (r: PkgRule)
    ensures
        r.same_but_prerelease(*rule),
        r.include_prerelease == rule.include_prerelease,
{
    PkgRule {
        ignore_regex: text::own_all(&rule.ignore_regex),
        min_version: text::own_opt(&rule.min_version),
        max_version: text::own_opt(&rule.max_version),
        strip_prefix: text::own_opt(&rule.strip_prefix),
        strip_suffix: text::own_opt(&rule.strip_suffix),
        include_prerelease: rule.include_prerelease,
        url_regex_url: text::own_opt(&rule.url_regex_url),
        url_regex_pattern: text::own_opt(&rule.url_regex_pattern),
        skip: rule.skip,
        github: text::own_opt(&rule.github),
        gitlab: text::own_opt(&rule.gitlab),
        gitea: text::own_opt(&rule.gitea),
    }
}

/// Whether a rule is the one by which a package is checked: its own, or one that
/// sets nothing; pre-releases count where its own rule or the configuration says
/// so.
pub open spec fn is_rule_for(
    r: PkgRule,
    rules: Seq<(String, PkgRule)>,
    name: Seq<char>,
    include_prerelease: bool,
) -> bool {
    match rule_at(rules, name) {
        Some(i) => r.same_but_prerelease(rules[i].1) && r.include_prerelease == (
        rules[i].1.include_prerelease || include_prerelease),
        None => (PkgRule { include_prerelease: false, ..r }).is_empty() && r.include_prerelease
            == include_prerelease,
    }
}

/// The rule by which a package is checked.
pub fn rule_for(
    rules: &Vec<(String, PkgRule)>,
    name: &str,
    include_prerelease: bool,
) -> (r: PkgRule)
    ensures
        is_rule_for(r, rules@, name@, include_prerelease),
{
    let mut i: usize = rules.len();
    proof {
        assert(rules@.take(rules@.len() as int) =~= rules@);
    }
    while i > 0
        invariant
            i <= rules@.len(),
            rule_at(rules@.take(i as int), name@) == rule_at(rules@, name@),
        decreases i,
    {
        proof {
            assert(rules@.take(i as int).drop_last() =~= rules@.take(i - 1));
            assert(rules@.take(i as int).last() == rules@[i - 1]);
        }
        if text::same(rules[i - 1].0.as_str(), name) {
            let mut r = copy_rule(&rules[i - 1].1);
            r.include_prerelease = r.include_prerelease || include_prerelease;
            return r;
        }
        i = i - 1;
    }
    let mut r = PkgRule::default();
    r.include_prerelease = include_prerelease;
    r
}

/// What a rule sets, in words.
pub open spec fn rule_words(rule: PkgRule) -> Seq<Seq<char>> {
    let none = Seq::<Seq<char>>::empty();
    (if rule.ignore_regex@.len() > 0 {
        seq!["ignore_regex=["@ + text::join(text::texts(rule.ignore_regex@), ","@) + "]"@]
    } else {
        none
    }) + (match rule.min_version {
        Some(v) => seq!["min="@ + v@],
        None => none,
    }) + (match rule.max_version {
        Some(v) => seq!["max="@ + v@],
        None => none,
    }) + (match rule.strip_prefix {
        Some(v) => seq!["strip_prefix="@ + v@],
        None => none,
    }) + (match rule.strip_suffix {
        Some(v) => seq!["strip_suffix="@ + v@],
        None => none,
    }) + (if rule.include_prerelease {
        seq!["include_prerelease"@]
    } else {
        none
    }) + (match rule.url_regex_url {
        Some(v) => seq!["url_regex_url="@ + v@],
        None => none,
    })
}

/// Adds a setting and its value, if it has one.
fn add_setting(words: &mut Vec<String>, setting: &str, value: &Option<String>)
    ensures
        text::texts(final(words)@) == text::texts(old(words)@) + (match *value {
            Some(v) => seq![setting@ + v@],
            None => Seq::<Seq<char>>::empty(),
        }),
{
    broadcast use text::lemma_texts_push;

    let ghost was = text::texts(words@);
    match value {
        Some(v) => {
            words.push(text::concat(setting, v));
            assert(was.push(setting@ + v@) =~= was + seq![setting@ + v@]);
        },
        None => {
            assert(was + Seq::<Seq<char>>::empty() =~= was);
        },
    }
}

/// What a rule sets, in words.
pub fn rule_summary(rule: &PkgRule) -> (r: String)
    ensures
        r@ == text::join(rule_words(*rule), "  "@),
{
    broadcast use text::lemma_texts_push;

    let mut words: Vec<String> = Vec::new();
    let ghost none = Seq::<Seq<char>>::empty();
    proof {
        assert(text::texts(words@) =~= none);
    }
    if rule.ignore_regex.len() > 0 {
        words.push(
            text::concat3("ignore_regex=[", &text::joined(&rule.ignore_regex, ","), "]"),
        );
        assert(text::texts(words@) =~= seq![
            "ignore_regex=["@ + text::join(text::texts(rule.ignore_regex@), ","@) + "]"@,
        ]);
    }
    add_setting(&mut words, "min=", &rule.min_version);
    add_setting(&mut words, "max=", &rule.max_version);
    add_setting(&mut words, "strip_prefix=", &rule.strip_prefix);
    add_setting(&mut words, "strip_suffix=", &rule.strip_suffix);
    let ghost was = text::texts(words@);
    if rule.include_prerelease {
        words.push(text::own("include_prerelease"));
        assert(was.push("include_prerelease"@) =~= was + seq!["include_prerelease"@]);
    } else {
        assert(was + none =~= was);
    }
    add_setting(&mut words, "url_regex_url=", &rule.url_regex_url);
    assert(text::texts(words@) =~= rule_words(*rule));
    text::joined(&words, "  ")
}

// ──────────────────────────────── what is fetched ────────────────────────────

/// Where the latest commit of a package is asked for.
#[derive(Debug, Clone)]
pub enum CommitSource {
    /// nowhere: the package follows no commits
    Untracked,
    GitHub { owner: String, repo: String },
    GitLab { host: String, owner: String, repo: String },
    /// its URL tells no host that could be asked
    NoHost,
}

/// What a commit source says.
pub enum CommitPlace {
    Untracked,
    GitHub { owner: Seq<char>, repo: Seq<char> },
    GitLab { host: Seq<char>, owner: Seq<char>, repo: Seq<char> },
    NoHost,
}

impl View for CommitSource {
    type V = CommitPlace;

    open spec fn view(&self) -> CommitPlace {
        match self {
            CommitSource::Untracked => CommitPlace::Untracked,
            CommitSource::GitHub { owner, repo } => CommitPlace::GitHub {
                owner: owner@,
                repo: repo@,
            },
            CommitSource::GitLab { host, owner, repo } => CommitPlace::GitLab {
                host: host@,
                owner: owner@,
                repo: repo@,
            },
            CommitSource::NoHost => CommitPlace::NoHost,
        }
    }
}

/// What is said where a URL tells no host that could be asked.
pub const NO_HOST: &'static str = "cannot determine git host from source URL";

/// Where the latest commit is asked for, by what the patterns find in the URL.
pub open spec fn place_by(
    github: Option<Seq<Option<Seq<char>>>>,
    gitlab: Option<Seq<Option<Seq<char>>>>,
) -> CommitPlace {
    if let Some(g) = github {
        CommitPlace::GitHub { owner: outside::group(g, 1), repo: outside::group(g, 2) }
    } else if let Some(g) = gitlab {
        CommitPlace::GitLab {
            host: outside::group(g, 1),
            owner: outside::group(g, 2),
            repo: outside::group(g, 3),
        }
    } else {
        CommitPlace::NoHost
    }
}

/// Where the latest commit of a package is asked for: a package follows commits
/// where PKG_SOURCE_VERSION takes at least twelve bytes.
pub open spec fn commit_place(p: ParsedMakefile) -> CommitPlace {
    if p.pkg_source_version is None || vstd::utf8::encode_utf8(p.pkg_source_version->0@).len()
        < 12 {
        CommitPlace::Untracked
    } else {
        match p.source_url {
            Some(u) => place_by(
                outside::regex_captures(patterns::GITHUB_REPO@, u@),
                outside::regex_captures(patterns::GITLAB_REPO@, u@),
            ),
            None => CommitPlace::NoHost,
        }
    }
}

/// Where the latest commit is asked for, by what the patterns find in the URL.
pub fn choose_commit_source(
    github: &Option<Vec<Option<String>>>,
    gitlab: &Option<Vec<Option<String>>>,
) -> (r: CommitSource)
    ensures
        r@ == place_by(match_of(*github), match_of(*gitlab)),
{
    if let Some(g) = github {
        return CommitSource::GitHub { owner: group_text(g, 1), repo: group_text(g, 2) };
    }
    if let Some(g) = gitlab {
        return CommitSource::GitLab {
            host: group_text(g, 1),
            owner: group_text(g, 2),
            repo: group_text(g, 3),
        };
    }
    CommitSource::NoHost
}

/// Where the latest commit of a package is asked for.
pub fn commit_source(parsed: &ParsedMakefile) -> (r: CommitSource)
    ensures
        r@ == commit_place(*parsed),
{
    match &parsed.pkg_source_version {
        Some(v) => if v.as_str().as_bytes().len() < 12 {
            return CommitSource::Untracked;
        },
        None => {
            return CommitSource::Untracked;
        },
    }
    match &parsed.source_url {
        Some(u) => {
            let github = outside::captures(patterns::GITHUB_REPO, u);
            let gitlab = outside::captures(patterns::GITLAB_REPO, u);
            choose_commit_source(&github, &gitlab)
        },
        None => CommitSource::NoHost,
    }
}

/// The tarball of the latest version.
#[derive(Debug, Clone)]
pub enum Tarball {
    NoUrl,
    NoFile,
    NoVersion,
    At { url: String, fname: String },
}

/// What is known of the tarball of the latest version.
pub enum TarballPlace {
    NoUrl,
    NoFile,
    NoVersion,
    At { url: Seq<char>, fname: Seq<char> },
}

impl View for Tarball {
    type V = TarballPlace;

    open spec fn view(&self) -> TarballPlace {
        match self {
            Tarball::NoUrl => TarballPlace::NoUrl,
            Tarball::NoFile => TarballPlace::NoFile,
            Tarball::NoVersion => TarballPlace::NoVersion,
            Tarball::At { url, fname } => TarballPlace::At { url: url@, fname: fname@ },
        }
    }
}

/// The tarball of the latest version: the URL and the file of the current one
/// with the new version in place of the old.
pub open spec fn new_tarball_of(p: ParsedMakefile, info: Info) -> TarballPlace {
    match (p.source_url, p.source_file, info.latest_version) {
        (None, _, _) => TarballPlace::NoUrl,
        (Some(_), None, _) => TarballPlace::NoFile,
        (Some(_), Some(_), None) => TarballPlace::NoVersion,
        (Some(u), Some(f), Some(v)) => TarballPlace::At {
            url: text::replace(u@, p.pkg_version@, v),
            fname: text::replace(f@, p.pkg_version@, v),
        },
    }
}

/// The tarball of the latest version.
pub fn new_tarball(parsed: &ParsedMakefile, info: &UpstreamInfo) -> (r: Tarball)
    ensures
        r@ == new_tarball_of(*parsed, info@),
{
    match (&parsed.source_url, &parsed.source_file, &info.latest_version) {
        (None, _, _) => Tarball::NoUrl,
        (Some(_), None, _) => Tarball::NoFile,
        (Some(_), Some(_), None) => Tarball::NoVersion,
        (Some(u), Some(f), Some(v)) => Tarball::At {
            url: text::replaced(u, &parsed.pkg_version, v),
            fname: text::replaced(f, &parsed.pkg_version, v),
        },
    }
}

// ──────────────────────────────── what is written ────────────────────────────

/// Whether there is something to write for a result: it found a version of the
/// same format, and one of the variables is to be set.
pub open spec fn is_writable(info: Info) -> bool {
    &&& info.latest_version is Some
    &&& !info.format_mismatch
    &&& info.write_pkg_version is Some || info.write_pkg_source_version is Some
        || info.write_pkg_source_date is Some
}

/// What is to be written for a result: its write fields, and the hash of the new
/// tarball if it was fetched.  None where there is nothing to write.
pub fn update_for(info: &UpstreamInfo, hash: &Option<String>) -> (r: Option<MakefileUpdate>)
    ensures
        match r {
            Some(u) => is_writable(info@) && text::opt_text(u.pkg_version)
                == info@.write_pkg_version && text::opt_text(u.pkg_source_version)
                == info@.write_pkg_source_version && text::opt_text(u.pkg_source_date)
                == info@.write_pkg_source_date && text::opt_text(u.pkg_hash) == text::opt_text(
                *hash,
            ),
            None => !is_writable(info@),
        },
{
    if info.latest_version.is_none() || info.format_mismatch {
        return None;
    }
    if info.write_pkg_version.is_none() && info.write_pkg_source_version.is_none()
        && info.write_pkg_source_date.is_none() {
        return None;
    }
    Some(
        MakefileUpdate {
            pkg_version: text::own_opt(&info.write_pkg_version),
            pkg_source_version: text::own_opt(&info.write_pkg_source_version),
            pkg_source_date: text::own_opt(&info.write_pkg_source_date),
            pkg_hash: text::own_opt(hash),
        },
    )
}

/// A result with what was fetched for it.
pub open spec fn with_fetched(
    info: Info,
    hash: Option<Seq<char>>,
    commit: Option<Seq<char>>,
    error: Option<Seq<char>>,
) -> Info {
    Info {
        latest_hash_sha256: if hash is Some {
            hash
        } else {
            info.latest_hash_sha256
        },
        upstream_commit: if commit is Some {
            commit
        } else {
            info.upstream_commit
        },
        check_error: if error is Some {
            error
        } else {
            info.check_error
        },
        ..info
    }
}

/// Adds what was fetched to a result: the hash of the new tarball, the latest
/// commit, and what went wrong.
pub fn add_fetched(
    info: &mut UpstreamInfo,
    hash: Option<String>,
    commit: Option<String>,
    error: Option<String>,
)
    ensures
        final(info)@ == with_fetched(
            old(info)@,
            text::opt_text(hash),
            text::opt_text(commit),
            text::opt_text(error),
        ),
{
    if hash.is_some() {
        info.latest_hash_sha256 = hash;
    }
    if commit.is_some() {
        info.upstream_commit = commit;
    }
    if error.is_some() {
        info.check_error = error;
    }
}

} // verus!

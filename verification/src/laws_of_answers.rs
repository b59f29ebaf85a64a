//! What the answers of registries and forges are taken for.

use crate::laws_of_make;
use crate::laws_of_texts;
use crate::laws_of_versions;
use crate::makefile_parser::ParsedMakefile;
use crate::outside;
use crate::pages;
use crate::patterns;
use crate::registries;
use crate::registries::{AnityaProject, KernelRelease, RepologyPackage};
use crate::tags;
use crate::text;
use crate::text::Class;
use crate::upstream::{Info, UpstreamInfo};
use crate::version;
use vstd::prelude::*;

verus! {

// ────────────────────────────── the newest version ───────────────────────────

/// Whether no candidate is above the one at a position; where `first`, those before
/// it are below it, otherwise those behind it are.
pub open spec fn is_highest(c: Seq<Option<Seq<char>>>, b: int, first: bool) -> bool {
    &&& 0 <= b < c.len()
    &&& c[b] is Some
    &&& forall|i: int|
        0 <= i < c.len() && #[trigger] c[i] is Some ==> !laws_of_versions::is_below(
            c[b]->0,
            c[i]->0,
        )
    &&& forall|i: int|
        0 <= i < c.len() && #[trigger] c[i] is Some && (if first {
            i < b
        } else {
            i > b
        }) ==> laws_of_versions::is_below(c[i]->0, c[b]->0)
}

/// Whether every candidate is a version of plain numbers.
pub open spec fn are_plain(c: Seq<Option<Seq<char>>>) -> bool {
    forall|i: int|
        0 <= i < c.len() && #[trigger] c[i] is Some ==> version::is_plain_version(c[i]->0)
}

proof fn lemma_not_below(a: Seq<char>, b: Seq<char>, c: Seq<char>)
    requires
        version::is_plain_version(a),
        version::is_plain_version(b),
        version::is_plain_version(c),
        !laws_of_versions::is_below(a, b),
        !laws_of_versions::is_below(b, c),
    ensures
        !laws_of_versions::is_below(a, c),
        laws_of_versions::is_below(b, a) || laws_of_versions::is_below(c, b)
            ==> laws_of_versions::is_below(c, a),
{
    laws_of_versions::law_first_difference_orders(a, b);
    laws_of_versions::law_first_difference_orders(b, c);
    laws_of_versions::law_first_difference_orders(a, c);
    version::law_numbers_decide(a, b);
    version::law_numbers_decide(b, c);
    version::law_numbers_decide(a, c);
    version::law_numbers_are_ordered(a, b, c);
    if !laws_of_versions::is_below(c, a) {
        version::law_order_is_symmetric(a, c);
        version::law_order_is_symmetric(a, b);
        version::law_order_is_symmetric(b, c);
        version::law_numbers_decide(c, a);
        version::law_numbers_decide(b, a);
        version::law_numbers_decide(c, b);
        laws_of_versions::law_first_difference_orders(c, a);
        version::law_numbers_are_ordered(c, a, b);
        version::law_numbers_are_ordered(b, c, a);
    }
}

/// The newest of some versions of plain numbers is one that no other is above, and
/// the first of those, or the last; there is none only where there is no candidate.
pub proof fn law_newest_is_highest(c: Seq<Option<Seq<char>>>)
    requires
        are_plain(c),
    ensures
        match tags::newest(c) {
            Some(b) => is_highest(c, b, true),
            None => forall|i: int| 0 <= i < c.len() ==> #[trigger] c[i] is None,
        },
        match tags::newest_last(c) {
            Some(b) => is_highest(c, b, false),
            None => forall|i: int| 0 <= i < c.len() ==> #[trigger] c[i] is None,
        },
    decreases c.len(),
{
    tags::lemma_newest(c);
    if c.len() > 0 {
        let front = c.drop_last();
        let n = c.len() - 1;
        assert forall|i: int| 0 <= i < n implies #[trigger] front[i] == c[i] by {}
        law_newest_is_highest(front);
        if let Some(v) = c.last() {
            assert(c[n] is Some);
            lemma_step(c, tags::newest(front), true);
            lemma_step(c, tags::newest_last(front), false);
        } else {
            lemma_same(c, tags::newest(front), true);
            lemma_same(c, tags::newest_last(front), false);
        }
    }
}

proof fn lemma_same(c: Seq<Option<Seq<char>>>, best: Option<int>, first: bool)
    requires
        c.len() > 0,
        c.last() is None,
    ensures
        best matches Some(b) && is_highest(c.drop_last(), b, first) ==> is_highest(c, best->0, first),
{
    let front = c.drop_last();
    if best is Some && is_highest(front, best->0, first) {
        let b = best->0;
        assert forall|i: int| 0 <= i < c.len() && #[trigger] c[i] is Some implies i < front.len()
            && front[i] == c[i] by {}
        assert(front[b] == c[b]);
        assert forall|i: int|
            0 <= i < c.len() && #[trigger] c[i] is Some implies !laws_of_versions::is_below(
            c[b]->0,
            c[i]->0,
        ) by {
            assert(front[i] is Some);
        }
        assert forall|i: int|
            0 <= i < c.len() && #[trigger] c[i] is Some && (if first {
                i < b
            } else {
                i > b
            }) implies laws_of_versions::is_below(c[i]->0, c[b]->0) by {
            assert(front[i] is Some);
        }
    }
}

proof fn lemma_step(c: Seq<Option<Seq<char>>>, best: Option<int>, first: bool)
    requires
        c.len() > 0,
        c.last() is Some,
        are_plain(c),
        match best {
            Some(b) => is_highest(c.drop_last(), b, first),
            None => forall|i: int|
                0 <= i < c.drop_last().len() ==> #[trigger] c.drop_last()[i] is None,
        },
    ensures
        ({
            let n = c.len() - 1;
            match best {
                None => is_highest(c, n, first),
                Some(b) => {
                    let s = version::version_sign(c[n]->0, c[b]->0);
                    &&& (if first {
                        s > 0
                    } else {
                        s >= 0
                    }) ==> is_highest(c, n, first)
                    &&& !(if first {
                        s > 0
                    } else {
                        s >= 0
                    }) ==> is_highest(c, b, first)
                },
            }
        }),
{
    let front = c.drop_last();
    let n = c.len() - 1;
    assert forall|i: int| 0 <= i < n implies #[trigger] c[i] == front[i] by {}
    assert(c[n] is Some);
    laws_of_versions::law_first_difference_orders(c[n]->0, c[n]->0);
    version::law_numbers_decide(c[n]->0, c[n]->0);
    version::law_order_is_symmetric(c[n]->0, c[n]->0);
    if let Some(b) = best {
        assert(c[b] == front[b]);
        assert(c[b] is Some);
        laws_of_versions::law_first_difference_orders(c[n]->0, c[b]->0);
        assert forall|i: int| 0 <= i < n && #[trigger] c[i] is Some implies {
            &&& !laws_of_versions::is_below(c[b]->0, c[i]->0)
            &&& !laws_of_versions::is_below(c[n]->0, c[b]->0) ==> !laws_of_versions::is_below(
                c[n]->0,
                c[i]->0,
            )
            &&& laws_of_versions::is_below(c[b]->0, c[n]->0) ==> laws_of_versions::is_below(
                c[i]->0,
                c[n]->0,
            )
            &&& (if first {
                i < b
            } else {
                i > b
            }) ==> laws_of_versions::is_below(c[i]->0, c[b]->0)
        } by {
            assert(front[i] is Some);
            if !laws_of_versions::is_below(c[n]->0, c[b]->0) {
                lemma_not_below(c[n]->0, c[b]->0, c[i]->0);
            }
            laws_of_versions::law_first_difference_orders(c[b]->0, c[n]->0);
            version::law_order_is_symmetric(c[b]->0, c[n]->0);
        }
    }
}

// ────────────────────────────────── Repology ─────────────────────────────────

/// Whether a version is made of digits with dots between them.
pub open spec fn is_of_numbers(v: Seq<char>) -> bool {
    forall|i: int|
        0 <= i < text::split_on(v, '.').len() ==> (#[trigger] text::split_on(v, '.')[i]).len() > 0
            && text::all_in(text::split_on(v, '.')[i], Class::Digit)
}

proof fn lemma_number_count(parts: Seq<Seq<char>>)
    ensures
        registries::number_count(parts) <= parts.len(),
        (forall|i: int|
            0 <= i < parts.len() ==> text::parse_uint(
                #[trigger] parts[i],
                u64::MAX as nat,
            ) is Some) ==> registries::number_count(parts) == parts.len(),
    decreases parts.len(),
{
    if parts.len() > 0 {
        let front = parts.drop_last();
        lemma_number_count(front);
        assert forall|i: int| 0 <= i < front.len() implies #[trigger] front[i] == parts[i] by {}
    }
}

proof fn lemma_part(p: Seq<char>)
    requires
        p.len() > 0,
        text::all_in(p, Class::Digit),
    ensures
        text::digits_value(p) <= u64::MAX ==> text::parse_uint(p, u64::MAX as nat) == Some(
            text::digits_value(p),
        ),
        text::digits_value(p) <= u64::MAX ==> version::part_value(p) == text::digits_value(p),
{
    assert(Class::Digit.has(p[0]));
}

/// One to five numbers up to 9999 are a version that can be a real one; six numbers
/// or more are none, nor are some of which one is above 9999.
pub proof fn law_few_small_numbers_are_sane(v: Seq<char>)
    requires
        is_of_numbers(v),
        forall|i: int| 0 <= i ==> #[trigger] laws_of_versions::number_at(v, i) <= u64::MAX,
    ensures
        registries::is_sane(v) <==> text::split_on(v, '.').len() <= 5 && forall|i: int|
            0 <= i ==> #[trigger] laws_of_versions::number_at(v, i) <= 9999,
{
    let parts = text::split_on(v, '.');
    assert forall|i: int| 0 <= i < parts.len() implies text::parse_uint(
        #[trigger] parts[i],
        u64::MAX as nat,
    ) == Some(laws_of_versions::number_at(v, i)) && version::part_value(parts[i])
        == laws_of_versions::number_at(v, i) by {
        assert(laws_of_versions::number_at(v, i) <= u64::MAX);
        lemma_part(parts[i]);
    }
    lemma_number_count(parts);
    if registries::is_sane(v) {
        assert forall|i: int| 0 <= i implies #[trigger] laws_of_versions::number_at(v, i)
            <= 9999 by {
            if i < parts.len() {
                assert(version::part_value(parts[i]) <= 9999);
            }
        }
    }
    if forall|i: int| 0 <= i ==> #[trigger] laws_of_versions::number_at(v, i) <= 9999 {
        assert forall|i: int| 0 <= i < parts.len() implies version::part_value(
            #[trigger] parts[i],
        ) <= 9999 by {
            assert(laws_of_versions::number_at(v, i) <= 9999);
        }
    }
}

/// Whether Repology holds an entry for the newest there is, with a version of one
/// to five numbers up to 9999.
pub open spec fn is_listed_newest(e: RepologyPackage) -> bool {
    &&& text::opt_text(e.status) == Some("newest"@) || text::opt_text(e.status) == Some("unique"@)
    &&& is_of_numbers(e.version@)
    &&& text::split_on(e.version@, '.').len() <= 5
    &&& forall|i: int| 0 <= i ==> #[trigger] laws_of_versions::number_at(e.version@, i) <= 9999
}

/// Where Repology lists a version of one to five numbers up to 9999 as newest or
/// unique, a version is found: one that is listed so.
pub proof fn law_listed_versions_are_found(
    parsed: &ParsedMakefile,
    packages: &Vec<RepologyPackage>,
    k: int,
    r: Result<UpstreamInfo, String>,
)
    requires
        0 <= k < packages@.len(),
        is_listed_newest(packages@[k]),
        call_ensures(registries::from_repology, (parsed, packages), r),
    ensures
        r is Ok,
        exists|i: int|
            0 <= i < packages@.len() && r->Ok_0@.latest_version == Some(
                (#[trigger] packages@[i]).version@,
            ) && (text::opt_text(packages@[i].status) == Some("newest"@) || text::opt_text(
                packages@[i].status,
            ) == Some("unique"@)),
{
    let c = registries::repology_candidates(packages@);
    law_few_small_numbers_are_sane(packages@[k].version@);
    assert(c[k] is Some);
    tags::lemma_newest(c);
    let i = tags::newest_last(c)->0;
    assert(c[i] is Some);
}

/// Where every version that Repology lists as newest or unique is of plain numbers,
/// the one that is found is below none of those that can be real ones.
pub proof fn law_highest_listed_version_is_found(
    parsed: &ParsedMakefile,
    packages: &Vec<RepologyPackage>,
    k: int,
    r: Result<UpstreamInfo, String>,
)
    requires
        0 <= k < packages@.len(),
        is_listed_newest(packages@[k]),
        forall|i: int|
            0 <= i < packages@.len() ==> version::is_plain_version(
                (#[trigger] packages@[i]).version@,
            ),
        call_ensures(registries::from_repology, (parsed, packages), r),
    ensures
        r is Ok,
        r->Ok_0@.latest_version is Some,
        !laws_of_versions::is_below(r->Ok_0@.latest_version->0, packages@[k].version@),
{
    let c = registries::repology_candidates(packages@);
    assert forall|i: int| 0 <= i < c.len() && #[trigger] c[i] is Some implies
        version::is_plain_version(c[i]->0) by {
        assert(version::is_plain_version(packages@[i].version@));
    }
    law_few_small_numbers_are_sane(packages@[k].version@);
    assert(c[k] is Some);
    law_newest_is_highest(c);
}

/// Entries of other statuses, and versions that cannot be real ones, do not count:
/// where there are no others, no version is found.
pub proof fn law_other_entries_do_not_count(
    parsed: &ParsedMakefile,
    packages: &Vec<RepologyPackage>,
    r: Result<UpstreamInfo, String>,
)
    requires
        call_ensures(registries::from_repology, (parsed, packages), r),
        forall|i: int|
            0 <= i < packages@.len() ==> {
                ||| !(text::opt_text((#[trigger] packages@[i]).status) == Some("newest"@)
                    || text::opt_text(packages@[i].status) == Some("unique"@))
                ||| is_of_numbers(packages@[i].version@) && text::split_on(
                    packages@[i].version@,
                    '.',
                ).len() > 5 && forall|j: int|
                    0 <= j ==> #[trigger] laws_of_versions::number_at(packages@[i].version@, j)
                        <= u64::MAX
            },
    ensures
        r is Err,
        r->Err_0@ == "no newest version in repology for "@ + parsed.pkg_name@,
{
    let c = registries::repology_candidates(packages@);
    assert forall|i: int| 0 <= i < c.len() implies #[trigger] c[i] is None by {
        let e = packages@[i];
        if text::opt_text(e.status) == Some("newest"@) || text::opt_text(e.status) == Some(
            "unique"@,
        ) {
            law_few_small_numbers_are_sane(e.version@);
        }
    }
    tags::lemma_newest(c);
    if let Some(i) = tags::newest_last(c) {
        assert(c[i] is None);
    }
}

// ───────────────────────────── one version is told ───────────────────────────

/// Whether a result is that a version of a package was found: it is compared with
/// the version in effect, and nothing went wrong.
pub open spec fn finds(i: Info, p: ParsedMakefile, v: Seq<char>) -> bool {
    &&& i.pkg_name == p.pkg_name@
    &&& i.current_version == p.in_effect()
    &&& i.latest_version == Some(v)
    &&& i.is_outdated == Some(version::is_outdated(p.in_effect(), v))
    &&& i.check_error is None
    &&& !i.format_mismatch
    &&& !i.is_newer
    &&& i.hash_mismatch is None
}

/// Whether a result is that no version of a package was found, and why.
pub open spec fn finds_none(i: Info, p: ParsedMakefile, reason: Seq<char>) -> bool {
    &&& i.pkg_name == p.pkg_name@
    &&& i.current_version == p.in_effect()
    &&& i.latest_version is None
    &&& i.is_outdated is None
    &&& i.check_error == Some(reason)
    &&& i.write_pkg_version is None
    &&& i.write_pkg_source_version is None
}

/// The version that a registry tells is found, and is what PKG_VERSION becomes.
pub proof fn law_told_versions_are_found(
    parsed: &ParsedMakefile,
    package: &str,
    told: &str,
    r: UpstreamInfo,
)
    requires
        ({
            ||| call_ensures(registries::from_pypi, (parsed, package, told), r)
            ||| call_ensures(registries::from_cratesio, (parsed, package, told), r)
            ||| call_ensures(registries::from_rubygems, (parsed, package, told), r)
            ||| call_ensures(registries::from_npm, (parsed, package, told), r)
        }),
    ensures
        finds(r@, *parsed, told@),
        r@.write_pkg_version == Some(told@),
        r@.write_pkg_source_version is None,
{
}

/// A `v` before the version of a Perl distribution or a Go module is not part of
/// it.
pub proof fn law_told_versions_lose_their_v(
    parsed: &ParsedMakefile,
    package: &str,
    told: &str,
    v: Seq<char>,
    r: UpstreamInfo,
)
    requires
        v.len() == 0 || v[0] != 'v',
        told@ == v || told@ == seq!['v'] + v,
        ({
            ||| call_ensures(registries::from_cpan, (parsed, package, told), r)
            ||| call_ensures(registries::from_gomodule, (parsed, package, told), r)
        }),
    ensures
        finds(r@, *parsed, v),
        r@.write_pkg_version == Some(v),
{
    lemma_without_v(v);
}

proof fn lemma_without_v(v: Seq<char>)
    requires
        v.len() == 0 || v[0] != 'v',
    ensures
        text::trim_start_of(v, Class::Is('v')) == v,
        text::trim_start_of(seq!['v'] + v, Class::Is('v')) == v,
{
    text::lemma_span_is(v, Class::Is('v'), 0);
    assert(v.skip(0) =~= v);
    let w = seq!['v'] + v;
    assert(w[0] == 'v');
    assert(v.len() > 0 ==> w[1] == v[0]);
    text::lemma_span_is(w, Class::Is('v'), 1);
    assert(w.skip(1) =~= v);
}

/// A registry is asked for the package that the source names; for the makefile's
/// package where the source names none.
pub proof fn law_registries_are_asked(
    parsed: &ParsedMakefile,
    package: &str,
    r: String,
)
    ensures
        ({
            let name = if package@.len() > 0 {
                package@
            } else {
                parsed.pkg_name@
            };
            &&& call_ensures(registries::pypi_api, (parsed, package), r) ==> r@
                == "https://pypi.org/pypi/"@ + name + "/json"@
            &&& call_ensures(registries::cratesio_api, (parsed, package), r) ==> r@
                == "https://crates.io/api/v1/crates/"@ + name
            &&& call_ensures(registries::rubygems_api, (parsed, package), r) ==> r@
                == "https://rubygems.org/api/v1/gems/"@ + name + ".json"@
            &&& call_ensures(registries::cpan_api, (parsed, package), r) ==> r@
                == "https://fastapi.metacpan.org/v1/release/"@ + name
            &&& call_ensures(registries::hackage_api, (parsed, package), r) ==> r@
                == "https://hackage.haskell.org/package/"@ + name + "/preferred"@
            &&& call_ensures(registries::pecl_api, (parsed, package), r) ==> r@
                == "https://pecl.php.net/rest/r/"@ + name + "/stable.txt"@
            &&& call_ensures(registries::kernelorg_index, (parsed, package), r) ==> r@
                == "https://www.kernel.org/pub/linux/utils/"@ + name + "/"@
            &&& !name.contains('/') && parsed.source_url is None && call_ensures(
                registries::npm_api,
                (parsed, package),
                r,
            ) ==> r@ == "https://registry.npmjs.org"@ + "/"@ + name + "/latest"@
        }),
{
    reveal_strlit("/");
    let name = if package@.len() > 0 {
        package@
    } else {
        parsed.pkg_name@
    };
    if !name.contains('/') {
        assert("/"@ =~= seq!['/']);
        laws_of_make::lemma_not_found(name, '/', "/"@);
    }
}

/// The slash of a scoped npm package is encoded, and the mirror that a package is
/// loaded from is asked in place of the registry.
pub proof fn law_npm_is_asked(scope: Seq<char>, name: Seq<char>, a: Seq<char>, b: Seq<char>)
    requires
        !scope.contains('/'),
    ensures
        registries::npm_path(scope + seq!['/'] + name) == scope + "%2F"@ + name,
        registries::npm_base(Some(a + "mirrors.tencent.com/npm"@ + b))
            == "https://mirrors.tencent.com/npm"@,
        !text::contains(a + "registry.npmmirror.com"@ + b, "mirrors.tencent.com/npm"@)
            ==> registries::npm_base(Some(a + "registry.npmmirror.com"@ + b))
            == "https://registry.npmmirror.com"@,
        registries::npm_base(None) == "https://registry.npmjs.org"@,
{
    reveal_strlit("/");
    assert("/"@ =~= seq!['/']);
    laws_of_texts::law_marks_part_texts(scope, '/', scope, name);
    laws_of_make::lemma_found(scope, '/', name, "/"@);
    text::lemma_contains(scope + seq!['/'] + name, "/"@);
    lemma_holds(a, "mirrors.tencent.com/npm"@, b);
    lemma_holds(a, "registry.npmmirror.com"@, b);
}

proof fn lemma_holds(a: Seq<char>, x: Seq<char>, b: Seq<char>)
    ensures
        text::contains(a + x + b, x),
{
    let s = a + x + b;
    assert(s.subrange(a.len() as int, a.len() + x.len() as int) =~= x);
    assert(text::occurs_at(s, x, a.len() as int));
}

/// Where the other registries and trackers are asked.
pub proof fn law_others_are_asked(
    parsed: &ParsedMakefile,
    x: &str,
    y: &str,
    a: String,
    b: String,
    c: String,
    d: String,
)
    requires
        call_ensures(registries::gomodule_api, (x,), a),
        call_ensures(registries::sourceforge_api, (x,), b),
        call_ensures(registries::maven_api, (x, y), c),
        call_ensures(registries::anitya_api, (parsed,), d),
    ensures
        a@ == "https://proxy.golang.org/"@ + x@ + "/@latest"@,
        b@ == "https://sourceforge.net/projects/"@ + x@ + "/rss?limit=20"@,
        c@ == "https://search.maven.org/solrsearch/select?q=g:%22"@ + outside::percent_encoded(x@)
            + "%22+AND+a:%22"@ + outside::percent_encoded(y@) + "%22&rows=1&wt=json"@,
        d@ == "https://release-monitoring.org/api/v2/projects/?name="@ + outside::percent_encoded(
            parsed.pkg_name@,
        ) + "&distribution=Fedora"@,
{
}

/// Repology knows packages by their names in lower case, with dashes for underscores.
pub proof fn law_repology_is_asked(
    parsed: &ParsedMakefile,
    a: Seq<char>,
    b: Seq<char>,
    r: String,
)
    requires
        call_ensures(registries::repology_api, (parsed,), r),
        text::all_in(a, Class::Ascii),
        text::all_in(b, Class::Ascii),
        !a.contains('_'),
        !b.contains('_'),
        parsed.pkg_name@ == a + seq!['_'] + b,
    ensures
        r@ == "https://repology.org/api/v1/project/"@ + (outside::lower(a) + seq!['-']
            + outside::lower(b)),
{
    reveal_strlit("_");
    reveal_strlit("-");
    assert("_"@ =~= seq!['_']);
    assert("-"@ =~= seq!['-']);
    let s = a + seq!['_'] + b;
    assert forall|i: int| 0 <= i < s.len() implies Class::Ascii.has(#[trigger] s[i]) by {
        if i < a.len() {
            assert(s[i] == a[i]);
        } else if i > a.len() {
            assert(s[i] == b[i - a.len() - 1]);
        }
    }
    let x = outside::lower(a);
    let y = outside::lower(b);
    assert(outside::lower(s) =~= x + seq!['_'] + y);
    lemma_lower_holds_no_underscore(a);
    lemma_lower_holds_no_underscore(b);
    laws_of_make::lemma_replace_once(x, '_', y, seq!['-']);
}

proof fn lemma_lower_holds_no_underscore(a: Seq<char>)
    requires
        text::all_in(a, Class::Ascii),
        !a.contains('_'),
    ensures
        !outside::lower(a).contains('_'),
{
    let x = outside::lower(a);
    if x.contains('_') {
        let i = choose|i: int| 0 <= i < x.len() && x[i] == '_';
        assert(x[i] == outside::ascii_lower(a[i]));
        assert(a.contains(a[i]));
    }
}

/// What a feed of SourceForge or a listing of kernel.org tells is found.
pub proof fn law_feeds_and_listings(
    parsed: &ParsedMakefile,
    x: &str,
    body: &str,
    v: Seq<char>,
    a: UpstreamInfo,
    b: UpstreamInfo,
)
    requires
        call_ensures(registries::from_sourceforge, (parsed, x, body), a),
        call_ensures(registries::from_kernelorg, (parsed, x, body), b),
    ensures
        pages::feed_version(body@, parsed.pkg_version@) == Some(v) ==> finds(a@, *parsed, v)
            && a@.write_pkg_version == Some(v),
        pages::feed_version(body@, parsed.pkg_version@) is None ==> finds_none(
            a@,
            *parsed,
            "could not parse SF version"@,
        ),
        pages::index_version(body@, parsed.pkg_version@) == Some(v) ==> finds(b@, *parsed, v)
            && b@.write_pkg_version == Some(v),
        pages::index_version(body@, parsed.pkg_version@) is None ==> finds_none(
            b@,
            *parsed,
            "could not parse kernel.org version"@,
        ),
{
}

/// Feeds and listings are read by their own patterns; one that is not valid finds
/// nothing.
pub proof fn law_pages_are_read_by_patterns(body: Seq<char>, current: Seq<char>)
    ensures
        outside::regex_captures_iter(patterns::SF_RSS@, body) is None ==> pages::feed_version(
            body,
            current,
        ) is None,
        outside::regex_captures_iter(patterns::HTML_INDEX@, body) is None ==> pages::index_version(
            body,
            current,
        ) is None,
        outside::regex_captures_iter(patterns::SF_RSS@, body) matches Some(ms) ==> {
            pages::feed_version(body, current) == pages::newest_listed(ms, current)
        },
        outside::regex_captures_iter(patterns::HTML_INDEX@, body) matches Some(ms) ==> {
            pages::index_version(body, current) == pages::newest_listed(ms, current)
        },
{
    let none = Seq::<Seq<Option<Seq<char>>>>::empty();
    assert(pages::listed_versions(none) =~= Seq::<Option<Seq<char>>>::empty());
}

// ──────────────────────────── several are told ───────────────────────────────

/// Of the versions on Hackage the highest is found; without any none is.
pub proof fn law_highest_on_hackage(
    parsed: &ParsedMakefile,
    package: &str,
    versions: &Vec<String>,
    k: int,
    r: UpstreamInfo,
)
    requires
        call_ensures(registries::from_hackage, (parsed, package, versions), r),
        forall|i: int|
            0 <= i < versions@.len() ==> version::is_plain_version(#[trigger] versions@[i]@),
    ensures
        versions@.len() == 0 ==> finds_none(r@, *parsed, "no hackage versions"@),
        0 <= k < versions@.len() ==> exists|i: int|
            0 <= i < versions@.len() && finds(r@, *parsed, #[trigger] versions@[i]@)
                && !laws_of_versions::is_below(versions@[i]@, versions@[k]@),
{
    let c = registries::all_candidates(text::texts(versions@));
    law_newest_is_highest(c);
    tags::lemma_newest(c);
    if 0 <= k < versions@.len() {
        assert(c[k] is Some);
        let i = tags::newest(c)->0;
        assert(finds(r@, *parsed, versions@[i]@));
        assert(c[i]->0 == versions@[i]@);
    }
}

/// The first version that Maven Central finds counts; PECL tells one in a text.
pub proof fn law_maven_and_pecl(
    parsed: &ParsedMakefile,
    a: &str,
    b: &str,
    versions: &Vec<String>,
    r: UpstreamInfo,
    body: &str,
    s: Result<UpstreamInfo, String>,
)
    requires
        call_ensures(registries::from_maven, (parsed, a, b, versions), r),
        call_ensures(registries::from_pecl, (parsed, a, body), s),
    ensures
        versions@.len() > 0 ==> finds(r@, *parsed, versions@[0]@) && r@.write_pkg_version == Some(
            versions@[0]@,
        ),
        versions@.len() == 0 ==> finds_none(r@, *parsed, "maven artifact not found"@),
        text::trim(body@).len() > 0 <==> s is Ok,
        s is Ok ==> finds(s->Ok_0@, *parsed, text::trim(body@)),
{
}

proof fn lemma_first_kernel(rs: Seq<KernelRelease>, k: int)
    requires
        0 <= k < rs.len(),
        rs[k].moniker@ == "stable"@ || rs[k].moniker@ == "longterm"@,
        forall|i: int|
            0 <= i < k ==> (#[trigger] rs[i]).moniker@ != "stable"@ && rs[i].moniker@
                != "longterm"@,
    ensures
        registries::first_kernel(rs) == Some(k),
    decreases rs.len(),
{
    if k == rs.len() - 1 {
        lemma_no_kernel(rs.drop_last());
    } else {
        assert forall|i: int| 0 <= i < k implies (#[trigger] rs.drop_last()[i]).moniker@
            != "stable"@ && rs.drop_last()[i].moniker@ != "longterm"@ by {
            assert(rs.drop_last()[i] == rs[i]);
        }
        lemma_first_kernel(rs.drop_last(), k);
    }
}

proof fn lemma_no_kernel(rs: Seq<KernelRelease>)
    requires
        forall|i: int|
            0 <= i < rs.len() ==> (#[trigger] rs[i]).moniker@ != "stable"@ && rs[i].moniker@
                != "longterm"@,
    ensures
        registries::first_kernel(rs) is None,
    decreases rs.len(),
{
    if rs.len() > 0 {
        assert forall|i: int| 0 <= i < rs.len() - 1 implies (
        #[trigger] rs.drop_last()[i]).moniker@ != "stable"@ && rs.drop_last()[i].moniker@
            != "longterm"@ by {
            assert(rs.drop_last()[i] == rs[i]);
        }
        lemma_no_kernel(rs.drop_last());
        assert(rs.last() == rs[rs.len() - 1]);
    }
}

/// The kernel's version is that of its first stable or long-term release, without
/// a `v`; without any such release there is none.
pub proof fn law_first_stable_kernel(
    parsed: &ParsedMakefile,
    releases: &Vec<KernelRelease>,
    k: int,
    v: Seq<char>,
    r: UpstreamInfo,
)
    requires
        call_ensures(registries::from_kernel_releases, (parsed, releases), r),
        0 <= k <= releases@.len(),
        forall|i: int|
            0 <= i < k ==> (#[trigger] releases@[i]).moniker@ != "stable"@ && releases@[i].moniker@
                != "longterm"@,
        v.len() == 0 || v[0] != 'v',
    ensures
        k == releases@.len() ==> finds_none(r@, *parsed, "no stable kernel found"@),
        k < releases@.len() && (releases@[k].moniker@ == "stable"@ || releases@[k].moniker@
            == "longterm"@) && (releases@[k].version@ == v || releases@[k].version@ == seq!['v']
            + v) ==> finds(r@, *parsed, v) && r@.write_pkg_version == Some(v),
{
    lemma_without_v(v);
    if k == releases@.len() {
        lemma_no_kernel(releases@);
    } else if releases@[k].moniker@ == "stable"@ || releases@[k].moniker@ == "longterm"@ {
        lemma_first_kernel(releases@, k);
    }
}

/// Only `linux` and `kernel` are the kernel itself.
pub proof fn law_the_kernel_itself(parsed: &ParsedMakefile, package: &str, r: bool)
    requires
        call_ensures(registries::is_kernel, (parsed, package), r),
        package@.len() > 0,
    ensures
        r <==> package@ == "linux"@ || package@ == "kernel"@,
{
}

// ─────────────────────────────────── Anitya ──────────────────────────────────

proof fn lemma_first_meeting(hosts: Seq<Option<Seq<char>>>, host: Option<Seq<char>>, k: int)
    requires
        0 <= k < hosts.len(),
        registries::hosts_meet(hosts[k], host),
        forall|i: int| 0 <= i < k ==> !registries::hosts_meet(#[trigger] hosts[i], host),
    ensures
        registries::first_meeting(hosts, host) == k,
    decreases k,
{
    if k > 0 {
        assert(!registries::hosts_meet(hosts[0], host));
        let rest = hosts.skip(1);
        assert forall|i: int| 0 <= i < k - 1 implies !registries::hosts_meet(
            #[trigger] rest[i],
            host,
        ) by {
            assert(rest[i] == hosts[i + 1]);
        }
        assert(rest[k - 1] == hosts[k]);
        lemma_first_meeting(rest, host, k - 1);
    }
}

/// Of Anitya's projects the first counts whose homepage is on a host that holds the
/// host of the source, or is held by it; without one the first of all.  Its latest
/// version is found, or its version where it has no latest one.
pub proof fn law_project_of_the_host(
    parsed: &ParsedMakefile,
    items: &Vec<AnityaProject>,
    k: int,
    x: Seq<char>,
    a: Seq<char>,
    b: Seq<char>,
    r: Result<UpstreamInfo, String>,
)
    requires
        call_ensures(registries::from_anitya, (parsed, items), r),
        0 <= k < items@.len(),
        ({
            let hosts = registries::homepage_hosts(items@);
            let own = registries::lower_host(registries::main_url(*parsed));
            ||| own == Some(x) && hosts[k] == Some(a + x + b) && forall|i: int|
                0 <= i < k ==> !registries::hosts_meet(#[trigger] hosts[i], own)
            ||| own == Some(a + x + b) && hosts[k] == Some(x) && forall|i: int|
                0 <= i < k ==> !registries::hosts_meet(#[trigger] hosts[i], own)
            ||| own is None && k == 0
        }),
    ensures
        items@[k].latest_version matches Some(v) ==> r is Ok && finds(r->Ok_0@, *parsed, v@),
        items@[k].latest_version is None && items@[k].version is Some ==> r is Ok && finds(
            r->Ok_0@,
            *parsed,
            items@[k].version->0@,
        ),
        items@[k].latest_version is None && items@[k].version is None ==> r is Err,
{
    let hosts = registries::homepage_hosts(items@);
    let own = registries::lower_host(registries::main_url(*parsed));
    lemma_holds(a, x, b);
    if own is Some {
        assert(registries::hosts_meet(hosts[k], own));
        lemma_first_meeting(hosts, own, k);
    }
}

/// A package's host is that of its first URL.
pub proof fn law_hosts_of_packages(parsed: &ParsedMakefile, url: Seq<char>, host: Seq<char>)
    requires
        parsed.source_urls@.len() > 0,
        parsed.source_urls@[0]@ == url,
        outside::url_host(url) == Some(host),
    ensures
        registries::lower_host(registries::main_url(*parsed)) == Some(outside::lower(host)),
{
}

// ──────────────────────────────────── pages ──────────────────────────────────

/// The first group of each match on a page is a version.  Of those that name no
/// pre-release the highest is found, unless it is the current one.
pub proof fn law_highest_on_a_page(
    ms: &Vec<Vec<Option<String>>>,
    current: &str,
    k: int,
    v: Seq<char>,
    r: Option<String>,
)
    requires
        call_ensures(pages::pick_listed, (ms, current), r),
        0 <= k < ms@.len(),
        outside::groups(ms@[k]@).len() > 1,
        outside::groups(ms@[k]@)[1] == Some(v),
        !version::is_prerelease(v),
        v != current@,
        forall|i: int|
            0 <= i < ms@.len() ==> {
                let t = outside::group(outside::groups(#[trigger] ms@[i]@), 1);
                version::is_prerelease(t) || version::is_plain_version(t)
            },
    ensures
        r is None ==> !laws_of_versions::is_below(current@, v),
        r matches Some(t) ==> t@ != current@ && !version::is_prerelease(t@)
            && !laws_of_versions::is_below(t@, v) && exists|i: int|
            0 <= i < ms@.len() && t@ == outside::group(outside::groups(#[trigger] ms@[i]@), 1),
{
    let all = outside::all_groups(ms@);
    let c = pages::listed_versions(all);
    assert forall|i: int| 0 <= i < c.len() && #[trigger] c[i] is Some implies
        version::is_plain_version(c[i]->0) by {
        assert(all[i] == outside::groups(ms@[i]@));
    }
    assert(all[k] == outside::groups(ms@[k]@));
    assert(c[k] == Some(v));
    law_newest_is_highest(c);
    let b = tags::newest(c)->0;
    assert(c[b] is Some);
    assert(all[b] == outside::groups(ms@[b]@));
}

/// A pattern takes its first group for the version, or the whole match where that
/// took no part; pre-releases only where they count.
pub proof fn law_patterns_take_versions(
    w: Seq<char>,
    x: Seq<char>,
    rest: Seq<Option<Seq<char>>>,
    prereleases: bool,
)
    ensures
        prereleases || !version::is_prerelease(x) ==> pages::taken_version(
            seq![Some(w), Some(x)] + rest,
            prereleases,
        ) == Some(x),
        !prereleases && version::is_prerelease(x) ==> pages::taken_version(
            seq![Some(w), Some(x)] + rest,
            prereleases,
        ) is None,
        prereleases || !version::is_prerelease(w) ==> pages::taken_version(
            seq![Some(w), None] + rest,
            prereleases,
        ) == Some(w) && pages::taken_version(seq![Some(w)], prereleases) == Some(w),
{
}

/// The highest version that a pattern takes off a page is found.
pub proof fn law_highest_that_a_pattern_takes(
    parsed: &ParsedMakefile,
    ms: &Vec<Vec<Option<String>>>,
    url: &str,
    prereleases: bool,
    k: int,
    r: UpstreamInfo,
)
    requires
        call_ensures(pages::from_matches, (parsed, ms, url, prereleases), r),
        are_plain(pages::taken_versions(outside::all_groups(ms@), prereleases)),
        0 <= k < ms@.len(),
        pages::taken_version(outside::groups(ms@[k]@), prereleases) is Some,
    ensures
        r@.upstream_url == Some(url@),
        r@.latest_version is Some,
        finds(r@, *parsed, r@.latest_version->0),
        r@.write_pkg_version == r@.latest_version,
        !laws_of_versions::is_below(
            r@.latest_version->0,
            pages::taken_version(outside::groups(ms@[k]@), prereleases)->0,
        ),
{
    let all = outside::all_groups(ms@);
    let c = pages::taken_versions(all, prereleases);
    assert(all[k] == outside::groups(ms@[k]@));
    assert(c[k] is Some);
    law_newest_is_highest(c);
}

} // verus!
